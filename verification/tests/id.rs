use omegalul::id::{generate_random_id, id_from_words, Omeglenumeric, CHARSET, WORDS_PER_SYMBOL};

#[test]
fn identifier_has_eight_symbols_of_the_alphabet() {
    for _ in 0..1000 {
        let id = generate_random_id();
        assert_eq!(id.chars().count(), 8);
        assert_eq!(id.len(), 8);
        for c in id.chars() {
            assert!(c.is_ascii());
            assert!(CHARSET.contains(&(c as u8)), "{c} is no symbol of the alphabet");
        }
    }
}

#[test]
fn alphabet_is_upper_case_without_i_and_o_then_digits() {
    let text: String = CHARSET.iter().map(|b| *b as char).collect();
    assert_eq!(text, "ABCDEFGHJKLMNPQRSTUVWXYZ0123456789");
    assert_eq!(CHARSET.len(), 34);
}

#[test]
fn symbol_looks_up_the_alphabet() {
    assert_eq!(Omeglenumeric::symbol(0), b'A');
    assert_eq!(Omeglenumeric::symbol(8), b'J');
    assert_eq!(Omeglenumeric::symbol(13), b'P');
    assert_eq!(Omeglenumeric::symbol(23), b'Z');
    assert_eq!(Omeglenumeric::symbol(24), b'0');
    assert_eq!(Omeglenumeric::symbol(33), b'9');
}

#[test]
fn sample_takes_the_first_word_that_selects_a_symbol() {
    assert_eq!(Omeglenumeric.sample(&[0xFFFF_FFFF, 0x8400_0000]), Some((b'9', 2)));
    assert_eq!(Omeglenumeric.sample(&[0]), Some((b'A', 1)));
    assert_eq!(Omeglenumeric.sample(&[34 << 26, 40 << 26, 63 << 26, 8 << 26]), Some((b'J', 4)));
}

#[test]
fn sample_looks_at_no_word_behind_the_selecting_one() {
    assert_eq!(Omeglenumeric.sample(&[0xFFFF_FFFF, 0x8400_0000, 0, 1 << 26]), Some((b'9', 2)));
    assert_eq!(Omeglenumeric.sample(&[1 << 26, 2 << 26, 3 << 26]), Some((b'B', 1)));
}

#[test]
fn sample_rejects_and_does_not_reduce() {
    assert_eq!(Omeglenumeric.sample(&[35 << 26, 1 << 26]), Some((b'B', 2)));
    assert_eq!(Omeglenumeric.sample(&[(34 + 33) << 26]), Some((b'D', 1)));
    assert_eq!(Omeglenumeric.sample(&[34 << 26]), None);
}

#[test]
fn sample_of_words_that_select_nothing_is_none() {
    assert_eq!(Omeglenumeric.sample(&[]), None);
    assert_eq!(Omeglenumeric.sample(&[u32::MAX; 50]), None);
    assert_eq!(Omeglenumeric.sample(&[34 << 26, 63 << 26, 50 << 26 | 5]), None);
}

#[test]
fn accept_selects_by_the_six_highest_bits() {
    assert_eq!(Omeglenumeric::accept(0), Some(b'A'));
    assert_eq!(Omeglenumeric::accept((1 << 26) - 1), Some(b'A'));
    assert_eq!(Omeglenumeric::accept(1 << 26), Some(b'B'));
    assert_eq!(Omeglenumeric::accept(8 << 26), Some(b'J'));
    assert_eq!(Omeglenumeric::accept(23 << 26 | 0x3ff_ffff), Some(b'Z'));
    assert_eq!(Omeglenumeric::accept(24 << 26), Some(b'0'));
    assert_eq!(Omeglenumeric::accept(33 << 26 | 12345), Some(b'9'));
    for index in 0..34u32 {
        assert_eq!(Omeglenumeric::accept(index << 26), Some(CHARSET[index as usize]));
    }
}

#[test]
fn accept_rejects_the_words_beyond_the_alphabet() {
    assert_eq!(Omeglenumeric::accept(34 << 26), None);
    assert_eq!(Omeglenumeric::accept((34 << 26) - 1), Some(b'9'));
    assert_eq!(Omeglenumeric::accept(63 << 26), None);
    assert_eq!(Omeglenumeric::accept(u32::MAX), None);
    for index in 34..64u32 {
        assert_eq!(Omeglenumeric::accept(index << 26 | 7), None);
    }
}

#[test]
fn identifiers_show_no_bias_among_the_symbols() {
    let mut counts = [0u32; 256];
    let samples = 10_000u32;
    for _ in 0..samples {
        for symbol in generate_random_id().bytes() {
            counts[symbol as usize] += 1;
        }
    }
    let draws = (samples * 8) as f64;
    let expected = draws / 34.0;
    let mut chi_square = 0.0f64;
    let mut total = 0u32;
    for symbol in CHARSET.iter() {
        let seen = counts[*symbol as usize] as f64;
        total += counts[*symbol as usize];
        chi_square += (seen - expected) * (seen - expected) / expected;
    }
    assert_eq!(total, samples * 8);
    // 33 degrees of freedom: 100 is exceeded with a probability below 1e-8.
    assert!(chi_square < 100.0, "chi-square statistic {chi_square}");
}

#[test]
fn identifiers_differ_from_call_to_call() {
    let mut ids: Vec<String> = (0..200).map(|_| generate_random_id()).collect();
    ids.sort();
    ids.dedup();
    assert!(ids.len() > 190);
}

fn word(position: u32) -> u32 {
    position << 26
}

#[test]
fn id_from_words_spells_the_first_eight_selected_symbols() {
    let words: Vec<u32> = [0, 1, 2, 3, 4, 5, 6, 7].iter().map(|p| word(*p)).collect();
    assert_eq!(id_from_words(&words), Some("ABCDEFGH".to_string()));
    let words: Vec<u32> = [33, 24, 8, 13, 23, 0, 0, 32, 5, 6].iter().map(|p| word(*p) | 99).collect();
    assert_eq!(id_from_words(&words), Some("90JPZAA8".to_string()));
}

#[test]
fn id_from_words_skips_the_words_that_select_nothing() {
    let words = vec![
        word(40),
        word(7),
        word(63),
        u32::MAX,
        word(7),
        word(24),
        word(34),
        word(25),
        word(26),
        word(50),
        word(27),
        word(28),
        word(35),
        word(29),
        word(0),
    ];
    assert_eq!(id_from_words(&words), Some("HH012345".to_string()));
}

#[test]
fn id_from_words_needs_eight_selected_symbols() {
    assert_eq!(id_from_words(&[]), None);
    assert_eq!(id_from_words(&[word(1); 7]), None);
    assert_eq!(id_from_words(&[word(34); 100]), None);
    let mut words = vec![word(1); 7];
    words.extend([word(60); 20]);
    assert_eq!(id_from_words(&words), None);
    words.push(word(2));
    assert_eq!(id_from_words(&words), Some("BBBBBBBC".to_string()));
}

#[test]
fn every_symbol_has_as_many_words_as_any_other() {
    assert_eq!(WORDS_PER_SYMBOL, 1 << 26);
    for position in 0..34u32 {
        let first = position * WORDS_PER_SYMBOL;
        let last = first + (WORDS_PER_SYMBOL - 1);
        let symbol = Some(CHARSET[position as usize]);
        assert_eq!(Omeglenumeric::accept(first), symbol);
        assert_eq!(Omeglenumeric::accept(last), symbol);
        assert_eq!(Omeglenumeric::accept(first + 12_345), symbol);
        if position > 0 {
            assert_ne!(Omeglenumeric::accept(first - 1), symbol);
        }
        assert_ne!(Omeglenumeric::accept(last + 1), symbol);
    }
}

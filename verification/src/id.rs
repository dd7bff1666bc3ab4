//! Session nonces: eight symbols drawn uniformly from a 34-symbol alphabet.

use rand::{Rng, RngCore};
use vstd::prelude::*;
use vstd::slice::slice_subrange;

use crate::text::push_char;

verus! {

/// Number of symbols in the alphabet.
pub const RANGE: u32 = 34;

/// Number of symbols in an identifier.
pub const ID_LENGTH: usize = 8;

/// The alphabet, in ASCII: the upper-case letters without `I` and `O`, then
/// the digits.
pub const CHARSET: [u8; 34] = [
    65, 66, 67, 68, 69, 70, 71, 72, 74, 75, 76, 77, 78, 80, 81, 82, 83, 84, 85, 86, 87, 88, 89, 90,
    48, 49, 50, 51, 52, 53, 54, 55, 56, 57,
];

/// Whether `symbol` is an upper-case ASCII letter other than `I` and `O`, or
/// an ASCII digit.
pub open spec fn is_symbol(symbol: u8) -> bool {
    ||| 65 <= symbol <= 90 && symbol != 73 && symbol != 79
    ||| 48 <= symbol <= 57
}

/// Whether `c` is the character of a symbol of the alphabet.
pub open spec fn is_symbol_char(c: char) -> bool {
    0 <= c as int <= 255 && is_symbol(c as u8)
}

/// Whether `id` is a well-formed identifier: `ID_LENGTH` characters, each of
/// them a symbol of the alphabet.
pub open spec fn is_valid_id(id: Seq<char>) -> bool {
    &&& id.len() == ID_LENGTH
    &&& forall|i: int| 0 <= i < id.len() ==> is_symbol_char(#[trigger] id[i])
}

/// The place of `symbol` in the alphabet.
pub open spec fn position_of(symbol: u8) -> int {
    if symbol < 65 {
        symbol - 48 + 24
    } else if symbol < 73 {
        symbol - 65
    } else if symbol < 79 {
        symbol - 66
    } else {
        symbol - 67
    }
}

/// The alphabet holds the `RANGE` symbols, each of them once, and nothing
/// else.
pub proof fn lemma_alphabet()
    ensures
        CHARSET@.len() == RANGE,
        forall|i: int| 0 <= i < CHARSET@.len() ==> is_symbol(#[trigger] CHARSET@[i]),
        forall|symbol: u8|
            is_symbol(symbol) ==> 0 <= position_of(symbol) < CHARSET@.len()
                && CHARSET@[position_of(symbol)] == symbol,
        forall|i: int, j: int|
            0 <= i < j < CHARSET@.len() ==> #[trigger] CHARSET@[i] != #[trigger] CHARSET@[j],
{
    assert forall|i: int, j: int| 0 <= i < j < CHARSET@.len() implies #[trigger] CHARSET@[i]
        != #[trigger] CHARSET@[j] by {
        assert(is_symbol(CHARSET@[i]) && position_of(CHARSET@[i]) == i);
        assert(is_symbol(CHARSET@[j]) && position_of(CHARSET@[j]) == j);
    }
}

/// Number of words that share their six highest bits.
pub const WORDS_PER_SYMBOL: u32 = 0x400_0000;

/// The symbol that `word` selects by its six highest bits; none where they
/// are `RANGE` or more.
pub open spec fn selection(word: u32) -> Option<u8> {
    if (word >> 26) < RANGE {
        Some(CHARSET@[(word >> 26) as int])
    } else {
        None
    }
}

/// The symbols that `words` select, in the order of the words; a word that
/// selects none leaves no trace.
pub open spec fn selections(words: Seq<u32>) -> Seq<u8>
    decreases words.len(),
{
    if words.len() == 0 {
        Seq::empty()
    } else {
        match selection(words.last()) {
            Some(symbol) => selections(words.drop_last()).push(symbol),
            None => selections(words.drop_last()),
        }
    }
}

/// The text that spells `symbols`.
pub open spec fn text_of(symbols: Seq<u8>) -> Seq<char> {
    Seq::new(symbols.len(), |i: int| symbols[i] as char)
}

/// No symbol is favoured: the words that select the symbol at `position`
/// are the `WORDS_PER_SYMBOL` words from `position * WORDS_PER_SYMBOL` on,
/// as many for one symbol as for another. Over uniform words every symbol
/// is therefore selected with the same probability.
pub proof fn lemma_words_of_a_symbol(position: u32)
    requires
        position < RANGE,
    ensures
        forall|word: u32|
            (#[trigger] selection(word) == Some(CHARSET@[position as int])) <==> position
                * WORDS_PER_SYMBOL <= word < (position + 1) * WORDS_PER_SYMBOL,
{
    lemma_alphabet();
    assert forall|word: u32|
        (#[trigger] selection(word) == Some(CHARSET@[position as int])) <==> position
            * WORDS_PER_SYMBOL <= word < (position + 1) * WORDS_PER_SYMBOL by {
        let high = word >> 26;
        assert(high < 64 && (high == position <==> position * 0x400_0000 <= word < (position + 1)
            * 0x400_0000)) by (bit_vector)
            requires
                high == word >> 26,
                position < 34,
        ;
        if high < RANGE && high != position {
            if high < position {
                assert(CHARSET@[high as int] != CHARSET@[position as int]);
            } else {
                assert(CHARSET@[position as int] != CHARSET@[high as int]);
            }
        }
    }
}

/// What a shorter supply of words selects is the beginning of what a longer
/// one selects.
pub proof fn lemma_selections_prefix(words: Seq<u32>, count: int)
    requires
        0 <= count <= words.len(),
    ensures
        selections(words.take(count)).len() <= selections(words).len(),
        selections(words.take(count)) == selections(words).take(
            selections(words.take(count)).len() as int,
        ),
    decreases words.len(),
{
    let part = selections(words.take(count));
    if count == words.len() {
        assert(words.take(count) =~= words);
        assert(part =~= part.take(part.len() as int));
    } else {
        assert(words.drop_last().take(count) =~= words.take(count));
        lemma_selections_prefix(words.drop_last(), count);
        assert(part =~= selections(words).take(part.len() as int));
    }
}

/// Words that select nothing leave no trace in what a supply selects.
pub proof fn lemma_selections_skip(words: Seq<u32>, from: int, to: int)
    requires
        0 <= from <= to <= words.len(),
        forall|k: int| from <= k < to ==> selection(#[trigger] words[k]) is None,
    ensures
        selections(words.take(to)) == selections(words.take(from)),
    decreases to - from,
{
    if from < to {
        assert(words.take(to).drop_last() =~= words.take(to - 1));
        assert(words.take(to).last() == words[to - 1]);
        lemma_selections_skip(words, from, to - 1);
    }
}

/// Number of random words that one identifier is drawn from.
pub const SUPPLY: usize = 64;

/// The uniform distribution over the alphabet.
#[derive(Debug, Clone, Copy)]
pub struct Omeglenumeric;

/// `Rng::gen_range(0..bound)` on `rand::thread_rng()`: rand returns a value of
/// the half-open range `0..bound`, each with the same probability, and panics
/// when the range is empty. Only the bounds are stated here; two calls may
/// differ.
#[verifier::external_body]
fn random_below(bound: u32) -> (index: u32)
    requires
        bound > 0,
    ensures
        index < bound,
{
    rand::thread_rng().gen_range(0..bound)
}

impl Omeglenumeric {
    /// The symbol at position `index` of the alphabet.
    pub fn symbol(index: u32) -> (symbol: u8)
        requires
            index < RANGE,
        ensures
            symbol == CHARSET@[index as int],
            is_symbol(symbol),
    {
        CHARSET[index as usize]
    }

    /// One step of rejection sampling: the six highest bits of `word`
    /// select a symbol, and a word whose six highest bits are `RANGE` or
    /// more selects none. Over uniform words every symbol is selected with
    /// the same probability.
    pub fn accept(word: u32) -> (symbol: Option<u8>)
        ensures
            symbol == selection(word),
            symbol matches Some(symbol) ==> is_symbol(symbol),
    {
        let var: u32 = word >> 26;
        if var < RANGE {
            Some(Self::symbol(var))
        } else {
            None
        }
    }

    /// Rejection sampling over a supply of random words: the symbol that the
    /// first selecting word selects, and the number of words used up to and
    /// including that one. Words behind it are not looked at. There is no
    /// symbol where no word selects one.
    pub fn sample(&self, words: &[u32]) -> (drawn: Option<(u8, usize)>)
        ensures
            match drawn {
                Some((symbol, used)) => {
                    &&& 0 < used <= words.len()
                    &&& selection(words@[used - 1]) == Some(symbol)
                    &&& forall|k: int| 0 <= k < used - 1 ==> selection(#[trigger] words@[k]) is None
                    &&& is_symbol(symbol)
                },
                None => forall|k: int|
                    0 <= k < words.len() ==> selection(#[trigger] words@[k]) is None,
            },
    {
        let mut at: usize = 0;
        while at < words.len()
            invariant
                at <= words.len(),
                forall|k: int| 0 <= k < at ==> selection(#[trigger] words@[k]) is None,
            decreases words.len() - at,
        {
            match Self::accept(words[at]) {
                Some(symbol) => {
                    return Some((symbol, at + 1));
                },
                None => {},
            }
            at = at + 1;
        }
        None
    }
}

/// `RngCore::next_u32` on `rand::thread_rng()`: the next random word of the
/// thread's generator. Nothing is stated of it; two calls may differ.
#[verifier::external_body]
fn random_word() -> u32 {
    rand::thread_rng().next_u32()
}

/// The identifier that a supply of random words gives: the first
/// `ID_LENGTH` symbols that the words select, in the order of the words.
/// There is none where the words select fewer.
pub fn id_from_words(words: &[u32]) -> (id: Option<String>)
    ensures
        match id {
            Some(id) => {
                &&& selections(words@).len() >= ID_LENGTH
                &&& id@ == text_of(selections(words@).take(ID_LENGTH as int))
                &&& is_valid_id(id@)
            },
            None => selections(words@).len() < ID_LENGTH,
        },
{
    let mut id = String::new();
    let mut count: usize = 0;
    let mut at: usize = 0;
    while count < ID_LENGTH
        invariant
            at <= words.len(),
            count <= ID_LENGTH,
            count == selections(words@.take(at as int)).len(),
            id@ == text_of(selections(words@.take(at as int))),
            forall|i: int| 0 <= i < id@.len() ==> is_symbol_char(#[trigger] id@[i]),
        decreases ID_LENGTH - count,
    {
        let ghost before = selections(words@.take(at as int));
        let rest = slice_subrange(words, at, words.len());
        match Omeglenumeric.sample(rest) {
            Some((symbol, used)) => {
                proof {
                    let end = at + used;
                    assert forall|k: int| at <= k < end - 1 implies selection(
                        #[trigger] words@[k],
                    ) is None by {
                        assert(rest@[k - at] == words@[k]);
                    }
                    assert(rest@[used - 1] == words@[end - 1]);
                    lemma_selections_skip(words@, at as int, end - 1);
                    assert(words@.take(end).drop_last() =~= words@.take(end - 1));
                    assert(words@.take(end).last() == words@[end - 1]);
                }
                push_char(&mut id, symbol as char);
                count = count + 1;
                at = at + used;
                assert(id@ =~= text_of(before.push(symbol)));
            },
            None => {
                proof {
                    assert forall|k: int| at <= k < words.len() implies selection(
                        #[trigger] words@[k],
                    ) is None by {
                        assert(rest@[k - at] == words@[k]);
                    }
                    lemma_selections_skip(words@, at as int, words.len() as int);
                    assert(words@.take(words.len() as int) =~= words@);
                }
                return None;
            },
        }
    }
    proof {
        lemma_selections_prefix(words@, at as int);
    }
    Some(id)
}

/// An identifier drawn symbol by symbol, each from one ranged draw.
fn id_from_ranged_draws() -> (id: String)
    ensures
        is_valid_id(id@),
{
    let mut id = String::new();
    let mut count: usize = 0;
    while count < ID_LENGTH
        invariant
            count <= ID_LENGTH,
            id@.len() == count,
            forall|i: int| 0 <= i < id@.len() ==> is_symbol_char(#[trigger] id@[i]),
        decreases ID_LENGTH - count,
    {
        let symbol: u8 = Omeglenumeric::symbol(random_below(RANGE));
        push_char(&mut id, symbol as char);
        count = count + 1;
    }
    id
}

/// Produces a fresh identifier by rejection sampling: it draws `SUPPLY`
/// random words and spells the first `ID_LENGTH` symbols that they select.
/// A supply of uniform words selects fewer with a probability below one in
/// 10^11; the identifier is then drawn symbol by symbol from ranged draws,
/// which are uniform as well.
pub fn generate_random_id() -> (id: String)
    ensures
        is_valid_id(id@),
{
    let mut words: Vec<u32> = Vec::new();
    while words.len() < SUPPLY
        invariant
            words.len() <= SUPPLY,
        decreases SUPPLY - words.len(),
    {
        words.push(random_word());
    }
    match id_from_words(words.as_slice()) {
        Some(id) => id,
        None => id_from_ranged_draws(),
    }
}

} // verus!

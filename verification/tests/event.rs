use omegalul::event::{clone_events, decode_event, ChatEvent};
use omegalul::server::Server;
use omegalul::wire::{parse, Value};

fn text(value: &str) -> Value {
    Value::Text(value.to_string())
}

fn entry(parts: &[&str]) -> Value {
    Value::List(parts.iter().map(|part| text(part)).collect())
}

fn likes(topics: &[&str]) -> Value {
    Value::List(vec![text("commonLikes"), entry(topics)])
}

#[test]
fn every_tag_decodes_to_its_event() {
    assert_eq!(decode_event(&entry(&["gotMessage", "hello"])), Some(ChatEvent::Message("hello".to_string())));
    assert_eq!(decode_event(&entry(&["connected"])), Some(ChatEvent::Connected));
    assert_eq!(
        decode_event(&likes(&["rust", "chess"])),
        Some(ChatEvent::CommonLikes(vec!["rust".to_string(), "chess".to_string()]))
    );
    assert_eq!(decode_event(&entry(&["waiting"])), Some(ChatEvent::Waiting));
    assert_eq!(decode_event(&entry(&["typing"])), Some(ChatEvent::Typing));
    assert_eq!(decode_event(&entry(&["stoppedTyping"])), Some(ChatEvent::StoppedTyping));
    assert_eq!(decode_event(&entry(&["strangerDisconnected"])), Some(ChatEvent::StrangerDisconnected));
    assert_eq!(decode_event(&entry(&["error", "banned"])), Some(ChatEvent::Error("banned".to_string())));
}

#[test]
fn unknown_tags_are_dropped() {
    assert_eq!(decode_event(&entry(&["statusInfo"])), None);
    assert_eq!(decode_event(&entry(&["identDigests", "a,b"])), None);
    assert_eq!(decode_event(&entry(&[""])), None);
    assert_eq!(decode_event(&entry(&["GotMessage", "hello"])), None);
    assert_eq!(decode_event(&entry(&["stoppedtyping"])), None);
}

#[test]
fn entries_of_the_wrong_shape_are_dropped() {
    assert_eq!(decode_event(&Value::List(vec![])), None);
    assert_eq!(decode_event(&Value::Other), None);
    assert_eq!(decode_event(&text("waiting")), None);
    assert_eq!(decode_event(&Value::Record(vec![("waiting".to_string(), Value::Other)])), None);
    assert_eq!(decode_event(&Value::List(vec![Value::Other, text("waiting")])), None);
    assert_eq!(decode_event(&Value::List(vec![entry(&["waiting"])])), None);
}

#[test]
fn a_missing_or_misshapen_payload_drops_the_entry() {
    assert_eq!(decode_event(&entry(&["gotMessage"])), None);
    assert_eq!(decode_event(&entry(&["error"])), None);
    assert_eq!(decode_event(&entry(&["commonLikes"])), None);
    assert_eq!(decode_event(&Value::List(vec![text("gotMessage"), Value::Other])), None);
    assert_eq!(decode_event(&Value::List(vec![text("gotMessage"), entry(&["hello"])])), None);
    assert_eq!(decode_event(&Value::List(vec![text("error"), Value::Other])), None);
    assert_eq!(decode_event(&entry(&["commonLikes", "rust"])), None);
    assert_eq!(decode_event(&Value::List(vec![text("commonLikes"), Value::Other])), None);
    assert_eq!(
        decode_event(&Value::List(vec![text("commonLikes"), Value::List(vec![text("rust"), Value::Other])])),
        None
    );
}

#[test]
fn what_follows_the_payload_is_not_read() {
    assert_eq!(decode_event(&entry(&["connected", "extra"])), Some(ChatEvent::Connected));
    assert_eq!(
        decode_event(&Value::List(vec![text("gotMessage"), text("hi"), Value::Other])),
        Some(ChatEvent::Message("hi".to_string()))
    );
    assert_eq!(decode_event(&likes(&[])), Some(ChatEvent::CommonLikes(vec![])));
    assert_eq!(decode_event(&entry(&["gotMessage", ""])), Some(ChatEvent::Message(String::new())));
}

#[test]
fn parse_events_keeps_the_order_of_the_entries() {
    let batch = vec![
        entry(&["waiting"]),
        entry(&["statusInfo"]),
        entry(&["connected"]),
        likes(&["rust"]),
        entry(&["typing"]),
        Value::Other,
        entry(&["gotMessage", "hi"]),
        entry(&["stoppedTyping"]),
        entry(&["error", "oops"]),
        entry(&["strangerDisconnected"]),
    ];
    let events = Server::parse_events(&batch);
    assert_eq!(
        events,
        vec![
            ChatEvent::Waiting,
            ChatEvent::Connected,
            ChatEvent::CommonLikes(vec!["rust".to_string()]),
            ChatEvent::Typing,
            ChatEvent::Message("hi".to_string()),
            ChatEvent::StoppedTyping,
            ChatEvent::Error("oops".to_string()),
            ChatEvent::StrangerDisconnected,
        ]
    );
    assert!(events.len() <= batch.len());
}

#[test]
fn parse_events_of_an_empty_batch_is_empty() {
    assert_eq!(Server::parse_events(&[]), vec![]);
    assert_eq!(Server::parse_events(&[entry(&["nope"]), Value::Other]), vec![]);
}

#[test]
fn common_likes_between_unknown_tags_is_the_one_event() {
    let expected = vec![ChatEvent::CommonLikes(vec!["a".to_string(), "b".to_string()])];
    let middle = vec![entry(&["first"]), likes(&["a", "b"]), entry(&["third"])];
    assert_eq!(Server::parse_events(&middle), expected);
    let front = vec![likes(&["a", "b"]), entry(&["second"]), entry(&["third"])];
    assert_eq!(Server::parse_events(&front), expected);
    let back = vec![entry(&["first"]), entry(&["second"]), likes(&["a", "b"])];
    assert_eq!(Server::parse_events(&back), expected);
}

#[test]
fn common_likes_keeps_its_place_among_the_events() {
    let batch = vec![entry(&["waiting"]), entry(&["x"]), likes(&["a"]), entry(&["y"]), entry(&["connected"])];
    assert_eq!(
        Server::parse_events(&batch),
        vec![ChatEvent::Waiting, ChatEvent::CommonLikes(vec!["a".to_string()]), ChatEvent::Connected]
    );
}

#[test]
fn one_malformed_entry_among_three_leaves_two_events() {
    let batch = vec![entry(&["connected"]), entry(&["gotMessage"]), entry(&["typing"])];
    assert_eq!(Server::parse_events(&batch), vec![ChatEvent::Connected, ChatEvent::Typing]);
    let first = vec![entry(&["gotMessage"]), entry(&["connected"]), entry(&["typing"])];
    assert_eq!(Server::parse_events(&first), vec![ChatEvent::Connected, ChatEvent::Typing]);
    let last = vec![entry(&["connected"]), entry(&["gotMessage", "hey"]), entry(&["error"])];
    assert_eq!(
        Server::parse_events(&last),
        vec![ChatEvent::Connected, ChatEvent::Message("hey".to_string())]
    );
}

#[test]
fn decoding_a_batch_in_two_parts_gives_the_same_events() {
    let batch = vec![
        entry(&["waiting"]),
        entry(&["junk"]),
        entry(&["gotMessage", "a"]),
        entry(&["gotMessage"]),
        entry(&["typing"]),
    ];
    let whole = Server::parse_events(&batch);
    for cut in 0..=batch.len() {
        let mut joined = Server::parse_events(&batch[..cut]);
        joined.extend(Server::parse_events(&batch[cut..]));
        assert_eq!(joined, whole);
    }
}

#[test]
fn parse_events_reads_a_parsed_body() {
    let body = parse(r#"[["connected"],["commonLikes",["music","films"]],["gotMessage","hello there"],["count",3]]"#)
        .unwrap();
    let entries = match &body {
        Value::List(entries) => entries,
        other => panic!("{other:?}"),
    };
    assert_eq!(
        Server::parse_events(entries),
        vec![
            ChatEvent::Connected,
            ChatEvent::CommonLikes(vec!["music".to_string(), "films".to_string()]),
            ChatEvent::Message("hello there".to_string()),
        ]
    );
}

#[test]
fn clone_of_an_event_equals_it() {
    let events = vec![
        ChatEvent::Message("hi".to_string()),
        ChatEvent::CommonLikes(vec!["a".to_string(), "b".to_string()]),
        ChatEvent::Error("e".to_string()),
        ChatEvent::Connected,
        ChatEvent::StrangerDisconnected,
        ChatEvent::Typing,
        ChatEvent::StoppedTyping,
        ChatEvent::Waiting,
    ];
    for event in &events {
        assert_eq!(&event.clone(), event);
    }
    assert_eq!(clone_events(&events), events);
    assert_eq!(clone_events(&vec![]), vec![]);
}

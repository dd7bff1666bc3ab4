use omegalul::error::OmegalulError;
use omegalul::server::{Chat, ChatEvent, Server};
use omegalul::stream::{get_event_stream, has_disconnect, EventStream, StreamAction, StreamState};

type Outcome = Result<Vec<ChatEvent>, OmegalulError>;

fn chat(initial: Vec<ChatEvent>) -> Chat {
    Chat::new("id42".to_string(), Server::new("front2", vec![]), initial)
}

fn message(text: &str) -> ChatEvent {
    ChatEvent::Message(text.to_string())
}

/// Drains `stream`, answering its polls from `polls` in order. Returns the
/// items and the number of polls that were made.
fn drain(stream: &mut EventStream, polls: Vec<Outcome>) -> (Vec<Outcome>, usize) {
    let mut polls = polls.into_iter();
    let mut items = Vec::new();
    let mut made = 0;
    loop {
        match stream.next_action() {
            StreamAction::Deliver(batch) => items.push(Ok(batch)),
            StreamAction::Poll(request) => {
                assert_eq!(request.url, "https://front2.omegle.com/events");
                assert_eq!(request.form, vec![("id".to_string(), "id42".to_string())]);
                let outcome = match polls.next() {
                    Some(outcome) => outcome,
                    None => panic!("a poll beyond the script"),
                };
                made += 1;
                items.push(stream.on_poll(outcome).expect("the stream asked for this poll"));
            }
            StreamAction::Stop => return (items, made),
        }
    }
}

fn batches(items: Vec<Outcome>) -> Vec<Vec<ChatEvent>> {
    items.into_iter().map(|item| item.expect("a batch")).collect()
}

fn a_failure() -> OmegalulError {
    match omegalul::wire::parse("{") {
        Err(err) => err,
        Ok(value) => panic!("{value:?}"),
    }
}

#[test]
fn stream_ends_with_the_batch_that_holds_the_disconnect() {
    let mut stream = get_event_stream(chat(vec![ChatEvent::Waiting]));
    let polls = vec![
        Ok(vec![ChatEvent::Connected]),
        Ok(vec![message("bye"), ChatEvent::StrangerDisconnected]),
        Ok(vec![message("never seen")]),
    ];
    let (items, made) = drain(&mut stream, polls);
    assert_eq!(made, 2);
    assert_eq!(
        batches(items),
        vec![
            vec![ChatEvent::Waiting],
            vec![ChatEvent::Connected],
            vec![message("bye"), ChatEvent::StrangerDisconnected],
        ]
    );
    assert_eq!(stream.state(), StreamState::Closed);
}

#[test]
fn stream_over_three_polled_batches_stops_after_the_third() {
    let mut stream = get_event_stream(chat(vec![]));
    let polls = vec![
        Ok(vec![ChatEvent::Waiting]),
        Ok(vec![ChatEvent::Connected]),
        Ok(vec![message("hi"), ChatEvent::StrangerDisconnected]),
        Ok(vec![ChatEvent::Typing]),
    ];
    let (items, made) = drain(&mut stream, polls);
    assert_eq!(made, 3);
    let polled = batches(items)[1..].to_vec();
    assert_eq!(polled.len(), 3);
    assert_eq!(polled[0], vec![ChatEvent::Waiting]);
    assert_eq!(polled[1], vec![ChatEvent::Connected]);
    assert!(polled[2].contains(&ChatEvent::StrangerDisconnected));
    assert!(matches!(stream.next_action(), StreamAction::Stop));
}

#[test]
fn stream_delivers_the_opening_batch_first_and_without_a_poll() {
    let mut stream = get_event_stream(chat(vec![ChatEvent::Waiting, ChatEvent::Connected]));
    assert_eq!(stream.state(), StreamState::Fresh);
    match stream.next_action() {
        StreamAction::Deliver(batch) => assert_eq!(batch, vec![ChatEvent::Waiting, ChatEvent::Connected]),
        other => panic!("{other:?}"),
    }
    assert_eq!(stream.state(), StreamState::Polling);
    assert_eq!(stream.chat().initial_events, vec![ChatEvent::Waiting, ChatEvent::Connected]);
}

#[test]
fn stream_asks_for_one_poll_per_item() {
    let mut stream = get_event_stream(chat(vec![]));
    assert!(matches!(stream.next_action(), StreamAction::Deliver(_)));
    for round in 0..5 {
        assert!(matches!(stream.next_action(), StreamAction::Poll(_)));
        assert!(matches!(stream.next_action(), StreamAction::Poll(_)));
        let item = stream.on_poll(Ok(vec![message(&round.to_string())]));
        assert_eq!(item.unwrap().unwrap(), vec![message(&round.to_string())]);
        assert_eq!(stream.state(), StreamState::Polling);
    }
}

#[test]
fn an_empty_polled_batch_is_delivered_and_the_stream_goes_on() {
    let mut stream = get_event_stream(chat(vec![]));
    let (items, made) = drain(&mut stream, vec![Ok(vec![]), Ok(vec![]), Ok(vec![ChatEvent::StrangerDisconnected])]);
    assert_eq!(made, 3);
    assert_eq!(batches(items), vec![vec![], vec![], vec![], vec![ChatEvent::StrangerDisconnected]]);
}

#[test]
fn a_failed_poll_is_the_last_item() {
    let mut stream = get_event_stream(chat(vec![ChatEvent::Waiting]));
    let polls = vec![Ok(vec![ChatEvent::Connected]), Err(a_failure()), Ok(vec![message("never seen")])];
    let (items, made) = drain(&mut stream, polls);
    assert_eq!(made, 2);
    assert_eq!(items.len(), 3);
    assert!(matches!(items[0], Ok(_)));
    assert!(matches!(items[1], Ok(_)));
    assert!(matches!(items[2], Err(OmegalulError::JsonError(_))));
    assert_eq!(stream.state(), StreamState::Closed);
}

#[test]
fn a_failed_poll_keeps_its_cause() {
    let mut stream = get_event_stream(chat(vec![]));
    assert!(matches!(stream.next_action(), StreamAction::Deliver(_)));
    assert!(matches!(stream.next_action(), StreamAction::Poll(_)));
    assert!(matches!(stream.on_poll(Err(OmegalulError::IdError)), Some(Err(OmegalulError::IdError))));
    assert_eq!(stream.state(), StreamState::Closed);
}

#[test]
fn a_closed_stream_stays_closed() {
    let mut stream = get_event_stream(chat(vec![]));
    let (_, made) = drain(&mut stream, vec![Ok(vec![ChatEvent::StrangerDisconnected])]);
    assert_eq!(made, 1);
    for _ in 0..3 {
        assert!(matches!(stream.next_action(), StreamAction::Stop));
        assert!(stream.on_poll(Ok(vec![ChatEvent::Connected])).is_none());
        assert_eq!(stream.state(), StreamState::Closed);
    }
}

#[test]
fn an_opening_batch_with_the_disconnect_closes_the_stream_without_a_poll() {
    let mut stream = get_event_stream(chat(vec![ChatEvent::Connected, ChatEvent::StrangerDisconnected]));
    let (items, made) = drain(&mut stream, vec![Ok(vec![message("never seen")])]);
    assert_eq!(made, 0);
    assert_eq!(batches(items), vec![vec![ChatEvent::Connected, ChatEvent::StrangerDisconnected]]);
    assert_eq!(stream.state(), StreamState::Closed);
}

#[test]
fn a_poll_outcome_that_was_not_asked_for_is_not_delivered() {
    let mut stream = get_event_stream(chat(vec![ChatEvent::Waiting]));
    assert!(stream.on_poll(Ok(vec![ChatEvent::StrangerDisconnected])).is_none());
    assert_eq!(stream.state(), StreamState::Fresh);
    match stream.next_action() {
        StreamAction::Deliver(batch) => assert_eq!(batch, vec![ChatEvent::Waiting]),
        other => panic!("{other:?}"),
    }
}

#[test]
fn has_disconnect_finds_the_event_anywhere() {
    assert!(!has_disconnect(&vec![]));
    assert!(!has_disconnect(&vec![ChatEvent::Connected, message("strangerDisconnected")]));
    assert!(has_disconnect(&vec![ChatEvent::StrangerDisconnected]));
    assert!(has_disconnect(&vec![ChatEvent::Typing, ChatEvent::StrangerDisconnected, ChatEvent::Waiting]));
    assert!(has_disconnect(&vec![ChatEvent::Typing, ChatEvent::Waiting, ChatEvent::StrangerDisconnected]));
}

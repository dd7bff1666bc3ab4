//! The events of a chat and their decoding from the wire.

use vstd::prelude::*;

use crate::text::{clone_texts, same_text};
use crate::wire::{texts, texts_of, Doc, Value};

verus! {

/// One event of a chat.
#[derive(Debug, PartialEq)]
pub enum ChatEvent {
    Message(String),
    CommonLikes(Vec<String>),
    Error(String),
    Connected,
    StrangerDisconnected,
    Typing,
    StoppedTyping,
    Waiting,
}

/// The mathematical model of a [`ChatEvent`].
pub enum Event {
    Message(Seq<char>),
    CommonLikes(Seq<Seq<char>>),
    Error(Seq<char>),
    Connected,
    StrangerDisconnected,
    Typing,
    StoppedTyping,
    Waiting,
}

impl View for ChatEvent {
    type V = Event;

    open spec fn view(&self) -> Event {
        match self {
            ChatEvent::Message(text) => Event::Message(text@),
            ChatEvent::CommonLikes(topics) => Event::CommonLikes(topics.deep_view()),
            ChatEvent::Error(text) => Event::Error(text@),
            ChatEvent::Connected => Event::Connected,
            ChatEvent::StrangerDisconnected => Event::StrangerDisconnected,
            ChatEvent::Typing => Event::Typing,
            ChatEvent::StoppedTyping => Event::StoppedTyping,
            ChatEvent::Waiting => Event::Waiting,
        }
    }
}

impl DeepView for ChatEvent {
    type V = Event;

    open spec fn deep_view(&self) -> Event {
        self.view()
    }
}

impl Clone for ChatEvent {
    fn clone(&self) -> (copy: Self)
        ensures
            copy@ == self@,
    {
        match self {
            ChatEvent::Message(text) => ChatEvent::Message(text.clone()),
            ChatEvent::CommonLikes(topics) => ChatEvent::CommonLikes(clone_texts(topics)),
            ChatEvent::Error(text) => ChatEvent::Error(text.clone()),
            ChatEvent::Connected => ChatEvent::Connected,
            ChatEvent::StrangerDisconnected => ChatEvent::StrangerDisconnected,
            ChatEvent::Typing => ChatEvent::Typing,
            ChatEvent::StoppedTyping => ChatEvent::StoppedTyping,
            ChatEvent::Waiting => ChatEvent::Waiting,
        }
    }
}

/// The event that one wire entry stands for, by its tag: `None` for an entry
/// that is no list, that starts with no text, whose tag is unknown, or whose
/// payload is missing or of the wrong shape. What follows the payload is not
/// read.
pub open spec fn decode_entry(raw: Doc) -> Option<Event> {
    let parts = raw.items();
    if parts.len() == 0 || !(parts[0] is Text) {
        None
    } else {
        let tag = parts[0]->Text_0;
        if tag == "gotMessage"@ {
            if parts.len() > 1 && parts[1] is Text {
                Some(Event::Message(parts[1]->Text_0))
            } else {
                None
            }
        } else if tag == "connected"@ {
            Some(Event::Connected)
        } else if tag == "commonLikes"@ {
            if parts.len() > 1 && parts[1] is List && texts_of(parts[1]->List_0) is Some {
                Some(Event::CommonLikes(texts_of(parts[1]->List_0)->Some_0))
            } else {
                None
            }
        } else if tag == "waiting"@ {
            Some(Event::Waiting)
        } else if tag == "typing"@ {
            Some(Event::Typing)
        } else if tag == "stoppedTyping"@ {
            Some(Event::StoppedTyping)
        } else if tag == "strangerDisconnected"@ {
            Some(Event::StrangerDisconnected)
        } else if tag == "error"@ {
            if parts.len() > 1 && parts[1] is Text {
                Some(Event::Error(parts[1]->Text_0))
            } else {
                None
            }
        } else {
            None
        }
    }
}

/// The events that a batch of wire entries stands for: those of the entries
/// that decode, in the order of the entries.
pub open spec fn decode(raws: Seq<Doc>) -> Seq<Event>
    decreases raws.len(),
{
    if raws.len() == 0 {
        Seq::empty()
    } else {
        match decode_entry(raws.last()) {
            Some(event) => decode(raws.drop_last()).push(event),
            None => decode(raws.drop_last()),
        }
    }
}

/// Decodes one wire entry.
pub fn decode_event(raw: &Value) -> (event: Option<ChatEvent>)
    ensures
        match event {
            Some(event) => decode_entry(raw@) == Some(event@),
            None => decode_entry(raw@) is None,
        },
{
    let parts = match raw {
        Value::List(parts) => parts,
        _ => {
            return None;
        },
    };
    assert(parts.deep_view() =~= raw@.items());
    if parts.len() == 0 {
        return None;
    }
    let tag = match &parts[0] {
        Value::Text(tag) => tag,
        _ => {
            return None;
        },
    };
    if same_text(tag, "gotMessage") {
        if parts.len() > 1 {
            match &parts[1] {
                Value::Text(text) => Some(ChatEvent::Message(text.clone())),
                _ => None,
            }
        } else {
            None
        }
    } else if same_text(tag, "connected") {
        Some(ChatEvent::Connected)
    } else if same_text(tag, "commonLikes") {
        if parts.len() > 1 {
            match &parts[1] {
                Value::List(topics) => {
                    assert(topics.deep_view() =~= parts[1]@->List_0);
                    match texts(topics) {
                        Some(topics) => Some(ChatEvent::CommonLikes(topics)),
                        None => None,
                    }
                },
                _ => None,
            }
        } else {
            None
        }
    } else if same_text(tag, "waiting") {
        Some(ChatEvent::Waiting)
    } else if same_text(tag, "typing") {
        Some(ChatEvent::Typing)
    } else if same_text(tag, "stoppedTyping") {
        Some(ChatEvent::StoppedTyping)
    } else if same_text(tag, "strangerDisconnected") {
        Some(ChatEvent::StrangerDisconnected)
    } else if same_text(tag, "error") {
        if parts.len() > 1 {
            match &parts[1] {
                Value::Text(text) => Some(ChatEvent::Error(text.clone())),
                _ => None,
            }
        } else {
            None
        }
    } else {
        None
    }
}

/// The positions of the entries of `raws` that decode, in ascending order.
pub open spec fn decoded_positions(raws: Seq<Doc>) -> Seq<int>
    decreases raws.len(),
{
    if raws.len() == 0 {
        Seq::empty()
    } else if decode_entry(raws.last()) is Some {
        decoded_positions(raws.drop_last()).push(raws.len() - 1)
    } else {
        decoded_positions(raws.drop_last())
    }
}

/// A batch decodes to no more events than it has entries.
pub proof fn lemma_decode_len(raws: Seq<Doc>)
    ensures
        decode(raws).len() <= raws.len(),
    decreases raws.len(),
{
    if raws.len() > 0 {
        lemma_decode_len(raws.drop_last());
    }
}

/// A batch of one entry decodes to the event of that entry, or to nothing.
pub proof fn lemma_decode_one(raw: Doc)
    ensures
        decode(seq![raw]) == match decode_entry(raw) {
            Some(event) => seq![event],
            None => Seq::empty(),
        },
{
    let one = seq![raw];
    assert(one.drop_last() =~= Seq::<Doc>::empty());
    assert(decode(one.drop_last()) =~= Seq::<Event>::empty());
    assert(one.last() == raw);
    match decode_entry(raw) {
        Some(event) => {
            assert(decode(one) =~= seq![event]);
        },
        None => {},
    }
}

/// Decoding goes entry by entry: a batch cut in two at any place decodes
/// to the events of the first part followed by those of the second.
pub proof fn lemma_decode_concat(first: Seq<Doc>, second: Seq<Doc>)
    ensures
        decode(first + second) == decode(first) + decode(second),
    decreases second.len(),
{
    let whole = first + second;
    if second.len() == 0 {
        assert(whole =~= first);
        assert(decode(first) + decode(second) =~= decode(first));
    } else {
        assert(whole.drop_last() =~= first + second.drop_last());
        assert(whole.last() == second.last());
        lemma_decode_concat(first, second.drop_last());
        match decode_entry(second.last()) {
            Some(event) => {
                assert(decode(whole) =~= decode(first) + decode(second));
            },
            None => {},
        }
    }
}

/// Decoding keeps the order of the entries: the events of a batch are
/// those of its entries that decode, one event for each, and an event
/// stands before another exactly when its entry does.
pub proof fn lemma_decode_keeps_order(raws: Seq<Doc>)
    ensures
        decode(raws).len() == decoded_positions(raws).len(),
        forall|k: int|
            0 <= k < decoded_positions(raws).len() ==> {
                let at = #[trigger] decoded_positions(raws)[k];
                0 <= at < raws.len() && decode_entry(raws[at]) == Some(decode(raws)[k])
            },
        forall|j: int, k: int|
            0 <= j < k < decoded_positions(raws).len() ==> decoded_positions(raws)[j]
                < decoded_positions(raws)[k],
        forall|i: int|
            0 <= i < raws.len() && decode_entry(#[trigger] raws[i]) is Some
                ==> decoded_positions(raws).contains(i),
    decreases raws.len(),
{
    if raws.len() > 0 {
        let init = raws.drop_last();
        lemma_decode_keeps_order(init);
        let kept = decoded_positions(raws);
        let before = decoded_positions(init);
        assert forall|i: int|
            0 <= i < raws.len() && decode_entry(#[trigger] raws[i]) is Some implies kept.contains(
            i,
        ) by {
            if i < init.len() {
                assert(init[i] == raws[i]);
                let k = choose|k: int| 0 <= k < before.len() && before[k] == i;
                assert(kept[k] == i);
            } else {
                assert(kept[kept.len() - 1] == i);
            }
        }
        assert forall|k: int| 0 <= k < kept.len() implies {
            let at = #[trigger] kept[k];
            0 <= at < raws.len() && decode_entry(raws[at]) == Some(decode(raws)[k])
        } by {
            if k < before.len() {
                assert(kept[k] == before[k]);
                assert(init[before[k]] == raws[before[k]]);
            }
        }
        assert forall|j: int, k: int| 0 <= j < k < kept.len() implies kept[j] < kept[k] by {
            assert(kept[j] == before[j]);
            if k < before.len() {
                assert(kept[k] == before[k]);
            }
        }
    }
}

/// Entries that do not decode leave no trace: a batch in which the entry at
/// `position` alone decodes yields exactly the event of that entry,
/// wherever the entry stands.
pub proof fn lemma_decode_single(raws: Seq<Doc>, position: int, event: Event)
    requires
        0 <= position < raws.len(),
        decode_entry(raws[position]) == Some(event),
        forall|i: int| 0 <= i < raws.len() && i != position ==> decode_entry(raws[i]) is None,
    ensures
        decode(raws) == seq![event],
{
    let before = raws.take(position);
    let after = raws.skip(position + 1);
    lemma_decode_nothing(before);
    lemma_decode_nothing(after);
    lemma_decode_one(raws[position]);
    assert(raws =~= before + seq![raws[position]] + after);
    lemma_decode_concat(before, seq![raws[position]]);
    lemma_decode_concat(before + seq![raws[position]], after);
    assert(decode(raws) =~= seq![event]);
}

/// A batch in which no entry decodes yields no event.
pub proof fn lemma_decode_nothing(raws: Seq<Doc>)
    requires
        forall|i: int| 0 <= i < raws.len() ==> decode_entry(raws[i]) is None,
    ensures
        decode(raws) == Seq::<Event>::empty(),
    decreases raws.len(),
{
    if raws.len() > 0 {
        lemma_decode_nothing(raws.drop_last());
    }
}

/// A copy of `events`, event by event.
pub fn clone_events(events: &Vec<ChatEvent>) -> (copy: Vec<ChatEvent>)
    ensures
        copy.deep_view() == events.deep_view(),
{
    let mut copy: Vec<ChatEvent> = Vec::new();
    let mut at: usize = 0;
    while at < events.len()
        invariant
            at <= events.len(),
            copy.len() == at,
            forall|i: int| 0 <= i < at ==> copy[i]@ == events[i]@,
        decreases events.len() - at,
    {
        copy.push(events[at].clone());
        at = at + 1;
    }
    assert(copy.deep_view() =~= events.deep_view());
    copy
}

} // verus!

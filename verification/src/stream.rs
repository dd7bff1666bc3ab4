//! The sequence of event batches of one session, as a machine that the
//! caller drives: it says what to do next, and the caller tells it how each
//! poll ended.

use vstd::prelude::*;

use crate::error::OmegalulError;
use crate::event::{clone_events, ChatEvent, Event};
use crate::server::{id_form, post_to, Chat, ChatView, PostRequest, PostView};

verus! {

/// Where a stream stands.
#[derive(Debug, Clone, Copy, PartialEq, Eq, Structural)]
pub enum StreamState {
    /// The batch that came with the opening of the session is still to be
    /// delivered.
    Fresh,
    /// The next batch is to be fetched with a poll.
    Polling,
    /// Nothing more is delivered and no poll is made.
    Closed,
}

/// What the caller is to do for the next item of a stream.
#[derive(Debug)]
pub enum StreamAction {
    /// Deliver this batch; no request is needed for it.
    Deliver(Vec<ChatEvent>),
    /// Send this request and report how it ended with
    /// [`EventStream::on_poll`].
    Poll(PostRequest),
    /// The stream has ended.
    Stop,
}

/// The model of a [`StreamAction`].
pub enum Action {
    Deliver(Seq<Event>),
    Poll(PostView),
    Stop,
}

impl View for StreamAction {
    type V = Action;

    open spec fn view(&self) -> Action {
        match self {
            StreamAction::Deliver(batch) => Action::Deliver(batch.deep_view()),
            StreamAction::Poll(request) => Action::Poll(request@),
            StreamAction::Stop => Action::Stop,
        }
    }
}

/// Whether `batch` tells that the stranger has left.
pub open spec fn ends_chat(batch: Seq<Event>) -> bool {
    exists|i: int| 0 <= i < batch.len() && batch[i] is StrangerDisconnected
}

/// Where a stream stands once it has delivered `batch`.
pub open spec fn after_batch(batch: Seq<Event>) -> StreamState {
    if ends_chat(batch) {
        StreamState::Closed
    } else {
        StreamState::Polling
    }
}

/// The request that polls for the events of `chat`.
pub open spec fn poll_request(chat: ChatView) -> PostView {
    post_to(chat, "events"@, id_form(chat.client_id))
}

/// What a stream over `chat` does next in `state`, and where it stands
/// afterwards.
pub open spec fn next_of(chat: ChatView, state: StreamState) -> (Action, StreamState) {
    match state {
        StreamState::Fresh => (
            Action::Deliver(chat.initial_events),
            after_batch(chat.initial_events),
        ),
        StreamState::Polling => (Action::Poll(poll_request(chat)), StreamState::Polling),
        StreamState::Closed => (Action::Stop, StreamState::Closed),
    }
}

/// Where a polling stream stands once a poll has ended with `outcome`.
pub open spec fn after_poll(outcome: Result<Vec<ChatEvent>, OmegalulError>) -> StreamState {
    match outcome {
        Ok(batch) => after_batch(batch.deep_view()),
        Err(_) => StreamState::Closed,
    }
}

/// Whether `events` tells that the stranger has left.
pub fn has_disconnect(events: &Vec<ChatEvent>) -> (found: bool)
    ensures
        found == ends_chat(events.deep_view()),
{
    let mut at: usize = 0;
    while at < events.len()
        invariant
            at <= events.len(),
            forall|i: int| 0 <= i < at ==> !(events[i]@ is StrangerDisconnected),
        decreases events.len() - at,
    {
        match &events[at] {
            ChatEvent::StrangerDisconnected => {
                assert(events.deep_view()[at as int] is StrangerDisconnected);
                return true;
            },
            _ => {},
        }
        at = at + 1;
    }
    assert forall|i: int| 0 <= i < events.deep_view().len() implies !(events.deep_view()[i]
        is StrangerDisconnected) by {
        assert(!(events[i]@ is StrangerDisconnected));
    }
    false
}

/// The batches of one session, one at a time.
#[derive(Debug)]
pub struct EventStream {
    chat: Chat,
    state: StreamState,
}

impl EventStream {
    /// The session that the stream reads.
    pub closed spec fn session(&self) -> ChatView {
        self.chat@
    }

    /// Where the stream stands.
    pub closed spec fn phase(&self) -> StreamState {
        self.state
    }

    /// The session that the stream reads.
    pub fn chat(&self) -> (chat: &Chat)
        ensures
            chat@ == self.session(),
    {
        &self.chat
    }

    /// Where the stream stands.
    pub fn state(&self) -> (state: StreamState)
        ensures
            state == self.phase(),
    {
        self.state
    }

    /// What is to be done for the next item. A fresh stream delivers the
    /// batch that came with the opening; after that every item costs one
    /// poll; a closed stream stops, and stays closed.
    pub fn next_action(&mut self) -> (action: StreamAction)
        ensures
            final(self).session() == old(self).session(),
            (action@, final(self).phase()) == next_of(old(self).session(), old(self).phase()),
    {
        match self.state {
            StreamState::Fresh => {
                let batch = clone_events(self.chat.initial());
                self.state = if has_disconnect(&batch) {
                    StreamState::Closed
                } else {
                    StreamState::Polling
                };
                StreamAction::Deliver(batch)
            },
            StreamState::Polling => StreamAction::Poll(self.chat.fetch_request()),
            StreamState::Closed => StreamAction::Stop,
        }
    }

    /// Takes the outcome of the poll that the stream asked for and hands
    /// back the item to deliver: the outcome itself. A batch that tells that
    /// the stranger has left closes the stream, and so does a failure. A
    /// stream that is not polling has asked for nothing: it keeps its state
    /// and delivers nothing.
    pub fn on_poll(&mut self, outcome: Result<Vec<ChatEvent>, OmegalulError>) -> (item: Option<
        Result<Vec<ChatEvent>, OmegalulError>,
    >)
        ensures
            final(self).session() == old(self).session(),
            old(self).phase() is Polling ==> item == Some(outcome) && final(self).phase()
                == after_poll(outcome),
            !(old(self).phase() is Polling) ==> item is None && final(self).phase() == old(
                self,
            ).phase(),
    {
        match self.state {
            StreamState::Polling => {
                self.state = match &outcome {
                    Ok(batch) => if has_disconnect(batch) {
                        StreamState::Closed
                    } else {
                        StreamState::Polling
                    },
                    Err(_) => StreamState::Closed,
                };
                Some(outcome)
            },
            _ => None,
        }
    }
}

/// The stream of the batches of `chat`, before anything was delivered.
pub fn get_event_stream(chat: Chat) -> (stream: EventStream)
    ensures
        stream.session() == chat@,
        stream.phase() is Fresh,
{
    EventStream { chat, state: StreamState::Fresh }
}

/// One item of a stream: a batch of events, or the failure of a poll.
pub enum Item {
    Batch(Seq<Event>),
    Failure(OmegalulError),
}

impl Item {
    /// Whether the stream closes with this item: a batch that tells that
    /// the stranger has left, or a failure.
    pub open spec fn is_last(self) -> bool {
        match self {
            Item::Batch(batch) => ends_chat(batch),
            Item::Failure(_) => true,
        }
    }
}

/// The item that a polling stream delivers for a poll that ended with
/// `outcome`.
pub open spec fn item_of(outcome: Result<Vec<ChatEvent>, OmegalulError>) -> Item {
    match outcome {
        Ok(batch) => Item::Batch(batch.deep_view()),
        Err(err) => Item::Failure(err),
    }
}

/// The polls that a stream makes, out of the `polls` that could be made,
/// when it starts in `state` and is drained: it polls until an item closes
/// it.
pub open spec fn polls_made(state: StreamState, polls: Seq<Result<Vec<ChatEvent>, OmegalulError>>)
    -> nat
    decreases polls.len(),
{
    if state is Closed || polls.len() == 0 {
        0
    } else {
        1 + polls_made(after_poll(polls[0]), polls.drop_first())
    }
}

/// The items that a stream over `chat` delivers when it starts in `state`
/// and is drained, with its polls ending as `polls` say, in this order: it
/// follows [`next_of`] and [`after_poll`] until it stops or no poll is left.
pub open spec fn delivered(
    chat: ChatView,
    state: StreamState,
    polls: Seq<Result<Vec<ChatEvent>, OmegalulError>>,
) -> Seq<Item>
    decreases polls.len(), (if state is Fresh { 1nat } else { 0nat }),
{
    match state {
        StreamState::Fresh => seq![Item::Batch(chat.initial_events)] + delivered(
            chat,
            next_of(chat, state).1,
            polls,
        ),
        StreamState::Polling => if polls.len() == 0 {
            Seq::empty()
        } else {
            seq![item_of(polls[0])] + delivered(chat, after_poll(polls[0]), polls.drop_first())
        },
        StreamState::Closed => Seq::empty(),
    }
}

/// A closed stream stays closed: it delivers nothing and polls no more,
/// whatever polls could still be made.
pub proof fn lemma_closed_is_final(chat: ChatView, polls: Seq<Result<Vec<ChatEvent>, OmegalulError>>)
    ensures
        next_of(chat, StreamState::Closed) == (Action::Stop, StreamState::Closed),
        delivered(chat, StreamState::Closed, polls) == Seq::<Item>::empty(),
        polls_made(StreamState::Closed, polls) == 0,
{
}

/// A stream that has yet to deliver the opening batch delivers it first and
/// without a poll; every later item is the outcome of one poll, in the order
/// of the polls.
pub proof fn lemma_one_poll_per_item(
    chat: ChatView,
    polls: Seq<Result<Vec<ChatEvent>, OmegalulError>>,
)
    ensures
        ({
            let items = delivered(chat, StreamState::Fresh, polls);
            let made = polls_made(after_batch(chat.initial_events), polls);
            &&& items.len() == made + 1
            &&& made <= polls.len()
            &&& items[0] == Item::Batch(chat.initial_events)
            &&& forall|k: int| 0 <= k < made ==> items[k + 1] == item_of(#[trigger] polls[k])
        }),
{
    let state = after_batch(chat.initial_events);
    lemma_polling_items(chat, state, polls);
    let rest = delivered(chat, state, polls);
    let items = delivered(chat, StreamState::Fresh, polls);
    assert(items =~= seq![Item::Batch(chat.initial_events)] + rest);
    assert forall|k: int| 0 <= k < polls_made(state, polls) implies items[k + 1] == item_of(
        #[trigger] polls[k],
    ) by {
        assert(items[k + 1] == rest[k]);
    }
}

/// Past the opening batch, a drained stream delivers one item for each poll
/// it makes: the outcome of that poll.
pub proof fn lemma_polling_items(
    chat: ChatView,
    state: StreamState,
    polls: Seq<Result<Vec<ChatEvent>, OmegalulError>>,
)
    requires
        !(state is Fresh),
    ensures
        delivered(chat, state, polls).len() == polls_made(state, polls),
        polls_made(state, polls) <= polls.len(),
        forall|k: int|
            0 <= k < polls_made(state, polls) ==> delivered(chat, state, polls)[k] == item_of(
                #[trigger] polls[k],
            ),
    decreases polls.len(),
{
    if state is Polling && polls.len() > 0 {
        let next = after_poll(polls[0]);
        let rest = polls.drop_first();
        lemma_polling_items(chat, next, rest);
        let items = delivered(chat, state, polls);
        assert forall|k: int| 0 <= k < polls_made(state, polls) implies items[k] == item_of(
            #[trigger] polls[k],
        ) by {
            if k > 0 {
                assert(items[k] == delivered(chat, next, rest)[k - 1]);
                assert(rest[k - 1] == polls[k]);
            }
        }
    }
}

/// Nothing follows the end: in what a drained stream delivers, only the
/// last item can be a batch that tells that the stranger has left, or a
/// failure.
pub proof fn lemma_nothing_follows_the_end(
    chat: ChatView,
    state: StreamState,
    polls: Seq<Result<Vec<ChatEvent>, OmegalulError>>,
)
    ensures
        forall|k: int|
            0 <= k < delivered(chat, state, polls).len() - 1 ==> !(#[trigger] delivered(
                chat,
                state,
                polls,
            )[k]).is_last(),
    decreases polls.len(), (if state is Fresh { 1nat } else { 0nat }),
{
    let items = delivered(chat, state, polls);
    match state {
        StreamState::Fresh => {
            let next = after_batch(chat.initial_events);
            lemma_nothing_follows_the_end(chat, next, polls);
            let rest = delivered(chat, next, polls);
            assert forall|k: int| 0 <= k < items.len() - 1 implies !(#[trigger] items[k]).is_last() by {
                if k > 0 {
                    assert(items[k] == rest[k - 1]);
                }
            }
        },
        StreamState::Polling => {
            if polls.len() > 0 {
                let next = after_poll(polls[0]);
                let rest = delivered(chat, next, polls.drop_first());
                lemma_nothing_follows_the_end(chat, next, polls.drop_first());
                assert forall|k: int| 0 <= k < items.len() - 1 implies !(#[trigger] items[k]).is_last() by {
                    if k > 0 {
                        assert(items[k] == rest[k - 1]);
                    }
                }
            }
        },
        StreamState::Closed => {},
    }
}

/// A drained stream stops at the first poll whose outcome closes it: where
/// the opening batch does not tell that the stranger has left and the poll
/// at `position` is the first to end with a failure or with a batch that
/// does, the stream makes exactly the polls up to and including that one.
pub proof fn lemma_stops_at_first_end(
    chat: ChatView,
    polls: Seq<Result<Vec<ChatEvent>, OmegalulError>>,
    position: int,
)
    requires
        0 <= position < polls.len(),
        !ends_chat(chat.initial_events),
        item_of(polls[position]).is_last(),
        forall|k: int| 0 <= k < position ==> !item_of(#[trigger] polls[k]).is_last(),
    ensures
        polls_made(after_batch(chat.initial_events), polls) == position + 1,
        delivered(chat, StreamState::Fresh, polls).len() == position + 2,
        delivered(chat, StreamState::Fresh, polls).last() == item_of(polls[position]),
{
    lemma_polls_until_end(polls, position);
    lemma_one_poll_per_item(chat, polls);
}

/// A polling stream makes exactly the polls up to and including the first
/// one whose outcome closes it.
pub proof fn lemma_polls_until_end(
    polls: Seq<Result<Vec<ChatEvent>, OmegalulError>>,
    position: int,
)
    requires
        0 <= position < polls.len(),
        item_of(polls[position]).is_last(),
        forall|k: int| 0 <= k < position ==> !item_of(#[trigger] polls[k]).is_last(),
    ensures
        polls_made(StreamState::Polling, polls) == position + 1,
    decreases position,
{
    let rest = polls.drop_first();
    if position == 0 {
        assert(after_poll(polls[0]) is Closed);
        assert(polls_made(StreamState::Closed, rest) == 0);
    } else {
        assert(!item_of(polls[0]).is_last());
        assert(after_poll(polls[0]) is Polling);
        assert(rest[position - 1] == polls[position]);
        assert forall|k: int| 0 <= k < position - 1 implies !item_of(#[trigger] rest[k]).is_last() by {
            assert(rest[k] == polls[k + 1]);
        }
        lemma_polls_until_end(rest, position - 1);
    }
}

} // verus!

//! Endpoints, sessions and the events that a session receives.

use rand::seq::SliceRandom;
use vstd::prelude::*;
use vstd::string::*;

use crate::error::OmegalulError;
use crate::event::{clone_events, decode, decode_event, lemma_decode_len, Event};
use crate::id::{generate_random_id, is_valid_id};
use crate::text::clone_texts;
use crate::wire::{as_array, has_long_fraction, parse, parsed_document, texts, texts_of, Doc, Value};

pub use crate::event::ChatEvent;
pub use crate::stream::get_event_stream;

verus! {

/// The host name of the endpoint `name`.
pub open spec fn host(name: Seq<char>) -> Seq<char> {
    name + ".omegle.com"@
}

/// The address of the resource `path` on the endpoint `name`.
pub open spec fn endpoint_url(name: Seq<char>, path: Seq<char>) -> Seq<char> {
    "https://"@ + host(name) + "/"@ + path
}

/// `topic` between double quotes.
pub open spec fn quoted(topic: Seq<char>) -> Seq<char> {
    "\""@ + topic + "\""@
}

/// The quoted topics, separated by commas.
pub open spec fn comma_joined(topics: Seq<Seq<char>>) -> Seq<char>
    decreases topics.len(),
{
    if topics.len() == 0 {
        Seq::empty()
    } else if topics.len() == 1 {
        quoted(topics[0])
    } else {
        comma_joined(topics.drop_last()) + ","@ + quoted(topics.last())
    }
}

/// The interests as they are sent: quoted, joined by commas, in square
/// brackets.
pub open spec fn serialized_interests(topics: Seq<Seq<char>>) -> Seq<char> {
    "["@ + comma_joined(topics) + "]"@
}

/// The query that starts a session with the nonce `random_id`.
pub open spec fn start_query(random_id: Seq<char>, topics: Seq<Seq<char>>) -> Seq<char> {
    "start?caps=recaptcha2,t&firstevents=1&spid=&randid="@ + random_id + "&lang=en&topics="@
        + serialized_interests(topics)
}

/// Serialising goes topic by topic: two lists of topics, one after the
/// other, give what each of them gives, in the same order and with one comma
/// between the two. So every topic is kept, repeated ones too, and a comma
/// stands between neighbours only.
pub proof fn lemma_comma_joined_concat(first: Seq<Seq<char>>, second: Seq<Seq<char>>)
    requires
        first.len() > 0,
        second.len() > 0,
    ensures
        comma_joined(first + second) == comma_joined(first) + ","@ + comma_joined(second),
    decreases second.len(),
{
    let whole = first + second;
    assert(whole.last() == second.last());
    if second.len() == 1 {
        assert(whole.drop_last() =~= first);
    } else {
        assert(whole.drop_last() =~= first + second.drop_last());
        lemma_comma_joined_concat(first, second.drop_last());
        assert(comma_joined(whole) =~= comma_joined(first) + ","@ + comma_joined(second));
    }
}

/// The number of characters of all `topics` together.
pub open spec fn total_len(topics: Seq<Seq<char>>) -> nat
    decreases topics.len(),
{
    if topics.len() == 0 {
        0
    } else {
        total_len(topics.drop_last()) + topics.last().len()
    }
}

/// The serialised interests begin and end with a bracket and hold, besides
/// the characters of the topics, two quotes for each topic and one comma
/// for each topic but the first: no comma for fewer than two topics, and
/// none at the end.
pub proof fn lemma_serialized_interests_shape(topics: Seq<Seq<char>>)
    ensures
        serialized_interests(topics).len() == 2 + total_len(topics) + 2 * topics.len() + (if topics.len()
            == 0 {
            0
        } else {
            topics.len() - 1
        }),
        serialized_interests(topics).first() == '[',
        serialized_interests(topics).last() == ']',
        topics.len() > 0 ==> serialized_interests(topics)[serialized_interests(topics).len() - 2]
            == '"',
{
    reveal_strlit("[");
    reveal_strlit("]");
    reveal_strlit("\"");
    lemma_comma_joined_len(topics);
}

/// The quoted and joined topics hold the characters of the topics, two
/// quotes for each, and one comma for each but the first; where there is a
/// topic, they end with a quote.
pub proof fn lemma_comma_joined_len(topics: Seq<Seq<char>>)
    ensures
        comma_joined(topics).len() == total_len(topics) + 2 * topics.len() + (if topics.len() == 0 {
            0
        } else {
            topics.len() - 1
        }),
        topics.len() > 0 ==> comma_joined(topics).last() == '"',
    decreases topics.len(),
{
    reveal_strlit(",");
    reveal_strlit("\"");
    if topics.len() == 1 {
        assert(topics.drop_last().len() == 0);
        assert(total_len(topics.drop_last()) == 0);
    } else if topics.len() > 1 {
        lemma_comma_joined_len(topics.drop_last());
    }
}

/// Serializes the interests of a session.
pub fn serialize_interests(interests: &Vec<String>) -> (text: String)
    ensures
        text@ == serialized_interests(interests.deep_view()),
{
    let ghost topics = interests.deep_view();
    let mut text = String::from_str("[");
    let mut at: usize = 0;
    while at < interests.len()
        invariant
            at <= interests.len(),
            topics == interests.deep_view(),
            text@ == "["@ + comma_joined(topics.take(at as int)),
        decreases interests.len() - at,
    {
        if at > 0 {
            text.append(",");
        }
        text.append("\"");
        text.append(interests[at].as_str());
        text.append("\"");
        proof {
            let upto = topics.take(at as int + 1);
            assert(upto.drop_last() =~= topics.take(at as int));
            assert(upto.last() == interests[at as int]@);
            assert(text@ =~= "["@ + comma_joined(upto));
        }
        at = at + 1;
    }
    assert(topics.take(at as int) =~= topics);
    text.append("]");
    text
}

/// The model of a [`Server`].
pub struct ServerView {
    pub name: Seq<char>,
    pub interests: Seq<Seq<char>>,
}

/// An endpoint of the service together with the interests to announce.
#[derive(Debug)]
pub struct Server {
    name: String,
    interests: Vec<String>,
}

impl View for Server {
    type V = ServerView;

    closed spec fn view(&self) -> ServerView {
        ServerView { name: self.name@, interests: self.interests.deep_view() }
    }
}

impl Clone for Server {
    fn clone(&self) -> (copy: Self)
        ensures
            copy@ == self@,
    {
        Server { name: self.name.clone(), interests: clone_texts(&self.interests) }
    }
}

/// The model of a [`Chat`].
pub struct ChatView {
    pub client_id: Seq<char>,
    pub server: ServerView,
    pub initial_events: Seq<Event>,
}

/// An open session: the identity that the service assigned, the endpoint,
/// and the events that came with the opening.
#[derive(Debug)]
pub struct Chat {
    pub client_id: String,
    pub server: Server,
    pub initial_events: Vec<ChatEvent>,
}

impl View for Chat {
    type V = ChatView;

    open spec fn view(&self) -> ChatView {
        ChatView {
            client_id: self.client_id@,
            server: self.server@,
            initial_events: self.initial_events.deep_view(),
        }
    }
}

/// The entries under `events` of a response; none where it has no such list.
pub open spec fn events_field(response: Doc) -> Seq<Doc> {
    match response.field("events"@) {
        Some(events) => events.items(),
        None => Seq::empty(),
    }
}

/// The session that the response to a session start opens on `server`:
/// `None` where the response carries no text under `clientID`.
pub open spec fn opened(server: ServerView, response: Doc) -> Option<ChatView> {
    match response.field("clientID"@) {
        Some(Doc::Text(client_id)) => Some(
            ChatView { client_id, server, initial_events: decode(events_field(response)) },
        ),
        _ => None,
    }
}

impl Server {
    /// An endpoint by its name, with the interests to announce.
    pub fn new(name: &str, interests: Vec<String>) -> (server: Self)
        ensures
            server@ == (ServerView { name: name@, interests: interests.deep_view() }),
    {
        Server { name: String::from_str(name), interests }
    }

    /// Replaces the interests; the endpoint stays.
    pub fn set_interests(&mut self, interests: Vec<String>)
        ensures
            final(self)@ == (ServerView { name: old(self)@.name, interests: interests.deep_view() }),
    {
        self.interests = interests;
    }

    /// The endpoint's name.
    pub fn name(&self) -> (name: &str)
        ensures
            name@ == self@.name,
    {
        self.name.as_str()
    }

    /// The interests to announce.
    pub fn interests(&self) -> (interests: &Vec<String>)
        ensures
            interests.deep_view() == self@.interests,
    {
        &self.interests
    }

    /// Decodes a batch of wire entries. An entry that does not decode is
    /// left out; the others keep their order.
    pub fn parse_events(entries: &[Value]) -> (events: Vec<ChatEvent>)
        ensures
            events.deep_view() == decode(entries.deep_view()),
            events.len() <= entries.len(),
    {
        let ghost raws = entries.deep_view();
        let mut events: Vec<ChatEvent> = Vec::new();
        let mut at: usize = 0;
        while at < entries.len()
            invariant
                at <= entries.len(),
                raws == entries.deep_view(),
                events.deep_view() == decode(raws.take(at as int)),
            decreases entries.len() - at,
        {
            let ghost before = events.deep_view();
            let decoded = decode_event(&entries[at]);
            proof {
                let upto = raws.take(at as int + 1);
                assert(upto.drop_last() =~= raws.take(at as int));
                assert(upto.last() == entries[at as int]@);
            }
            match decoded {
                Some(event) => {
                    events.push(event);
                    assert(events.deep_view() =~= before.push(event@));
                },
                None => {},
            }
            at = at + 1;
        }
        proof {
            assert(raws.take(at as int) =~= raws);
            lemma_decode_len(raws);
        }
        events
    }

    /// The address to which the request that starts a session goes, with
    /// `random_id` as its nonce.
    pub fn start_url(&self, random_id: &str) -> (url: String)
        ensures
            url@ == endpoint_url(self@.name, start_query(random_id@, self@.interests)),
    {
        let topics = serialize_interests(&self.interests);
        let mut url = String::from_str("https://");
        url.append(self.name.as_str());
        url.append(".omegle.com");
        url.append("/");
        url.append("start?caps=recaptcha2,t&firstevents=1&spid=&randid=");
        url.append(random_id);
        url.append("&lang=en&topics=");
        url.append(topics.as_str());
        assert(url@ =~= endpoint_url(self@.name, start_query(random_id@, self@.interests)));
        url
    }

    /// The address to which the request that starts a session goes, with a
    /// fresh nonce.
    pub fn start_request(&self) -> (url: String)
        ensures
            exists|random_id: Seq<char>|
                is_valid_id(random_id) && url@ == endpoint_url(
                    self@.name,
                    #[trigger] start_query(random_id, self@.interests),
                ),
    {
        let random_id = generate_random_id();
        self.start_url(random_id.as_str())
    }

    /// Opens the session that a parsed response to the session start
    /// describes.
    pub fn open_chat(&self, response: &Value) -> (chat: Result<Chat, OmegalulError>)
        ensures
            match opened(self@, response@) {
                Some(view) => chat matches Ok(chat) && chat@ == view,
                None => chat matches Err(OmegalulError::IdError),
            },
    {
        let events = match response.field("events") {
            Some(events) => Server::parse_events(as_array(events)),
            None => Vec::new(),
        };
        assert(events.deep_view() =~= decode(events_field(response@)));
        match response.field("clientID") {
            Some(Value::Text(client_id)) => Ok(Chat::new(client_id.clone(), self.clone(), events)),
            _ => Err(OmegalulError::IdError),
        }
    }

    /// Opens the session that the body of the response to the session start
    /// describes.
    pub fn start_chat(&self, response_text: &str) -> (chat: Result<Chat, OmegalulError>)
        ensures
            if has_long_fraction(response_text.spec_bytes()) {
                chat matches Err(OmegalulError::DigitsError)
            } else {
                match parsed_document(response_text@) {
                    Some(response) => match opened(self@, response) {
                        Some(view) => chat matches Ok(chat) && chat@ == view,
                        None => chat matches Err(OmegalulError::IdError),
                    },
                    None => chat matches Err(OmegalulError::JsonError(_)),
                }
            },
    {
        match parse(response_text) {
            Ok(response) => self.open_chat(&response),
            Err(err) => Err(err),
        }
    }
}

impl Chat {
    /// A session from its parts.
    pub fn new(client_id: String, server: Server, initial_events: Vec<ChatEvent>) -> (chat: Self)
        ensures
            chat@ == (ChatView {
                client_id: client_id@,
                server: server@,
                initial_events: initial_events.deep_view(),
            }),
    {
        Chat { client_id, server, initial_events }
    }
}

/// A request to post: the address and the fields of the form.
#[derive(Debug)]
pub struct PostRequest {
    pub url: String,
    pub form: Vec<(String, String)>,
}

/// The model of a [`PostRequest`].
pub struct PostView {
    pub url: Seq<char>,
    pub form: Seq<(Seq<char>, Seq<char>)>,
}

impl View for PostRequest {
    type V = PostView;

    open spec fn view(&self) -> PostView {
        PostView { url: self.url@, form: self.form.deep_view() }
    }
}

/// The form that names the session `client_id` and nothing else.
pub open spec fn id_form(client_id: Seq<char>) -> Seq<(Seq<char>, Seq<char>)> {
    seq![("id"@, client_id)]
}

/// The request to post on `path` for the session `chat`, with `form`.
pub open spec fn post_to(chat: ChatView, path: Seq<char>, form: Seq<(Seq<char>, Seq<char>)>)
    -> PostView {
    PostView { url: endpoint_url(chat.server.name, path), form }
}

impl Chat {
    /// The endpoint of the session and the interests it announced.
    pub fn server(&self) -> (server: &Server)
        ensures
            server@ == self@.server,
    {
        &self.server
    }

    /// The identity that the service assigned to the session.
    pub fn client_id(&self) -> (id: &str)
        ensures
            id@ == self@.client_id,
    {
        self.client_id.as_str()
    }

    /// The events that came with the opening of the session.
    pub fn initial(&self) -> (events: &Vec<ChatEvent>)
        ensures
            events.deep_view() == self@.initial_events,
    {
        &self.initial_events
    }

    /// The form that names this session and nothing else.
    fn id_pair(&self) -> (form: Vec<(String, String)>)
        ensures
            form.deep_view() == id_form(self@.client_id),
    {
        let mut form: Vec<(String, String)> = Vec::new();
        form.push((String::from_str("id"), self.client_id.clone()));
        assert(form.deep_view() =~= id_form(self@.client_id));
        form
    }

    /// The request that asks for the events that have come since the last
    /// one.
    pub fn fetch_request(&self) -> (request: PostRequest)
        ensures
            request@ == post_to(self@, "events"@, id_form(self@.client_id)),
    {
        self.handle_server_post("events", self.id_pair())
    }

    /// The events that a parsed response to a poll carries: those of its
    /// entries that decode, and none where the response is no list.
    pub fn events_of(response: &Value) -> (events: Vec<ChatEvent>)
        ensures
            events.deep_view() == decode(response@.items()),
    {
        Server::parse_events(as_array(response))
    }

    /// The events that the body of the response to a poll carries.
    pub fn fetch_event(&self, response_text: &str) -> (events: Result<
        Vec<ChatEvent>,
        OmegalulError,
    >)
        ensures
            if has_long_fraction(response_text.spec_bytes()) {
                events matches Err(OmegalulError::DigitsError)
            } else {
                match parsed_document(response_text@) {
                    Some(response) => events matches Ok(events) && events.deep_view() == decode(
                        response.items(),
                    ),
                    None => events matches Err(OmegalulError::JsonError(_)),
                }
            },
    {
        match parse(response_text) {
            Ok(response) => Ok(Chat::events_of(&response)),
            Err(err) => Err(err),
        }
    }

    /// The request that sends `message` to the stranger.
    pub fn send_message(&self, message: &str) -> (request: PostRequest)
        ensures
            request@ == post_to(
                self@,
                "send"@,
                seq![("id"@, self@.client_id), ("msg"@, message@)],
            ),
    {
        let mut form = self.id_pair();
        let ghost before = form.deep_view();
        form.push((String::from_str("msg"), String::from_str(message)));
        assert(form.deep_view() =~= before.push(("msg"@, message@)));
        assert(form.deep_view() =~= seq![("id"@, self@.client_id), ("msg"@, message@)]);
        self.handle_server_post("send", form)
    }

    /// The request that ends the session.
    pub fn disconnect(&self) -> (request: PostRequest)
        ensures
            request@ == post_to(self@, "disconnect"@, id_form(self@.client_id)),
    {
        self.handle_server_post("disconnect", self.id_pair())
    }

    /// The request that tells the stranger that the user is typing.
    pub fn start_typing(&self) -> (request: PostRequest)
        ensures
            request@ == post_to(self@, "typing"@, id_form(self@.client_id)),
    {
        self.handle_server_post("typing", self.id_pair())
    }

    /// The request that tells the stranger that the user has stopped typing.
    pub fn stop_typing(&self) -> (request: PostRequest)
        ensures
            request@ == post_to(self@, "stoppedtyping"@, id_form(self@.client_id)),
    {
        self.handle_server_post("stoppedtyping", self.id_pair())
    }

    /// The request that posts `pair` on `path` of the session's endpoint.
    pub fn handle_server_post(&self, path: &str, pair: Vec<(String, String)>) -> (request:
        PostRequest)
        ensures
            request@ == post_to(self@, path@, pair.deep_view()),
    {
        let mut url = String::from_str("https://");
        url.append(self.server.name.as_str());
        url.append(".omegle.com");
        url.append("/");
        url.append(path);
        assert(url@ =~= endpoint_url(self@.server.name, path@));
        PostRequest { url, form: pair }
    }
}

impl Clone for Chat {
    fn clone(&self) -> (copy: Self)
        ensures
            copy@ == self@,
    {
        Chat {
            client_id: self.client_id.clone(),
            server: self.server.clone(),
            initial_events: clone_events(&self.initial_events),
        }
    }
}

/// The address of the status document, which lists the endpoints.
pub fn status_url() -> (url: String)
    ensures
        url@ == "https://omegle.com/status"@,
{
    String::from_str("https://omegle.com/status")
}

/// The endpoints that a status document lists: `None` where it has no list
/// under `servers`, or one that holds anything but texts.
pub open spec fn listed_servers(status: Doc) -> Option<Seq<Seq<char>>> {
    match status.field("servers"@) {
        Some(Doc::List(names)) => texts_of(names),
        _ => None,
    }
}

/// The endpoints that a parsed status document lists.
pub fn servers_of(status: &Value) -> (servers: Result<Vec<String>, OmegalulError>)
    ensures
        match listed_servers(status@) {
            Some(names) => servers matches Ok(servers) && servers.deep_view() == names,
            None => servers matches Err(OmegalulError::ServersError),
        },
{
    match status.field("servers") {
        Some(Value::List(names)) => {
            assert(names.deep_view() =~= status@.field("servers"@)->Some_0->List_0);
            match texts(names) {
                Some(names) => Ok(names),
                None => Err(OmegalulError::ServersError),
            }
        },
        _ => Err(OmegalulError::ServersError),
    }
}

/// The endpoints that the body of a status response lists.
pub fn get_servers(status_text: &str) -> (servers: Result<Vec<String>, OmegalulError>)
    ensures
        if has_long_fraction(status_text.spec_bytes()) {
            servers matches Err(OmegalulError::DigitsError)
        } else {
            match parsed_document(status_text@) {
                Some(status) => match listed_servers(status) {
                    Some(names) => servers matches Ok(servers) && servers.deep_view() == names,
                    None => servers matches Err(OmegalulError::ServersError),
                },
                None => servers matches Err(OmegalulError::JsonError(_)),
            }
        },
{
    match parse(status_text) {
        Ok(status) => servers_of(&status),
        Err(err) => Err(err),
    }
}

/// `SliceRandom::choose` on `rand::thread_rng()`: rand returns `None` for an
/// empty slice and otherwise a reference to one of its elements, each with the
/// same probability.
#[verifier::external_body]
fn draw<'a>(servers: &'a Vec<String>) -> (choice: Option<&'a String>)
    ensures
        choice is None <==> servers@.len() == 0,
        choice matches Some(server) ==> exists|i: int|
            0 <= i < servers@.len() && servers@[i] == *server,
{
    servers.choose(&mut rand::thread_rng())
}

/// The endpoint to use, given what was drawn from the list: the drawn one,
/// or the failure that stands for an empty list.
pub fn chosen_server(choice: Option<&String>) -> (server: Result<String, OmegalulError>)
    ensures
        match choice {
            Some(name) => server matches Ok(server) && server@ == name@,
            None => server matches Err(OmegalulError::EmptyServers),
        },
{
    match choice {
        Some(name) => Ok(name.clone()),
        None => Err(OmegalulError::EmptyServers),
    }
}

/// Picks one of `servers` at random, each with the same probability.
pub fn pick_server(servers: &Vec<String>) -> (server: Result<String, OmegalulError>)
    ensures
        servers.len() == 0 <==> server is Err,
        server matches Err(err) ==> err is EmptyServers,
        server matches Ok(name) ==> servers.deep_view().contains(name@),
{
    let choice = draw(servers);
    proof {
        if let Some(name) = choice {
            let i = choose|i: int| 0 <= i < servers@.len() && servers@[i] == *name;
            assert(servers.deep_view()[i] == name@);
        }
    }
    chosen_server(choice)
}

/// Picks at random one of the endpoints that the body of a status response
/// lists.
pub fn get_random_server(status_text: &str) -> (server: Result<String, OmegalulError>)
    ensures
        if has_long_fraction(status_text.spec_bytes()) {
            server matches Err(OmegalulError::DigitsError)
        } else {
            match parsed_document(status_text@) {
                Some(status) => match listed_servers(status) {
                    Some(names) => if names.len() == 0 {
                        server matches Err(OmegalulError::EmptyServers)
                    } else {
                        server matches Ok(name) && names.contains(name@)
                    },
                    None => server matches Err(OmegalulError::ServersError),
                },
                None => server matches Err(OmegalulError::JsonError(_)),
            }
        },
{
    match get_servers(status_text) {
        Ok(servers) => pick_server(&servers),
        Err(err) => Err(err),
    }
}

} // verus!

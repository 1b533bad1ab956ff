//! The request handler: routing, and the exchange that follows a request,
//! step by step. The handler performs no I/O. It says what is to be asked
//! of the codec and of the record store, is told what came back, and ends
//! each exchange with the response to send.

use vstd::prelude::*;
use vstd::slice::slice_subrange;
use vstd::string::*;
use vstd::utf8::{decode_utf8, encode_utf8, valid_utf8};
use crate::model::user::{optional_view, views, User, UserView};
use crate::store::{Outcome, OutcomeView, Query, QueryView};
use crate::util::{
    body_of, get_id, get_method, get_path, get_user_request_body, id_of, integer_of, method_of,
    parse_id, path_of, same_text, starts_with,
};
use crate::{INTERNAL_SERVER_ERROR, NOT_FOUND, OK_RESPONSE};

verus! {

/// The most bytes of a request that are looked at; what lies beyond is cut off.
pub const REQUEST_LIMIT: usize = 1024;

/// Content of the response to a request that could not be carried out.
pub const ERROR_MESSAGE: &'static str = "Error";

/// Content of the response to a request for a record that is not there.
pub const USER_NOT_FOUND: &'static str = "User not found";

/// Content of the response to a request that matches no route.
pub const ROUTE_NOT_FOUND: &'static str = "404 not found";

/// Content of the response to a create request that was carried out.
pub const USER_CREATED: &'static str = "User created";

/// Content of the response to an update request that was carried out.
pub const USER_UPDATED: &'static str = "User updated";

/// Content of the response to a delete request that was carried out.
pub const USER_DELETED: &'static str = "User deleted";

/// The five things that a request can ask for.
#[derive(Clone, Copy, Debug, PartialEq, Eq)]
pub enum Operation {
    Create,
    ReadOne,
    ReadAll,
    Update,
    Delete,
}

/// Where an exchange stands.
#[derive(Clone, Copy, Debug, PartialEq, Eq)]
pub enum Exchange {
    /// No request has come in yet.
    Idle,
    /// The body of the request is with the codec. `id` is the record that an
    /// update names.
    Decoding { operation: Operation, id: Option<i32> },
    /// A query is with the record store.
    Asking { operation: Operation },
    /// The records that were found are with the codec.
    Encoding { operation: Operation },
    /// The exchange is over.
    Closed,
}

/// Records on their way to the codec.
#[derive(Debug, PartialEq, Eq)]
pub enum Payload {
    One(User),
    All(Vec<User>),
}

/// What a `Payload` holds, as plain values.
pub enum PayloadView {
    One(UserView),
    All(Seq<UserView>),
}

impl View for Payload {
    type V = PayloadView;

    open spec fn view(&self) -> PayloadView {
        match *self {
            Payload::One(user) => PayloadView::One(user@),
            Payload::All(users) => PayloadView::All(views(users@)),
        }
    }
}

/// What happened outside the handler.
#[derive(Debug, PartialEq, Eq)]
pub enum Event {
    /// A request was read; this is its text.
    Request(String),
    /// The connection could not be read.
    Unreadable,
    /// The codec has read a body: the record, or `None` where the body does
    /// not hold one.
    Decoded(Option<User>),
    /// The record store has answered.
    Answered(Outcome),
    /// The codec has written the records out, or `None` where it could not.
    Encoded(Option<String>),
}

/// What an `Event` holds, as plain values.
pub enum EventView {
    Request(Seq<char>),
    Unreadable,
    Decoded(Option<UserView>),
    Answered(OutcomeView),
    Encoded(Option<Seq<char>>),
}

impl View for Event {
    type V = EventView;

    open spec fn view(&self) -> EventView {
        match *self {
            Event::Request(text) => EventView::Request(text@),
            Event::Unreadable => EventView::Unreadable,
            Event::Decoded(user) => EventView::Decoded(optional_view(user)),
            Event::Answered(outcome) => EventView::Answered(outcome@),
            Event::Encoded(text) => EventView::Encoded(
                match text {
                    Some(text) => Some(text@),
                    None => None,
                },
            ),
        }
    }
}

/// What the handler wants done next.
#[derive(Debug, PartialEq, Eq)]
pub enum Command {
    /// Read this body as a user record and come back with `Event::Decoded`.
    Decode(String),
    /// Run `query` on the store at `url` and come back with `Event::Answered`.
    Ask { url: String, query: Query },
    /// Write these records out and come back with `Event::Encoded`.
    Encode(Payload),
    /// Send the status line and then the content; the exchange is over.
    Reply { status_line: String, content: String },
    /// Send nothing; the exchange is over.
    Hangup,
}

/// What a `Command` holds, as plain values.
pub enum CommandView {
    Decode(Seq<char>),
    Ask { url: Seq<char>, query: QueryView },
    Encode(PayloadView),
    Reply { status_line: Seq<char>, content: Seq<char> },
    Hangup,
}

impl View for Command {
    type V = CommandView;

    open spec fn view(&self) -> CommandView {
        match *self {
            Command::Decode(body) => CommandView::Decode(body@),
            Command::Ask { url, query } => CommandView::Ask { url: url@, query: query@ },
            Command::Encode(payload) => CommandView::Encode(payload@),
            Command::Reply { status_line, content } => CommandView::Reply {
                status_line: status_line@,
                content: content@,
            },
            Command::Hangup => CommandView::Hangup,
        }
    }
}

/// The operation that `request` asks for, by its method and the start of its
/// path; `None` where it asks for nothing that the service knows.
pub open spec fn route_of(request: Seq<char>) -> Option<Operation> {
    let method = method_of(request);
    let path = path_of(request);
    if method == "POST"@ && "/users"@.is_prefix_of(path) {
        Some(Operation::Create)
    } else if method == "GET"@ && "/users/"@.is_prefix_of(path) {
        Some(Operation::ReadOne)
    } else if method == "GET"@ && "/users"@.is_prefix_of(path) {
        Some(Operation::ReadAll)
    } else if method == "PUT"@ && "/users/"@.is_prefix_of(path) {
        Some(Operation::Update)
    } else if method == "DELETE"@ && "/users/"@.is_prefix_of(path) {
        Some(Operation::Delete)
    } else {
        None
    }
}

/// Finds the operation that `request` asks for.
pub fn route(request: &str) -> (operation: Option<Operation>)
    ensures
        operation == route_of(request@),
{
    let method = get_method(request);
    let path = get_path(request);
    if same_text(method, "POST") && starts_with(path, "/users") {
        Some(Operation::Create)
    } else if same_text(method, "GET") && starts_with(path, "/users/") {
        Some(Operation::ReadOne)
    } else if same_text(method, "GET") && starts_with(path, "/users") {
        Some(Operation::ReadAll)
    } else if same_text(method, "PUT") && starts_with(path, "/users/") {
        Some(Operation::Update)
    } else if same_text(method, "DELETE") && starts_with(path, "/users/") {
        Some(Operation::Delete)
    } else {
        None
    }
}

/// The end of an exchange with the given response.
pub open spec fn closing(status_line: Seq<char>, content: Seq<char>) -> (Exchange, CommandView) {
    (Exchange::Closed, CommandView::Reply { status_line, content })
}

/// The end of an exchange that could not be carried out.
pub open spec fn failure() -> (Exchange, CommandView) {
    closing(INTERNAL_SERVER_ERROR@, ERROR_MESSAGE@)
}

/// The end of an exchange that asked for a record that is not there.
pub open spec fn missing() -> (Exchange, CommandView) {
    closing(NOT_FOUND@, USER_NOT_FOUND@)
}

/// The end of an exchange that was carried out.
pub open spec fn success(content: Seq<char>) -> (Exchange, CommandView) {
    closing(OK_RESPONSE@, content)
}

/// One step of a create: the body goes to the codec, the record that comes
/// back goes to the store, and the store's count ends the exchange.
pub open spec fn create_step(url: Seq<char>, state: Exchange, event: EventView) -> (
    Exchange,
    CommandView,
) {
    match (state, event) {
        (Exchange::Idle, EventView::Request(text)) => (
            Exchange::Decoding { operation: Operation::Create, id: None },
            CommandView::Decode(body_of(text)),
        ),
        (
            Exchange::Decoding { operation: Operation::Create, id: _ },
            EventView::Decoded(Some(user)),
        ) => (
            Exchange::Asking { operation: Operation::Create },
            CommandView::Ask {
                url,
                query: QueryView::Insert { name: user.name, email: user.email },
            },
        ),
        (
            Exchange::Asking { operation: Operation::Create },
            EventView::Answered(OutcomeView::Affected(_)),
        ) => success(USER_CREATED@),
        _ => failure(),
    }
}

/// One step of a read of one record: the identifier in the path goes to the
/// store, the one row that comes back goes to the codec, and its text ends
/// the exchange. Any other number of rows means that the record is missing.
pub open spec fn read_one_step(url: Seq<char>, state: Exchange, event: EventView) -> (
    Exchange,
    CommandView,
) {
    match (state, event) {
        (Exchange::Idle, EventView::Request(text)) => match integer_of(id_of(text)) {
            Some(id) => (
                Exchange::Asking { operation: Operation::ReadOne },
                CommandView::Ask { url, query: QueryView::SelectOne { id } },
            ),
            None => failure(),
        },
        (
            Exchange::Asking { operation: Operation::ReadOne },
            EventView::Answered(OutcomeView::Rows(rows)),
        ) => if rows.len() == 1 {
            (
                Exchange::Encoding { operation: Operation::ReadOne },
                CommandView::Encode(PayloadView::One(rows[0])),
            )
        } else {
            missing()
        },
        (Exchange::Encoding { operation: Operation::ReadOne }, EventView::Encoded(Some(text))) => {
            success(text)
        },
        _ => failure(),
    }
}

/// One step of a read of all records: the store is asked for them, the rows
/// that come back go to the codec, and their text ends the exchange.
pub open spec fn read_all_step(url: Seq<char>, state: Exchange, event: EventView) -> (
    Exchange,
    CommandView,
) {
    match (state, event) {
        (Exchange::Idle, EventView::Request(_)) => (
            Exchange::Asking { operation: Operation::ReadAll },
            CommandView::Ask { url, query: QueryView::SelectAll },
        ),
        (
            Exchange::Asking { operation: Operation::ReadAll },
            EventView::Answered(OutcomeView::Rows(rows)),
        ) => (
            Exchange::Encoding { operation: Operation::ReadAll },
            CommandView::Encode(PayloadView::All(rows)),
        ),
        (Exchange::Encoding { operation: Operation::ReadAll }, EventView::Encoded(Some(text))) => {
            success(text)
        },
        _ => failure(),
    }
}

/// One step of an update: the identifier in the path is read, the body goes
/// to the codec, the record that comes back goes to the store under that
/// identifier, and the store's count, whatever it is, ends the exchange.
pub open spec fn update_step(url: Seq<char>, state: Exchange, event: EventView) -> (
    Exchange,
    CommandView,
) {
    match (state, event) {
        (Exchange::Idle, EventView::Request(text)) => match integer_of(id_of(text)) {
            Some(id) => (
                Exchange::Decoding { operation: Operation::Update, id: Some(id) },
                CommandView::Decode(body_of(text)),
            ),
            None => failure(),
        },
        (
            Exchange::Decoding { operation: Operation::Update, id: Some(id) },
            EventView::Decoded(Some(user)),
        ) => (
            Exchange::Asking { operation: Operation::Update },
            CommandView::Ask {
                url,
                query: QueryView::Update { id, name: user.name, email: user.email },
            },
        ),
        (
            Exchange::Asking { operation: Operation::Update },
            EventView::Answered(OutcomeView::Affected(_)),
        ) => success(USER_UPDATED@),
        _ => failure(),
    }
}

/// One step of a delete: the identifier in the path goes to the store, and
/// the store's count ends the exchange: no row means that the record is
/// missing.
pub open spec fn delete_step(url: Seq<char>, state: Exchange, event: EventView) -> (
    Exchange,
    CommandView,
) {
    match (state, event) {
        (Exchange::Idle, EventView::Request(text)) => match integer_of(id_of(text)) {
            Some(id) => (
                Exchange::Asking { operation: Operation::Delete },
                CommandView::Ask { url, query: QueryView::Delete { id } },
            ),
            None => failure(),
        },
        (
            Exchange::Asking { operation: Operation::Delete },
            EventView::Answered(OutcomeView::Affected(count)),
        ) => if count == 0 {
            missing()
        } else {
            success(USER_DELETED@)
        },
        _ => failure(),
    }
}

/// One step of the operation `operation`.
pub open spec fn operation_step(
    operation: Operation,
    url: Seq<char>,
    state: Exchange,
    event: EventView,
) -> (Exchange, CommandView) {
    match operation {
        Operation::Create => create_step(url, state, event),
        Operation::ReadOne => read_one_step(url, state, event),
        Operation::ReadAll => read_all_step(url, state, event),
        Operation::Update => update_step(url, state, event),
        Operation::Delete => delete_step(url, state, event),
    }
}

/// One step of an exchange: the state that follows `state` on `event`, and
/// what is to be done next. A request in the idle state starts the operation
/// that it is routed to; later events go to the operation under way. An
/// event that the state does not wait for ends the exchange with a failure.
pub open spec fn step(url: Seq<char>, state: Exchange, event: EventView) -> (Exchange, CommandView) {
    match state {
        Exchange::Idle => match event {
            EventView::Request(text) => match route_of(text) {
                Some(operation) => operation_step(operation, url, state, event),
                None => closing(NOT_FOUND@, ROUTE_NOT_FOUND@),
            },
            EventView::Unreadable => (Exchange::Closed, CommandView::Hangup),
            _ => failure(),
        },
        Exchange::Decoding { operation, .. } => operation_step(operation, url, state, event),
        Exchange::Asking { operation } => operation_step(operation, url, state, event),
        Exchange::Encoding { operation } => operation_step(operation, url, state, event),
        Exchange::Closed => failure(),
    }
}

/// Names the text that `String::from_utf8_lossy` makes of `bytes`.
pub uninterp spec fn lossy_text(bytes: Seq<u8>) -> Seq<char>;

/// Calls `String::from_utf8_lossy` and takes the text out of what it
/// returns. Trusted: the text depends on the bytes alone, and for bytes that
/// are UTF-8 it is the text that they encode. For other bytes nothing more is
/// said of it here (each ill-formed part comes out as U+FFFD).
#[verifier::external_body]
fn decode_lossy(bytes: &[u8]) -> (text: String)
    ensures
        text@ == lossy_text(bytes@),
        valid_utf8(bytes@) ==> text@ == decode_utf8(bytes@),
{
    String::from_utf8_lossy(bytes).into_owned()
}

/// The part of `buffer` that is looked at.
pub open spec fn request_window(buffer: Seq<u8>) -> Seq<u8> {
    if buffer.len() > REQUEST_LIMIT {
        buffer.take(REQUEST_LIMIT as int)
    } else {
        buffer
    }
}

/// Turns the bytes read from a connection into the text of the request.
/// Bytes beyond `REQUEST_LIMIT` are cut off, and bytes that are not UTF-8
/// are replaced, never refused.
pub fn read_request(buffer: &[u8]) -> (text: String)
    ensures
        text@ == lossy_text(request_window(buffer@)),
        valid_utf8(request_window(buffer@)) ==> text@ == decode_utf8(request_window(buffer@)),
{
    if buffer.len() > REQUEST_LIMIT {
        decode_lossy(slice_subrange(buffer, 0, REQUEST_LIMIT))
    } else {
        decode_lossy(buffer)
    }
}

/// The bytes of a response: the status line and then the content, as UTF-8.
pub fn response_bytes(status_line: &str, content: &str) -> (bytes: Vec<u8>)
    ensures
        bytes@ == encode_utf8(status_line@ + content@),
{
    let mut text = String::from_str(status_line);
    text.append(content);
    text.as_str().as_bytes_vec()
}

/// The address that the service listens on: the host name, a colon, and the
/// port.
pub fn listen_address(hostname: &str, port: &str) -> (address: String)
    ensures
        address@ == hostname@ + seq![':'] + port@,
{
    let mut address = String::from_str(hostname);
    proof {
        reveal_strlit(":");
        assert(":"@ =~= seq![':']);
    }
    address.append(":");
    address.append(port);
    address
}

/// Ends an exchange with the given response.
fn close(status_line: &str, content: &str) -> (next: (Exchange, Command))
    ensures
        next.0 == Exchange::Closed,
        next.1@ == (CommandView::Reply { status_line: status_line@, content: content@ }),
{
    (
        Exchange::Closed,
        Command::Reply {
            status_line: String::from_str(status_line),
            content: String::from_str(content),
        },
    )
}

/// Ends an exchange that could not be carried out.
fn fail() -> (next: (Exchange, Command))
    ensures
        next.0 == failure().0,
        next.1@ == failure().1,
{
    close(INTERNAL_SERVER_ERROR, ERROR_MESSAGE)
}

/// Handles requests for user records kept in the store at `database_url`.
pub struct Handler {
    database_url: String,
}

impl View for Handler {
    type V = Seq<char>;

    /// The address of the record store.
    closed spec fn view(&self) -> Seq<char> {
        self.database_url@
    }
}

impl Handler {
    /// A handler for the record store at `database_url`.
    pub fn new(database_url: String) -> (handler: Self)
        ensures
            handler@ == database_url@,
    {
        Self { database_url }
    }

    /// The address of the record store.
    pub fn database_url(&self) -> (url: &str)
        ensures
            url@ == self@,
    {
        self.database_url.as_str()
    }

    /// Takes an exchange one step on: given where it stands and what
    /// happened, says where it stands now and what is to be done next.
    pub fn handle(&self, state: Exchange, event: Event) -> (next: (Exchange, Command))
        ensures
            next.0 == step(self@, state, event@).0,
            next.1@ == step(self@, state, event@).1,
    {
        match state {
            Exchange::Idle => match event {
                Event::Request(text) => match route(text.as_str()) {
                    Some(operation) => self.handle_operation(
                        operation,
                        state,
                        Event::Request(text),
                    ),
                    None => close(NOT_FOUND, ROUTE_NOT_FOUND),
                },
                Event::Unreadable => (Exchange::Closed, Command::Hangup),
                _ => fail(),
            },
            Exchange::Decoding { operation, .. } => self.handle_operation(operation, state, event),
            Exchange::Asking { operation } => self.handle_operation(operation, state, event),
            Exchange::Encoding { operation } => self.handle_operation(operation, state, event),
            Exchange::Closed => fail(),
        }
    }

    /// Takes the operation `operation` one step on.
    fn handle_operation(&self, operation: Operation, state: Exchange, event: Event) -> (next: (
        Exchange,
        Command,
    ))
        ensures
            next.0 == operation_step(operation, self@, state, event@).0,
            next.1@ == operation_step(operation, self@, state, event@).1,
    {
        match operation {
            Operation::Create => self.handle_post_request(state, event),
            Operation::ReadOne => self.handle_get_request(state, event),
            Operation::ReadAll => self.handle_get_all_request(state, event),
            Operation::Update => self.handle_put_request(state, event),
            Operation::Delete => self.handle_delete_request(state, event),
        }
    }

    /// Takes a create one step on.
    fn handle_post_request(&self, state: Exchange, event: Event) -> (next: (Exchange, Command))
        ensures
            next.0 == create_step(self@, state, event@).0,
            next.1@ == create_step(self@, state, event@).1,
    {
        match (state, event) {
            (Exchange::Idle, Event::Request(text)) => {
                let body = get_user_request_body(text.as_str());
                (
                    Exchange::Decoding { operation: Operation::Create, id: None },
                    Command::Decode(String::from_str(body)),
                )
            },
            (
                Exchange::Decoding { operation: Operation::Create, id: _ },
                Event::Decoded(Some(user)),
            ) => (
                Exchange::Asking { operation: Operation::Create },
                Command::Ask {
                    url: self.database_url.clone(),
                    query: Query::Insert { name: user.name, email: user.email },
                },
            ),
            (
                Exchange::Asking { operation: Operation::Create },
                Event::Answered(Outcome::Affected(_)),
            ) => close(OK_RESPONSE, USER_CREATED),
            _ => fail(),
        }
    }

    /// Takes a read of one record one step on.
    fn handle_get_request(&self, state: Exchange, event: Event) -> (next: (Exchange, Command))
        ensures
            next.0 == read_one_step(self@, state, event@).0,
            next.1@ == read_one_step(self@, state, event@).1,
    {
        match (state, event) {
            (Exchange::Idle, Event::Request(text)) => match parse_id(get_id(text.as_str())) {
                Some(id) => (
                    Exchange::Asking { operation: Operation::ReadOne },
                    Command::Ask { url: self.database_url.clone(), query: Query::SelectOne { id } },
                ),
                None => fail(),
            },
            (
                Exchange::Asking { operation: Operation::ReadOne },
                Event::Answered(Outcome::Rows(rows)),
            ) => {
                let mut rows = rows;
                if rows.len() == 1 {
                    match rows.pop() {
                        Some(user) => (
                            Exchange::Encoding { operation: Operation::ReadOne },
                            Command::Encode(Payload::One(user)),
                        ),
                        None => fail(),
                    }
                } else {
                    close(NOT_FOUND, USER_NOT_FOUND)
                }
            },
            (Exchange::Encoding { operation: Operation::ReadOne }, Event::Encoded(Some(text))) => (
                Exchange::Closed,
                Command::Reply { status_line: String::from_str(OK_RESPONSE), content: text },
            ),
            _ => fail(),
        }
    }

    /// Takes a read of all records one step on.
    fn handle_get_all_request(&self, state: Exchange, event: Event) -> (next: (Exchange, Command))
        ensures
            next.0 == read_all_step(self@, state, event@).0,
            next.1@ == read_all_step(self@, state, event@).1,
    {
        match (state, event) {
            (Exchange::Idle, Event::Request(_)) => (
                Exchange::Asking { operation: Operation::ReadAll },
                Command::Ask { url: self.database_url.clone(), query: Query::SelectAll },
            ),
            (
                Exchange::Asking { operation: Operation::ReadAll },
                Event::Answered(Outcome::Rows(rows)),
            ) => (
                Exchange::Encoding { operation: Operation::ReadAll },
                Command::Encode(Payload::All(rows)),
            ),
            (Exchange::Encoding { operation: Operation::ReadAll }, Event::Encoded(Some(text))) => (
                Exchange::Closed,
                Command::Reply { status_line: String::from_str(OK_RESPONSE), content: text },
            ),
            _ => fail(),
        }
    }

    /// Takes an update one step on.
    fn handle_put_request(&self, state: Exchange, event: Event) -> (next: (Exchange, Command))
        ensures
            next.0 == update_step(self@, state, event@).0,
            next.1@ == update_step(self@, state, event@).1,
    {
        match (state, event) {
            (Exchange::Idle, Event::Request(text)) => match parse_id(get_id(text.as_str())) {
                Some(id) => {
                    let body = get_user_request_body(text.as_str());
                    (
                        Exchange::Decoding { operation: Operation::Update, id: Some(id) },
                        Command::Decode(String::from_str(body)),
                    )
                },
                None => fail(),
            },
            (
                Exchange::Decoding { operation: Operation::Update, id: Some(id) },
                Event::Decoded(Some(user)),
            ) => (
                Exchange::Asking { operation: Operation::Update },
                Command::Ask {
                    url: self.database_url.clone(),
                    query: Query::Update { id, name: user.name, email: user.email },
                },
            ),
            (
                Exchange::Asking { operation: Operation::Update },
                Event::Answered(Outcome::Affected(_)),
            ) => close(OK_RESPONSE, USER_UPDATED),
            _ => fail(),
        }
    }

    /// Takes a delete one step on.
    fn handle_delete_request(&self, state: Exchange, event: Event) -> (next: (Exchange, Command))
        ensures
            next.0 == delete_step(self@, state, event@).0,
            next.1@ == delete_step(self@, state, event@).1,
    {
        match (state, event) {
            (Exchange::Idle, Event::Request(text)) => match parse_id(get_id(text.as_str())) {
                Some(id) => (
                    Exchange::Asking { operation: Operation::Delete },
                    Command::Ask { url: self.database_url.clone(), query: Query::Delete { id } },
                ),
                None => fail(),
            },
            (
                Exchange::Asking { operation: Operation::Delete },
                Event::Answered(Outcome::Affected(count)),
            ) => if count == 0 {
                close(NOT_FOUND, USER_NOT_FOUND)
            } else {
                close(OK_RESPONSE, USER_DELETED)
            },
            _ => fail(),
        }
    }
}

} // verus!

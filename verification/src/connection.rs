//! The life of one connection: a state machine that is told what happened on
//! the transport and says what to do next.

use crate::http_headers::lookup_ignore_case;
use crate::http_request::HTTPRequest;
use crate::text::{eq_ignore_ascii_case, str_eq_ignore_ascii_case};
use vstd::prelude::*;

verus! {

/// How long a connection may stay silent before it is closed, in seconds.
pub const IDLE_TIMEOUT_SECONDS: u64 = 60;

/// Where a connection stands.
#[derive(Clone, Copy, Debug, PartialEq, Eq, Structural)]
pub enum ConnectionState {
    /// Between two requests.
    Idle,
    /// Waiting for the bytes of a request.
    Reading,
    /// Bytes have arrived and are being parsed.
    Parsing,
    /// The request is with the handler.
    Handling,
    /// The response is being written.
    Writing,
    /// The connection is over.
    Closed,
}

/// A failure of the transport. Each one ends the connection; none is retried.
#[derive(Clone, Copy, Debug, PartialEq, Eq, Structural)]
pub enum TransportError {
    /// The read failed.
    Read,
    /// The write failed.
    Write,
    /// No byte arrived within the idle timeout.
    Timeout,
}

/// What happened since the last step.
#[derive(Clone, Copy, Debug, PartialEq, Eq, Structural)]
pub enum ConnectionEvent {
    /// The loop is ready to go on.
    Ready,
    /// The read returned this many bytes; none means that the peer has closed.
    ReadCompleted { bytes: usize },
    /// The bytes were a request; `close_requested` tells whether it asked for
    /// the connection to be closed after the response.
    ParseSucceeded { close_requested: bool },
    /// The bytes were no request.
    ParseFailed,
    /// The handler returned its response.
    HandlerReturned,
    /// All bytes of the response were written.
    WriteCompleted,
    /// A read or a write failed, or the read timed out.
    TransportFailed(TransportError),
}

/// What the loop is to do next.
#[derive(Clone, Copy, Debug, PartialEq, Eq, Structural)]
pub enum ConnectionAction {
    /// Read from the transport, for at most this many seconds.
    Read { timeout_seconds: u64 },
    /// Parse the bytes that were read.
    Parse,
    /// Hand the request to the handler.
    Handle,
    /// Serialise the response and write it.
    Write,
    /// Go on with the event `Ready`.
    Continue,
    /// Close the transport.
    Close,
    /// Nothing: the connection is closed already.
    Nothing,
}

/// One connection: its state, and whether the request that it is serving
/// asked for the connection to be closed.
#[derive(Clone, Copy, Debug, PartialEq, Eq, Structural)]
pub struct Connection {
    pub state: ConnectionState,
    pub close_requested: bool,
}

/// A connection that has just been accepted.
pub open spec fn accepted() -> Connection {
    Connection { state: ConnectionState::Idle, close_requested: false }
}

/// A closed connection.
pub open spec fn closed(connection: Connection) -> Connection {
    Connection { state: ConnectionState::Closed, close_requested: connection.close_requested }
}

/// The connection after `event`, and what the loop is to do next.
///
/// A closed connection stays closed and asks for nothing. An event that the
/// state does not wait for closes the connection.
pub open spec fn next(connection: Connection, event: ConnectionEvent) -> (
    Connection,
    ConnectionAction,
) {
    match (connection.state, event) {
        (ConnectionState::Closed, _) => (connection, ConnectionAction::Nothing),
        (ConnectionState::Idle, ConnectionEvent::Ready) => if connection.close_requested {
            (closed(connection), ConnectionAction::Close)
        } else {
            (
                Connection { state: ConnectionState::Reading, close_requested: false },
                ConnectionAction::Read { timeout_seconds: IDLE_TIMEOUT_SECONDS },
            )
        },
        (ConnectionState::Reading, ConnectionEvent::ReadCompleted { bytes }) => if bytes > 0 {
            (
                Connection { state: ConnectionState::Parsing, close_requested: false },
                ConnectionAction::Parse,
            )
        } else {
            (closed(connection), ConnectionAction::Close)
        },
        (ConnectionState::Parsing, ConnectionEvent::ParseSucceeded { close_requested }) => (
            Connection { state: ConnectionState::Handling, close_requested },
            ConnectionAction::Handle,
        ),
        (ConnectionState::Handling, ConnectionEvent::HandlerReturned) => (
            Connection {
                state: ConnectionState::Writing,
                close_requested: connection.close_requested,
            },
            ConnectionAction::Write,
        ),
        (ConnectionState::Writing, ConnectionEvent::WriteCompleted) => (
            Connection {
                state: ConnectionState::Idle,
                close_requested: connection.close_requested,
            },
            ConnectionAction::Continue,
        ),
        _ => (closed(connection), ConnectionAction::Close),
    }
}

/// The connection after a run of events.
pub open spec fn after(connection: Connection, events: Seq<ConnectionEvent>) -> Connection
    decreases events.len(),
{
    if events.len() == 0 {
        connection
    } else {
        next(after(connection, events.drop_last()), events.last()).0
    }
}

/// What the loop was told to do during a run of events, step by step.
pub open spec fn actions(connection: Connection, events: Seq<ConnectionEvent>) -> Seq<
    ConnectionAction,
>
    decreases events.len(),
{
    if events.len() == 0 {
        Seq::empty()
    } else {
        actions(connection, events.drop_last()).push(
            next(after(connection, events.drop_last()), events.last()).1,
        )
    }
}

/// The events of one request that is read, parsed, handled and answered.
pub open spec fn exchange(bytes: usize, close_requested: bool) -> Seq<ConnectionEvent> {
    seq![
        ConnectionEvent::Ready,
        ConnectionEvent::ReadCompleted { bytes },
        ConnectionEvent::ParseSucceeded { close_requested },
        ConnectionEvent::HandlerReturned,
        ConnectionEvent::WriteCompleted,
    ]
}

/// Tells whether the headers of a request ask for the connection to be
/// closed: a `Connection` header with the value `close`, both in any case of
/// their letters.
pub open spec fn asks_to_close(headers: Seq<(Seq<char>, Seq<char>)>) -> bool {
    match lookup_ignore_case(headers, "Connection"@) {
        Some(value) => eq_ignore_ascii_case(value, "close"@),
        None => false,
    }
}

impl Connection {
    /// A connection that has just been accepted.
    pub fn new() -> (r: Connection)
        ensures
            r == accepted(),
    {
        Connection { state: ConnectionState::Idle, close_requested: false }
    }

    /// Tells whether the connection is over.
    pub fn is_closed(&self) -> (r: bool)
        ensures
            r == (self.state == ConnectionState::Closed),
    {
        self.state == ConnectionState::Closed
    }

    /// Takes `event` in, and says what the loop is to do next.
    pub fn step(&mut self, event: ConnectionEvent) -> (action: ConnectionAction)
        ensures
            (*final(self), action) == next(*old(self), event),
    {
        let (state, close_requested, action) = match (self.state, event) {
            (ConnectionState::Closed, _) => (
                ConnectionState::Closed,
                self.close_requested,
                ConnectionAction::Nothing,
            ),
            (ConnectionState::Idle, ConnectionEvent::Ready) if !self.close_requested => (
                ConnectionState::Reading,
                false,
                ConnectionAction::Read { timeout_seconds: IDLE_TIMEOUT_SECONDS },
            ),
            (ConnectionState::Reading, ConnectionEvent::ReadCompleted { bytes }) if bytes > 0 => (
                ConnectionState::Parsing,
                false,
                ConnectionAction::Parse,
            ),
            (ConnectionState::Parsing, ConnectionEvent::ParseSucceeded { close_requested }) => (
                ConnectionState::Handling,
                close_requested,
                ConnectionAction::Handle,
            ),
            (ConnectionState::Handling, ConnectionEvent::HandlerReturned) => (
                ConnectionState::Writing,
                self.close_requested,
                ConnectionAction::Write,
            ),
            (ConnectionState::Writing, ConnectionEvent::WriteCompleted) => (
                ConnectionState::Idle,
                self.close_requested,
                ConnectionAction::Continue,
            ),
            _ => (ConnectionState::Closed, self.close_requested, ConnectionAction::Close),
        };
        self.state = state;
        self.close_requested = close_requested;
        action
    }
}

/// Tells whether `request` asks for the connection to be closed after its
/// response.
pub fn close_requested(request: &HTTPRequest) -> (r: bool)
    ensures
        r == asks_to_close(request@.headers),
{
    match request.headers.get_ignore_case("Connection") {
        Some(value) => str_eq_ignore_ascii_case(value.as_str(), "close"),
        None => false,
    }
}

/// An idle connection whose last request did not ask for the connection to
/// be closed goes on to read, and is given the idle timeout of 60 seconds for
/// it.
pub proof fn lemma_idle_reads_with_timeout(connection: Connection)
    requires
        connection.state == ConnectionState::Idle,
        !connection.close_requested,
    ensures
        next(connection, ConnectionEvent::Ready).0.state == ConnectionState::Reading,
        next(connection, ConnectionEvent::Ready).1 == (ConnectionAction::Read {
            timeout_seconds: 60,
        }),
{
}

/// A connection that waits for bytes is closed when the timeout passes
/// without one, when the read fails and when the peer closes. Nothing but the
/// state of this one connection changes.
pub proof fn lemma_silence_closes(connection: Connection, error: TransportError)
    requires
        connection.state == ConnectionState::Reading,
    ensures
        next(connection, ConnectionEvent::TransportFailed(error)) == (
            closed(connection),
            ConnectionAction::Close,
        ),
        next(connection, ConnectionEvent::ReadCompleted { bytes: 0 }) == (
            closed(connection),
            ConnectionAction::Close,
        ),
{
}

/// A closed connection stays closed whatever happens, and asks for nothing
/// more.
pub proof fn lemma_closed_is_final(connection: Connection, events: Seq<ConnectionEvent>)
    requires
        connection.state == ConnectionState::Closed,
    ensures
        after(connection, events) == connection,
        actions(connection, events).len() == events.len(),
        forall|i: int|
            0 <= i < events.len() ==> actions(connection, events)[i] == ConnectionAction::Nothing,
    decreases events.len(),
{
    if events.len() > 0 {
        lemma_closed_is_final(connection, events.drop_last());
    }
}

/// One more event extends a run by one step.
pub proof fn lemma_after_push(
    connection: Connection,
    events: Seq<ConnectionEvent>,
    event: ConnectionEvent,
)
    ensures
        after(connection, events.push(event)) == next(after(connection, events), event).0,
        actions(connection, events.push(event)) == actions(connection, events).push(
            next(after(connection, events), event).1,
        ),
{
    assert(events.push(event).drop_last() =~= events);
}

/// A request that arrives on an idle connection is read, parsed, handled and
/// answered, and leaves the connection idle.
pub proof fn lemma_exchange(
    connection: Connection,
    events: Seq<ConnectionEvent>,
    bytes: usize,
    close_requested: bool,
)
    requires
        after(connection, events).state == ConnectionState::Idle,
        !after(connection, events).close_requested,
        bytes > 0,
    ensures
        after(connection, events + exchange(bytes, close_requested)) == (Connection {
            state: ConnectionState::Idle,
            close_requested,
        }),
        actions(connection, events + exchange(bytes, close_requested)) == actions(
            connection,
            events,
        ) + seq![
            ConnectionAction::Read { timeout_seconds: 60 },
            ConnectionAction::Parse,
            ConnectionAction::Handle,
            ConnectionAction::Write,
            ConnectionAction::Continue,
        ],
{
    let e = exchange(bytes, close_requested);
    let ready = events.push(e[0]);
    let read = ready.push(e[1]);
    let parsed = read.push(e[2]);
    let handled = parsed.push(e[3]);
    let written = handled.push(e[4]);
    lemma_after_push(connection, events, e[0]);
    lemma_after_push(connection, ready, e[1]);
    lemma_after_push(connection, read, e[2]);
    lemma_after_push(connection, parsed, e[3]);
    lemma_after_push(connection, handled, e[4]);
    assert(written =~= events + e);
    assert(actions(connection, written) =~= actions(connection, events) + seq![
        ConnectionAction::Read { timeout_seconds: 60 },
        ConnectionAction::Parse,
        ConnectionAction::Handle,
        ConnectionAction::Write,
        ConnectionAction::Continue,
    ]);
}

/// Two requests in a row that do not ask for the connection to be closed are
/// both answered, and the connection is open after them.
pub proof fn lemma_keep_alive(first: usize, second: usize)
    requires
        first > 0,
        second > 0,
    ensures
        after(accepted(), exchange(first, false) + exchange(second, false)).state
            == ConnectionState::Idle,
        actions(accepted(), exchange(first, false) + exchange(second, false)) == seq![
            ConnectionAction::Read { timeout_seconds: 60 },
            ConnectionAction::Parse,
            ConnectionAction::Handle,
            ConnectionAction::Write,
            ConnectionAction::Continue,
            ConnectionAction::Read { timeout_seconds: 60 },
            ConnectionAction::Parse,
            ConnectionAction::Handle,
            ConnectionAction::Write,
            ConnectionAction::Continue,
        ],
{
    let none = Seq::<ConnectionEvent>::empty();
    let one = exchange(first, false);
    lemma_exchange(accepted(), none, first, false);
    lemma_exchange(accepted(), one, second, false);
    assert(actions(accepted(), one + exchange(second, false)) =~= seq![
        ConnectionAction::Read { timeout_seconds: 60 },
        ConnectionAction::Parse,
        ConnectionAction::Handle,
        ConnectionAction::Write,
        ConnectionAction::Continue,
        ConnectionAction::Read { timeout_seconds: 60 },
        ConnectionAction::Parse,
        ConnectionAction::Handle,
        ConnectionAction::Write,
        ConnectionAction::Continue,
    ]);
}

/// A request that asks for the connection to be closed is answered, and the
/// connection is closed after it.
pub proof fn lemma_close_after_response(bytes: usize)
    requires
        bytes > 0,
    ensures
        actions(accepted(), exchange(bytes, true).push(ConnectionEvent::Ready)) == seq![
            ConnectionAction::Read { timeout_seconds: 60 },
            ConnectionAction::Parse,
            ConnectionAction::Handle,
            ConnectionAction::Write,
            ConnectionAction::Continue,
            ConnectionAction::Close,
        ],
        after(accepted(), exchange(bytes, true).push(ConnectionEvent::Ready)).state
            == ConnectionState::Closed,
{
    let none = Seq::<ConnectionEvent>::empty();
    let one = exchange(bytes, true);
    lemma_exchange(accepted(), none, bytes, true);
    lemma_after_push(accepted(), one, ConnectionEvent::Ready);
    assert(actions(accepted(), one.push(ConnectionEvent::Ready)) =~= seq![
        ConnectionAction::Read { timeout_seconds: 60 },
        ConnectionAction::Parse,
        ConnectionAction::Handle,
        ConnectionAction::Write,
        ConnectionAction::Continue,
        ConnectionAction::Close,
    ]);
}

} // verus!

//! The life of one connection: a state machine from the connection's state and
//! the next event to the new state and the one action to perform.
//!
//! The machine neither reads a socket nor writes to the store. Whoever drives
//! it performs each action and reports what came of it as the next event.

use vstd::prelude::*;
use vstd::string::*;
use vstd::utf8::encode_utf8;
use crate::key::{key_of, record_key};
use crate::session::{id_bytes, is_session_text, Session, SessionId};

verus! {

/// The name of the response header that tells a peer where the transcript of
/// its session can be read.
pub const RESULTS_HEADER: &'static str = "x-results-url";

/// The address at which the transcript of session `id` is read: the base
/// address of the retrieval endpoint, a slash, the identifier.
pub open spec fn location_of(base_url: Seq<char>, id: Seq<char>) -> Seq<char> {
    base_url + seq!['/'] + id
}

/// The value of the `RESULTS_HEADER` that the handshake response carries for
/// the session `id`.
pub fn results_location(base_url: &str, id: &SessionId) -> (location: String)
    ensures
        location@ == location_of(base_url@, id@),
{
    let mut location = String::from_str(base_url);
    location.append("/");
    location.append(id.as_str());
    proof {
        reveal_strlit("/");
        assert("/"@ =~= seq!['/']);
    }
    location
}

/// Where a connection stands.
#[derive(Debug, Clone, Copy, PartialEq, Eq)]
pub enum Phase {
    /// The transport-level handshake is under way.
    Handshaking,
    /// Frames are received, one at a time.
    Open,
    /// The connection is being closed from this side.
    Closing,
    /// The connection is gone; its records remain.
    Closed,
}

/// One message of the connection.
#[derive(Debug, PartialEq, Eq)]
pub enum Frame {
    Text(String),
    Binary(Vec<u8>),
    Ping(Vec<u8>),
    Pong(Vec<u8>),
    Close,
}

/// A frame, to the contracts.
pub enum FrameView {
    Text(Seq<char>),
    Binary(Seq<u8>),
    Ping(Seq<u8>),
    Pong(Seq<u8>),
    Close,
}

impl View for Frame {
    type V = FrameView;

    open spec fn view(&self) -> FrameView {
        match self {
            Frame::Text(text) => FrameView::Text(text@),
            Frame::Binary(data) => FrameView::Binary(data@),
            Frame::Ping(data) => FrameView::Ping(data@),
            Frame::Pong(data) => FrameView::Pong(data@),
            Frame::Close => FrameView::Close,
        }
    }
}

/// What happened on the connection since the last action.
#[derive(Debug, PartialEq, Eq)]
pub enum Event {
    /// The handshake succeeded.
    HandshakeCompleted,
    /// The handshake was malformed or could not be answered.
    HandshakeFailed,
    /// A frame arrived.
    Received(Frame),
    /// The peer went away without a close frame.
    StreamEnded,
    /// Reading or writing the connection failed.
    TransportFailed,
    /// The record was put into the store.
    Stored,
    /// The store was flushed: what was put before is durable.
    Flushed,
    /// The record could not be put, or the store could not be flushed.
    PersistFailed,
    /// The close acknowledgment was sent, or could not be sent any more.
    CloseSent,
}

/// An event, to the contracts.
pub enum EventView {
    HandshakeCompleted,
    HandshakeFailed,
    Received(FrameView),
    StreamEnded,
    TransportFailed,
    Stored,
    Flushed,
    PersistFailed,
    CloseSent,
}

impl View for Event {
    type V = EventView;

    open spec fn view(&self) -> EventView {
        match self {
            Event::HandshakeCompleted => EventView::HandshakeCompleted,
            Event::HandshakeFailed => EventView::HandshakeFailed,
            Event::Received(frame) => EventView::Received(frame@),
            Event::StreamEnded => EventView::StreamEnded,
            Event::TransportFailed => EventView::TransportFailed,
            Event::Stored => EventView::Stored,
            Event::Flushed => EventView::Flushed,
            Event::PersistFailed => EventView::PersistFailed,
            Event::CloseSent => EventView::CloseSent,
        }
    }
}

/// What the driver of the connection does next.
#[derive(Debug, PartialEq, Eq)]
pub enum Action {
    /// Wait for the next frame.
    Receive,
    /// Put `value` under `key`, and report `Stored` or `PersistFailed`.
    Put { key: Vec<u8>, value: Vec<u8> },
    /// Flush the store, and report `Flushed` or `PersistFailed`.
    Flush,
    /// Send the frame to the peer, then wait for the next frame.
    Send(Frame),
    /// Send the close acknowledgment if none was sent, and report
    /// `CloseSent`.
    Close,
    /// Release the connection and retire its session from the registry.
    Release,
    /// Nothing is left to do.
    Done,
}

/// An action, to the contracts.
pub enum ActionView {
    Receive,
    Put { key: Seq<u8>, value: Seq<u8> },
    Flush,
    Send(FrameView),
    Close,
    Release,
    Done,
}

impl View for Action {
    type V = ActionView;

    open spec fn view(&self) -> ActionView {
        match self {
            Action::Receive => ActionView::Receive,
            Action::Put { key, value } => ActionView::Put { key: key@, value: value@ },
            Action::Flush => ActionView::Flush,
            Action::Send(frame) => ActionView::Send(frame@),
            Action::Close => ActionView::Close,
            Action::Release => ActionView::Release,
            Action::Done => ActionView::Done,
        }
    }
}

/// The state of a connection, to the contracts.
pub struct ConnectionView {
    pub phase: Phase,
    /// The identifier of the connection's session.
    pub id: Seq<char>,
    /// The number of records persisted so far.
    pub sequence: nat,
    /// The text frame whose record is being persisted and that has not been
    /// echoed yet.
    pub pending: Option<Seq<char>>,
    /// Whether the pending record has been put and awaits the flush.
    pub stored: bool,
    /// Whether binary frames are echoed rather than ignored.
    pub echo_binary: bool,
}

impl ConnectionView {
    /// The states a connection can be in: a frame is pending only while the
    /// connection is open, and only if the counter can still advance.
    pub open spec fn wf(self) -> bool {
        &&& is_session_text(self.id)
        &&& self.sequence <= u64::MAX
        &&& self.pending is Some ==> self.phase is Open && self.sequence < u64::MAX
        &&& self.stored ==> self.pending is Some
    }

    /// The same connection in another phase, with no frame pending.
    pub open spec fn moved_to(self, phase: Phase) -> ConnectionView {
        ConnectionView { phase, pending: None, stored: false, ..self }
    }
}

/// The answer to a frame on an open connection with no frame pending.
pub open spec fn on_frame(c: ConnectionView, frame: FrameView) -> (ConnectionView, ActionView) {
    match frame {
        FrameView::Text(text) => if c.sequence >= u64::MAX {
            (c.moved_to(Phase::Closing), ActionView::Close)
        } else {
            (
                ConnectionView { pending: Some(text), ..c },
                ActionView::Put {
                    key: key_of(id_bytes(c.id), c.sequence),
                    value: encode_utf8(text),
                },
            )
        },
        FrameView::Binary(data) => if c.echo_binary {
            (c, ActionView::Send(FrameView::Binary(data)))
        } else {
            (c, ActionView::Receive)
        },
        FrameView::Ping(data) => (c, ActionView::Send(FrameView::Pong(data))),
        FrameView::Pong(_) => (c, ActionView::Receive),
        FrameView::Close => (c.moved_to(Phase::Closing), ActionView::Close),
    }
}

/// The transition of the machine: the state after `event` and the action to
/// perform.
///
/// - While handshaking, success opens the connection; anything else closes it
///   with nothing persisted.
/// - While open, a text frame is put under the session's next key, the store
///   is flushed, and only then the frame is echoed and the counter advances:
///   each record is durable before it is acknowledged. A ping
///   is answered with a pong of the same payload. Binary frames are ignored or
///   echoed and take no sequence number. A close frame, the end of the stream,
///   a transport or persistence failure, and any event out of turn start the
///   closing.
/// - While closing, the next event closes the connection and releases it.
pub open spec fn step_spec(c: ConnectionView, event: EventView) -> (ConnectionView, ActionView) {
    match c.phase {
        Phase::Handshaking => match event {
            EventView::HandshakeCompleted => (c.moved_to(Phase::Open), ActionView::Receive),
            _ => (c.moved_to(Phase::Closed), ActionView::Release),
        },
        Phase::Open => match c.pending {
            Some(text) => if !c.stored {
                match event {
                    EventView::Stored => (ConnectionView { stored: true, ..c }, ActionView::Flush),
                    _ => (c.moved_to(Phase::Closing), ActionView::Close),
                }
            } else {
                match event {
                    EventView::Flushed => (
                        ConnectionView {
                            pending: None,
                            stored: false,
                            sequence: c.sequence + 1,
                            ..c
                        },
                        ActionView::Send(FrameView::Text(text)),
                    ),
                    _ => (c.moved_to(Phase::Closing), ActionView::Close),
                }
            },
            None => match event {
                EventView::Received(frame) => on_frame(c, frame),
                _ => (c.moved_to(Phase::Closing), ActionView::Close),
            },
        },
        Phase::Closing => (c.moved_to(Phase::Closed), ActionView::Release),
        Phase::Closed => (c, ActionView::Done),
    }
}

/// One connection and its session.
#[derive(Debug)]
pub struct Connection {
    phase: Phase,
    session: Session,
    pending: Option<String>,
    stored: bool,
    echo_binary: bool,
}

impl View for Connection {
    type V = ConnectionView;

    closed spec fn view(&self) -> ConnectionView {
        ConnectionView {
            phase: self.phase,
            id: self.session@.id,
            sequence: self.session@.sequence,
            pending: match self.pending {
                Some(text) => Some(text@),
                None => None,
            },
            stored: self.stored,
            echo_binary: self.echo_binary,
        }
    }
}

impl Connection {
    /// A connection whose handshake has begun, for the session that was
    /// minted for it. `echo_binary` says whether binary frames are echoed.
    pub fn accept(session: Session, echo_binary: bool) -> (connection: Connection)
        ensures
            connection@.wf(),
            connection@ == (ConnectionView {
                phase: Phase::Handshaking,
                id: session@.id,
                sequence: session@.sequence,
                pending: None,
                stored: false,
                echo_binary,
            }),
    {
        let _ = session.id();
        let _ = session.sequence();
        Connection { phase: Phase::Handshaking, session, pending: None, stored: false, echo_binary }
    }

    /// Where the connection stands.
    pub fn phase(&self) -> (phase: Phase)
        ensures
            phase == self@.phase,
    {
        self.phase
    }

    /// The session of the connection.
    pub fn session(&self) -> (session: &Session)
        ensures
            session@.id == self@.id,
            session@.sequence == self@.sequence,
    {
        &self.session
    }

    /// Takes the next event and says what to do: the transition `step_spec`.
    pub fn step(&mut self, event: Event) -> (action: Action)
        requires
            old(self)@.wf(),
        ensures
            final(self)@.wf(),
            (final(self)@, action@) == step_spec(old(self)@, event@),
    {
        match self.phase {
            Phase::Handshaking => match event {
                Event::HandshakeCompleted => {
                    self.phase = Phase::Open;
                    Action::Receive
                },
                _ => {
                    self.phase = Phase::Closed;
                    Action::Release
                },
            },
            Phase::Open => {
                let pending = self.pending.take();
                let stored = self.stored;
                self.stored = false;
                match pending {
                    Some(text) => match (stored, event) {
                        (false, Event::Stored) => {
                            self.pending = Some(text);
                            self.stored = true;
                            Action::Flush
                        },
                        (true, Event::Flushed) => {
                            let _ = self.session.next_sequence();
                            Action::Send(Frame::Text(text))
                        },
                        _ => {
                            self.phase = Phase::Closing;
                            Action::Close
                        },
                    },
                    None => match event {
                        Event::Received(frame) => self.answer(frame),
                        _ => {
                            self.phase = Phase::Closing;
                            Action::Close
                        },
                    },
                }
            },
            Phase::Closing => {
                self.phase = Phase::Closed;
                Action::Release
            },
            Phase::Closed => Action::Done,
        }
    }

    fn answer(&mut self, frame: Frame) -> (action: Action)
        requires
            old(self)@.wf(),
            old(self)@.phase is Open,
            old(self)@.pending is None,
            !old(self)@.stored,
        ensures
            final(self)@.wf(),
            (final(self)@, action@) == on_frame(old(self)@, frame@),
    {
        match frame {
            Frame::Text(text) => {
                if self.session.is_exhausted() {
                    self.phase = Phase::Closing;
                    Action::Close
                } else {
                    let key = record_key(self.session.id(), self.session.sequence());
                    let value = text.as_str().as_bytes_vec();
                    self.pending = Some(text);
                    Action::Put { key, value }
                }
            },
            Frame::Binary(data) => {
                if self.echo_binary {
                    Action::Send(Frame::Binary(data))
                } else {
                    Action::Receive
                }
            },
            Frame::Ping(data) => Action::Send(Frame::Pong(data)),
            Frame::Pong(_) => Action::Receive,
            Frame::Close => {
                self.phase = Phase::Closing;
                Action::Close
            },
        }
    }
}

} // verus!

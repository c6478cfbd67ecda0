//! The connection's side of framing: what to do with the bytes buffered
//! from a peer, and what to do when the peer closes.

use crate::command::{answer, exec, frame_command, new, Command, CommandModel};
use crate::frame::{parse, parse_at, Cursor, Frame, FrameModel, ParseError};
use crate::keyspace::{space_index, Evictor, KeyspaceManager, ManagerModel};
use vstd::prelude::*;

verus! {

/// Reads one frame from the front of `buffer`. Gives the frame, `None`
/// when more bytes are needed, or the error; and how many bytes to drop
/// from the front of the buffer: the frame's on success, none while it is
/// incomplete, and the malformed bytes on an error, so that reading again
/// cannot stall on them.
pub fn parse_frame(buffer: &[u8]) -> (r: (Result<Option<Frame>, ParseError>, usize))
    ensures
        ({
            let (res, end) = parse_at(buffer@, 0);
            &&& r.1 == end
            &&& match res {
                Ok(f) => r.0 matches Ok(Some(x)) && x.model() == f,
                Err(ParseError::IncompleteFrame) => r.0 matches Ok(None) && r.1 == 0,
                Err(e) => r.0 == Err::<Option<Frame>, ParseError>(e),
            }
        }),
        r.1 <= buffer@.len(),
{
    let mut cursor = Cursor::new(buffer);
    let res = parse(&mut cursor);
    let consumed = cursor.position();
    match res {
        Ok(frame) => (Ok(Some(frame)), consumed),
        Err(ParseError::IncompleteFrame) => (Ok(None), consumed),
        Err(e) => (Err(e), consumed),
    }
}

/// Why a connection ended.
#[derive(Debug, Clone, Copy, PartialEq, Eq, Structural)]
pub enum ConnectionError {
    /// The peer closed with a frame half sent.
    ResetByPeer,
}

impl ConnectionError {
    pub fn message(&self) -> (r: String)
        ensures
            r@ == "connection reset by peer"@,
    {
        "connection reset by peer".to_owned()
    }
}

/// The peer closed its side while `buffered` bytes were still unread: a
/// clean end when none were, else a reset.
pub fn peer_closed(buffered: usize) -> (r: Result<Option<Frame>, ConnectionError>)
    ensures
        buffered == 0 ==> r matches Ok(None),
        buffered > 0 ==> r == Err::<Option<Frame>, ConnectionError>(ConnectionError::ResetByPeer),
{
    if buffered == 0 {
        Ok(None)
    } else {
        Err(ConnectionError::ResetByPeer)
    }
}

/// What the loop serving one connection has just seen.
pub enum ConnectionEvent {
    /// The server is shutting down.
    Shutdown,
    /// The peer closed the connection cleanly.
    PeerClosed,
    /// Reading failed; the text says why.
    ReadFailed(String),
    /// A request frame arrived.
    Request(Frame),
}

/// What the loop does next.
pub enum ConnectionAction {
    /// Stop serving the connection.
    Stop,
    /// Send `reply`; when `start_evictor` names a keyspace, that keyspace
    /// was just created with an evictor other than Noop, whose background
    /// pass should now start.
    Reply { reply: Frame, start_evictor: Option<String> },
}

/// The keyspace a request creates that needs a background evictor: a
/// CREATE of a free name with an evictor other than Noop.
pub open spec fn evictor_to_start(m: ManagerModel, request: FrameModel) -> Option<Seq<char>> {
    match frame_command(request) {
        Ok(CommandModel::Create { keyspace, evictor, .. }) => if space_index(m, keyspace) is None
            && !(evictor is Noop) {
            Some(keyspace)
        } else {
            None
        },
        _ => None,
    }
}

/// The decision of the loop serving one connection: stop on shutdown or a
/// clean close; answer a failed read with its reason in an error frame and
/// go on; answer a request and go on.
pub fn connection_step(manager: &mut KeyspaceManager, event: ConnectionEvent) -> (r: ConnectionAction)
    requires
        old(manager).wf(),
    ensures
        final(manager).wf(),
        final(manager).memory_cap() == old(manager).memory_cap(),
        match event {
            ConnectionEvent::Shutdown => r is Stop && final(manager).model() == old(manager).model(),
            ConnectionEvent::PeerClosed => r is Stop && final(manager).model() == old(manager).model(),
            ConnectionEvent::ReadFailed(m) => r matches ConnectionAction::Reply { reply, start_evictor }
                && reply.model() == FrameModel::Error(m@) && start_evictor is None && final(
                manager).model() == old(manager).model(),
            ConnectionEvent::Request(f) => r matches ConnectionAction::Reply { reply, start_evictor }
                && (final(manager).model(), reply.model()) == answer(old(manager).model(), f.model())
                && match evictor_to_start(old(manager).model(), f.model()) {
                Some(name) => start_evictor matches Some(s) && s@ == name,
                None => start_evictor is None,
            },
        },
{
    match event {
        ConnectionEvent::Shutdown => ConnectionAction::Stop,
        ConnectionEvent::PeerClosed => ConnectionAction::Stop,
        ConnectionEvent::ReadFailed(message) => ConnectionAction::Reply {
            reply: Frame::Error(message),
            start_evictor: None,
        },
        ConnectionEvent::Request(request) => {
            let ghost m = manager.model();
            let ghost fm = request.model();
            match new(request) {
                Err(e) => ConnectionAction::Reply { reply: Frame::Error(e.message()), start_evictor: None },
                Ok(cmd) => {
                    let candidate = match &cmd {
                        Command::Create(c) => match c.evictor {
                            Evictor::Noop => None,
                            _ => Some(c.keyspace.clone()),
                        },
                        _ => None,
                    };
                    let reply = exec(cmd, manager);
                    let start_evictor = match reply {
                        Frame::Integer(1) => candidate,
                        _ => None,
                    };
                    ConnectionAction::Reply { reply, start_evictor }
                },
            }
        },
    }
}

} // verus!

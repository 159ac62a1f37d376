//! The decisions of one client session. The session's loop (reading the socket, waiting
//! on its mailbox, writing) runs outside; each thing that happens is handed to
//! [`handler`], which says what to do next.
use vstd::prelude::*;
use crate::message::{WireMessage, WireView};
use crate::orchestrator::{Envelope, EnvelopeView};

verus! {

/// What a session knows: the id the hub gave it, once it has arrived, and whether its
/// loop still runs.
#[derive(Debug, Clone, Copy, PartialEq, Eq, Structural)]
pub struct Session {
    pub id: Option<u64>,
    pub open: bool,
}

/// Something that happened to a session.
#[derive(Debug, Clone, PartialEq, Eq)]
pub enum SessionEvent {
    /// A frame from the client decoded to this message.
    Received(WireMessage),
    /// Nothing came from the client within the wait.
    Idle,
    /// A frame from the client did not decode.
    Malformed,
    /// The client's stream is closed.
    Closed,
    /// The hub put this envelope in the session's mailbox.
    Mail(Envelope),
    /// Writing to the client failed.
    WriteFailed,
}

/// What the session's loop does next.
#[derive(Debug, Clone, PartialEq, Eq)]
pub enum SessionAction {
    /// Nothing; go on.
    Continue,
    /// Hand `payload`, received from the client of session `sender`, to the hub.
    Submit { sender: u64, payload: WireMessage },
    /// Write this message to the client.
    Write(WireMessage),
    /// Leave the loop, first telling the hub to forget this id, if the session has one.
    Finish { unregister: Option<u64> },
}

pub enum SessionEventView {
    Received(WireView),
    Idle,
    Malformed,
    Closed,
    Mail(EnvelopeView),
    WriteFailed,
}

pub enum SessionActionView {
    Continue,
    Submit { sender: u64, payload: WireView },
    Write(WireView),
    Finish { unregister: Option<u64> },
}

impl View for SessionEvent {
    type V = SessionEventView;

    open spec fn view(&self) -> SessionEventView {
        match self {
            SessionEvent::Received(m) => SessionEventView::Received(m@),
            SessionEvent::Idle => SessionEventView::Idle,
            SessionEvent::Malformed => SessionEventView::Malformed,
            SessionEvent::Closed => SessionEventView::Closed,
            SessionEvent::Mail(e) => SessionEventView::Mail(e@),
            SessionEvent::WriteFailed => SessionEventView::WriteFailed,
        }
    }
}

impl View for SessionAction {
    type V = SessionActionView;

    open spec fn view(&self) -> SessionActionView {
        match self {
            SessionAction::Continue => SessionActionView::Continue,
            SessionAction::Submit { sender, payload } => SessionActionView::Submit {
                sender: *sender,
                payload: payload@,
            },
            SessionAction::Write(m) => SessionActionView::Write(m@),
            SessionAction::Finish { unregister } => SessionActionView::Finish {
                unregister: *unregister,
            },
        }
    }
}

impl Session {
    /// A session that has not learnt its id yet.
    pub fn new() -> (r: Self)
        ensures
            r.id is None,
            r.open,
    {
        Session { id: None, open: true }
    }
}

/// The session after `event`.
pub open spec fn next_session(s: Session, event: SessionEventView) -> Session {
    if !s.open {
        s
    } else {
        match event {
            SessionEventView::Mail(EnvelopeView::Registered { id }) => Session { id: Some(id), open: true },
            SessionEventView::Closed | SessionEventView::WriteFailed => Session { id: s.id, open: false },
            _ => s,
        }
    }
}

/// What the session does on `event`.
pub open spec fn session_action(s: Session, event: SessionEventView) -> SessionActionView {
    if !s.open {
        SessionActionView::Continue
    } else {
        match event {
            SessionEventView::Received(m) => match s.id {
                Some(id) => SessionActionView::Submit { sender: id, payload: m },
                None => SessionActionView::Continue,
            },
            SessionEventView::Mail(EnvelopeView::Deliver { payload, .. }) => SessionActionView::Write(
                payload,
            ),
            SessionEventView::Closed | SessionEventView::WriteFailed => SessionActionView::Finish {
                unregister: s.id,
            },
            _ => SessionActionView::Continue,
        }
    }
}

/// Decides what the session does on `event`: a decoded message goes to the hub under the
/// session's id, a delivery is written to the client, a malformed frame or a quiet wait
/// changes nothing, and a closed stream or a failed write ends the session, unregistering
/// its id. A session that has ended does nothing more.
pub fn handler(session: &mut Session, event: SessionEvent) -> (r: SessionAction)
    ensures
        *final(session) == next_session(*old(session), event@),
        r@ == session_action(*old(session), event@),
{
    if !session.open {
        return SessionAction::Continue;
    }
    match event {
        SessionEvent::Received(m) => match session.id {
            Some(id) => SessionAction::Submit { sender: id, payload: m },
            None => SessionAction::Continue,
        },
        SessionEvent::Mail(Envelope::Registered { id }) => {
            session.id = Some(id);
            SessionAction::Continue
        },
        SessionEvent::Mail(Envelope::Deliver { payload, .. }) => SessionAction::Write(payload),
        SessionEvent::Closed | SessionEvent::WriteFailed => {
            session.open = false;
            SessionAction::Finish { unregister: session.id }
        },
        _ => SessionAction::Continue,
    }
}

} // verus!

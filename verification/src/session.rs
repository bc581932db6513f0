//! The per-connection session: it bridges one transport connection to the
//! registry by turning inbound frames into protocol events.  The transport
//! itself (reads, writes, the upgrade handshake) belongs to the connection
//! handler around the core, which performs each returned event against the
//! registry and keeps per-sender order.

use vstd::prelude::*;
use crate::messages::{ChatMessage, Disconnect, Frame, ServerEvent};

verus! {

/// Relies on rand::random: draws a pseudo-random identity for a new session
/// from the thread-local generator.  Nothing is promised of the value;
/// identities may collide only after a large id-space wrap, and the registry
/// absorbs a colliding connect as an overwrite.
#[verifier::external_body]
fn fresh_session_id() -> (r: usize) {
    rand::random::<u64>() as usize
}

/// One live connection's state: its identity and whether its teardown has
/// already run.
pub struct WsChatSession {
    pub id: usize,
    pub stopped: bool,
}

impl WsChatSession {
    /// A session for a newly upgraded connection, under a freshly drawn
    /// identity, with its teardown not yet begun.
    pub fn new() -> (s: Self)
        ensures
            !s.stopped,
    {
        WsChatSession { id: fresh_session_id(), stopped: false }
    }

    /// Turns one inbound frame into at most one registry event.  A text
    /// frame becomes exactly one broadcast request carrying the text
    /// verbatim; a close frame emits this session's disconnect exactly once,
    /// however often close is signalled; anything else is silently dropped.
    pub fn handle(&mut self, msg: Frame) -> (ev: Option<ServerEvent>)
        ensures
            final(self).id == old(self).id,
            old(self).stopped ==> *final(self) == *old(self) && ev is None,
            !old(self).stopped ==> match msg {
                Frame::Text(t) => ev == Some(ServerEvent::Message(ChatMessage(t)))
                    && *final(self) == *old(self),
                Frame::Close => ev == Some(
                    ServerEvent::Disconnect(Disconnect { id: old(self).id }),
                ) && final(self).stopped,
                _ => ev is None && *final(self) == *old(self),
            },
    {
        if self.stopped {
            return None;
        }
        match msg {
            Frame::Text(t) => Some(ServerEvent::Message(ChatMessage(t))),
            Frame::Close => {
                self.stopped = true;
                Some(ServerEvent::Disconnect(Disconnect { id: self.id }))
            },
            _ => None,
        }
    }
}

} // verus!

//! The event protocol between sessions and the registry, and the model of a
//! session's outbound write path.

use vstd::prelude::*;

verus! {

/// One chat payload.  The text a client sends is carried and fanned out
/// verbatim; the core imposes no structure on it.
pub struct ChatMessage(pub String);

impl View for ChatMessage {
    type V = Seq<char>;

    open spec fn view(&self) -> Seq<char> {
        self.0@
    }
}

/// The mathematical content of an outbound handle: whether its transport can
/// still accept writes, every payload for which a write was attempted, and
/// every payload whose write succeeded.
pub ghost struct HandleView {
    pub live: bool,
    pub attempts: Seq<Seq<char>>,
    pub delivered: Seq<Seq<char>>,
}

/// The registry-facing write capability of one session.  Pushing a payload
/// here models one write attempt on that session's transport: the payload is
/// always recorded as attempted, and lands in `delivered` only while the
/// transport is still live.  A write on a dead transport is swallowed.
pub struct OutboundHandle {
    pub live: bool,
    pub attempts: Vec<String>,
    pub delivered: Vec<String>,
}

/// The sequence of character views of a sequence of strings.
pub open spec fn views_of(ss: Seq<String>) -> Seq<Seq<char>> {
    ss.map_values(|s: String| s@)
}

pub proof fn lemma_views_of_push(ss: Seq<String>, s: String)
    ensures
        views_of(ss.push(s)) == views_of(ss).push(s@),
{
    assert(views_of(ss.push(s)) =~= views_of(ss).push(s@));
}

impl View for OutboundHandle {
    type V = HandleView;

    open spec fn view(&self) -> HandleView {
        HandleView {
            live: self.live,
            attempts: views_of(self.attempts@),
            delivered: views_of(self.delivered@),
        }
    }
}

impl OutboundHandle {
    /// A fresh handle whose transport is open and has seen no writes.
    pub fn new() -> (h: Self)
        ensures
            h@.live,
            h@.attempts == Seq::<Seq<char>>::empty(),
            h@.delivered == Seq::<Seq<char>>::empty(),
    {
        let h = OutboundHandle { live: true, attempts: Vec::new(), delivered: Vec::new() };
        proof {
            assert(h@.attempts =~= Seq::<Seq<char>>::empty());
            assert(h@.delivered =~= Seq::<Seq<char>>::empty());
        }
        h
    }

    /// The transport behind this handle is gone: every later write attempt
    /// on it fails and is swallowed.
    pub fn close(&mut self)
        ensures
            !final(self)@.live,
            final(self)@.attempts == old(self)@.attempts,
            final(self)@.delivered == old(self)@.delivered,
    {
        self.live = false;
    }
}

/// What one fan-out step does to a single recipient: exactly one write
/// attempt; the payload lands only if the transport is still live, and a
/// failed write changes nothing else and is not surfaced.
pub open spec fn deliver_one(h: HandleView, p: Seq<char>) -> HandleView {
    HandleView {
        live: h.live,
        attempts: h.attempts.push(p),
        delivered: if h.live {
            h.delivered.push(p)
        } else {
            h.delivered
        },
    }
}

/// Registers a new session: the registry maps `id` to the given handle.
pub struct Connect {
    pub id: usize,
    pub addr: OutboundHandle,
}

/// Removes a session; removing an id that is not registered is a no-op.
pub struct Disconnect {
    pub id: usize,
}

/// The registry's inbound event protocol: every mutation of the session map
/// goes through exactly one of these.
pub enum ServerEvent {
    Connect(Connect),
    Disconnect(Disconnect),
    Message(ChatMessage),
}

/// One inbound transport frame as a session sees it after decoding.  Only
/// text and close frames are acted on; binary and other control frames are
/// silently dropped.
pub enum Frame {
    Text(String),
    Binary(Vec<u8>),
    Close,
    Other,
}

} // verus!

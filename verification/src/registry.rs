//! The registry: the single authoritative router.  It owns the map from
//! session identity to outbound handle and performs the fan-out.

use vstd::prelude::*;
use crate::messages::{ChatMessage, Connect, Disconnect, HandleView, OutboundHandle, ServerEvent};
use crate::messages::{deliver_one, lemma_views_of_push};

verus! {

/// One registered session: its identity and its outbound handle.
pub struct SessionEntry {
    pub id: usize,
    pub addr: OutboundHandle,
}

/// Whether some entry of `s` carries identity `id`.
pub open spec fn has_id(s: Seq<SessionEntry>, id: usize) -> bool {
    exists|i: int| 0 <= i < s.len() && (#[trigger] s[i].id) == id
}

/// An index of `s` whose entry carries identity `id` (meaningful only when
/// `has_id(s, id)` holds).
pub open spec fn entry_index(s: Seq<SessionEntry>, id: usize) -> int {
    choose|i: int| 0 <= i < s.len() && (#[trigger] s[i].id) == id
}

/// The handle registered for `id` (meaningful only when `has_id(s, id)`).
pub open spec fn handle_at(s: Seq<SessionEntry>, id: usize) -> HandleView {
    s[entry_index(s, id)].addr@
}

/// The identities of `s`, in entry order.
pub open spec fn ids(s: Seq<SessionEntry>) -> Seq<usize> {
    s.map_values(|e: SessionEntry| e.id)
}

/// The session map carried by a sequence of entries.
pub open spec fn map_of(s: Seq<SessionEntry>) -> Map<usize, HandleView> {
    Map::new(|id: usize| has_id(s, id), |id: usize| handle_at(s, id))
}

/// Every registered identity's handle after one broadcast of `p`: each
/// recipient sees exactly one write attempt, and membership is untouched.
pub open spec fn spec_broadcast(m: Map<usize, HandleView>, p: Seq<char>) -> Map<
    usize,
    HandleView,
> {
    Map::new(|id: usize| m.dom().contains(id), |id: usize| deliver_one(m[id], p))
}

/// What one event does to the session map.
pub open spec fn spec_apply(m: Map<usize, HandleView>, ev: ServerEvent) -> Map<
    usize,
    HandleView,
> {
    match ev {
        ServerEvent::Connect(c) => m.insert(c.id, c.addr@),
        ServerEvent::Disconnect(d) => m.remove(d.id),
        ServerEvent::Message(msg) => spec_broadcast(m, msg@),
    }
}

/// In a duplicate-free sequence of entries, the entry chosen for an identity
/// is the one and only entry carrying it.
pub proof fn lemma_handle_at_unique(s: Seq<SessionEntry>, j: int)
    requires
        ids(s).no_duplicates(),
        0 <= j < s.len(),
    ensures
        entry_index(s, s[j].id) == j,
        handle_at(s, s[j].id) == s[j].addr@,
{
    let id = s[j].id;
    assert(has_id(s, id));
    let i = entry_index(s, id);
    assert(0 <= i < s.len() && s[i].id == id);
    assert(ids(s)[i] == s[i].id);
    assert(ids(s)[j] == s[j].id);
    if i != j {
        assert(ids(s)[i] == ids(s)[j]);
        assert(false);
    }
}

/// Overwriting the entry at `i` with one carrying the same identity updates
/// exactly that identity's handle in the session map.
pub proof fn lemma_map_update(s: Seq<SessionEntry>, i: int, e: SessionEntry)
    requires
        ids(s).no_duplicates(),
        0 <= i < s.len(),
        s[i].id == e.id,
    ensures
        ids(s.update(i, e)).no_duplicates(),
        map_of(s.update(i, e)) == map_of(s).insert(e.id, e.addr@),
{
    let s1 = s.update(i, e);
    assert(ids(s1) =~= ids(s));
    assert forall|k: usize| has_id(s1, k) implies has_id(s, k) by {
        let w = choose|w: int| 0 <= w < s1.len() && (#[trigger] s1[w].id) == k;
        assert(s[w].id == k);
    }
    assert forall|k: usize| has_id(s, k) implies has_id(s1, k) by {
        let w = choose|w: int| 0 <= w < s.len() && (#[trigger] s[w].id) == k;
        assert(s1[w].id == k);
    }
    assert(has_id(s, e.id)) by {
        assert(s[i].id == e.id);
    }
    assert forall|k: usize| #[trigger]
        has_id(s1, k) implies map_of(s1)[k] == map_of(s).insert(e.id, e.addr@)[k] by {
        let w = entry_index(s1, k);
        assert(0 <= w < s1.len() && s1[w].id == k);
        lemma_handle_at_unique(s1, w);
        if k == e.id {
            lemma_handle_at_unique(s1, i);
            assert(w == i);
            assert(handle_at(s1, k) == e.addr@);
        } else {
            assert(w != i);
            assert(s1[w] == s[w]);
            lemma_handle_at_unique(s, w);
            assert(handle_at(s, k) == s[w].addr@);
        }
    }
    assert(map_of(s1) =~= map_of(s).insert(e.id, e.addr@));
}

/// Appending an entry with a fresh identity adds exactly that identity to
/// the session map.
pub proof fn lemma_map_push(s: Seq<SessionEntry>, e: SessionEntry)
    requires
        ids(s).no_duplicates(),
        !has_id(s, e.id),
    ensures
        ids(s.push(e)).no_duplicates(),
        map_of(s.push(e)) == map_of(s).insert(e.id, e.addr@),
{
    let s1 = s.push(e);
    let n = s.len() as int;
    assert forall|a: int, b: int|
        0 <= a < ids(s1).len() && 0 <= b < ids(s1).len() && a != b implies ids(s1)[a] != ids(
        s1,
    )[b] by {
        assert(ids(s1)[a] == s1[a].id);
        assert(ids(s1)[b] == s1[b].id);
        if a < n && b < n {
            assert(ids(s)[a] == s[a].id);
            assert(ids(s)[b] == s[b].id);
        } else if a == n && b < n {
            assert(s1[b].id == s[b].id);
            if s1[a].id == s1[b].id {
                assert(has_id(s, e.id));
            }
        } else if b == n && a < n {
            assert(s1[a].id == s[a].id);
            if s1[a].id == s1[b].id {
                assert(has_id(s, e.id));
            }
        }
    }
    assert forall|k: usize| #[trigger]
        has_id(s1, k) implies k == e.id || has_id(s, k) by {
        let w = choose|w: int| 0 <= w < s1.len() && (#[trigger] s1[w].id) == k;
        if w < n {
            assert(s[w].id == k);
        }
    }
    assert forall|k: usize| has_id(s, k) implies has_id(s1, k) by {
        let w = choose|w: int| 0 <= w < s.len() && (#[trigger] s[w].id) == k;
        assert(s1[w].id == k);
    }
    assert(has_id(s1, e.id)) by {
        assert(s1[n].id == e.id);
    }
    assert forall|k: usize| #[trigger]
        has_id(s1, k) implies map_of(s1)[k] == map_of(s).insert(e.id, e.addr@)[k] by {
        let w = entry_index(s1, k);
        assert(0 <= w < s1.len() && s1[w].id == k);
        lemma_handle_at_unique(s1, w);
        if k == e.id {
            lemma_handle_at_unique(s1, n);
            assert(w == n);
            assert(handle_at(s1, k) == e.addr@);
        } else {
            assert(w != n);
            assert(s1[w] == s[w]);
            lemma_handle_at_unique(s, w);
        }
    }
    assert(map_of(s1) =~= map_of(s).insert(e.id, e.addr@));
}

/// Removing the entry at `i` removes exactly its identity from the session
/// map.
pub proof fn lemma_map_remove_at(s: Seq<SessionEntry>, i: int)
    requires
        ids(s).no_duplicates(),
        0 <= i < s.len(),
    ensures
        ids(s.remove(i)).no_duplicates(),
        map_of(s.remove(i)) == map_of(s).remove(s[i].id),
{
    let s1 = s.remove(i);
    let id = s[i].id;
    assert forall|j: int| 0 <= j < s1.len() implies #[trigger] s1[j] == s[if j < i {
        j
    } else {
        j + 1
    }] by {}
    assert forall|a: int, b: int|
        0 <= a < ids(s1).len() && 0 <= b < ids(s1).len() && a != b implies ids(s1)[a] != ids(
        s1,
    )[b] by {
        let a0 = if a < i { a } else { a + 1 };
        let b0 = if b < i { b } else { b + 1 };
        assert(ids(s1)[a] == s1[a].id && s1[a].id == s[a0].id);
        assert(ids(s1)[b] == s1[b].id && s1[b].id == s[b0].id);
        assert(ids(s)[a0] == s[a0].id);
        assert(ids(s)[b0] == s[b0].id);
    }
    assert forall|k: usize| #[trigger] has_id(s1, k) implies has_id(s, k) && k != id by {
        let w = choose|w: int| 0 <= w < s1.len() && (#[trigger] s1[w].id) == k;
        let w0 = if w < i { w } else { w + 1 };
        assert(s[w0].id == k);
        if k == id {
            lemma_handle_at_unique(s, w0);
            lemma_handle_at_unique(s, i);
            assert(false);
        }
    }
    assert forall|k: usize| has_id(s, k) && k != id implies has_id(s1, k) by {
        let w = choose|w: int| 0 <= w < s.len() && (#[trigger] s[w].id) == k;
        assert(w != i);
        let w1 = if w < i { w } else { w - 1 };
        assert(s1[w1].id == k);
    }
    assert forall|k: usize| #[trigger]
        has_id(s1, k) implies map_of(s1)[k] == map_of(s).remove(id)[k] by {
        let w = entry_index(s1, k);
        assert(0 <= w < s1.len() && s1[w].id == k);
        lemma_handle_at_unique(s1, w);
        let w0 = if w < i { w } else { w + 1 };
        assert(s1[w] == s[w0]);
        lemma_handle_at_unique(s, w0);
    }
    assert(map_of(s1) =~= map_of(s).remove(id));
}

/// When every entry keeps its identity and its handle takes one delivery
/// step, the session map takes the corresponding broadcast step.
pub proof fn lemma_map_deliver(s0: Seq<SessionEntry>, s1: Seq<SessionEntry>, p: Seq<char>)
    requires
        ids(s0).no_duplicates(),
        s1.len() == s0.len(),
        forall|j: int| 0 <= j < s0.len() ==> (#[trigger] s1[j].id) == s0[j].id,
        forall|j: int| 0 <= j < s0.len() ==> (#[trigger] s1[j].addr)@ == deliver_one(
            s0[j].addr@,
            p,
        ),
    ensures
        ids(s1).no_duplicates(),
        map_of(s1) == spec_broadcast(map_of(s0), p),
{
    assert(ids(s1) =~= ids(s0));
    assert forall|k: usize| #[trigger] has_id(s1, k) implies has_id(s0, k) by {
        let w = choose|w: int| 0 <= w < s1.len() && (#[trigger] s1[w].id) == k;
        assert(s0[w].id == k);
    }
    assert forall|k: usize| has_id(s0, k) implies has_id(s1, k) by {
        let w = choose|w: int| 0 <= w < s0.len() && (#[trigger] s0[w].id) == k;
        assert(s1[w].id == k);
    }
    assert forall|k: usize| #[trigger]
        has_id(s1, k) implies map_of(s1)[k] == spec_broadcast(map_of(s0), p)[k] by {
        let w = entry_index(s1, k);
        assert(0 <= w < s1.len() && s1[w].id == k);
        lemma_handle_at_unique(s1, w);
        lemma_handle_at_unique(s0, w);
        assert(handle_at(s1, k) == deliver_one(handle_at(s0, k), p));
    }
    assert(map_of(s1) =~= spec_broadcast(map_of(s0), p));
}

/// The single shared router.  One instance exists for the lifetime of the
/// server; every session reaches it only through `ServerEvent`s, and each
/// event appears atomic with respect to the others.
pub struct ChatServer {
    pub sessions: Vec<SessionEntry>,
}

impl View for ChatServer {
    type V = Map<usize, HandleView>;

    /// The registry's content: which identities are registered, and the
    /// state of each one's outbound handle.
    open spec fn view(&self) -> Map<usize, HandleView> {
        map_of(self.sessions@)
    }
}

impl ChatServer {
    /// Well-formedness: each identity is registered at most once.
    pub open spec fn wf(self) -> bool {
        ids(self.sessions@).no_duplicates()
    }

    /// An empty registry: nobody is connected.
    pub fn new() -> (s: Self)
        ensures
            s.wf(),
            s@ == Map::<usize, HandleView>::empty(),
    {
        let s = ChatServer { sessions: Vec::new() };
        proof {
            assert(s@ =~= Map::<usize, HandleView>::empty());
        }
        s
    }

    /// Registers `id` with the given outbound handle.  A second connect for
    /// an id that is already registered is a caller bug; it is absorbed as a
    /// defensive overwrite, last writer wins.
    pub fn connect(&mut self, id: usize, addr: OutboundHandle)
        requires
            old(self).wf(),
        ensures
            final(self).wf(),
            final(self)@ == old(self)@.insert(id, addr@),
    {
        let ghost s0 = self.sessions@;
        let ghost h = addr@;
        let mut i: usize = 0;
        while i < self.sessions.len()
            invariant
                self.sessions@ == s0,
                old(self).sessions@ == s0,
                ids(s0).no_duplicates(),
                addr@ == h,
                0 <= i <= s0.len(),
                forall|k: int| 0 <= k < i ==> (#[trigger] s0[k].id) != id,
            decreases s0.len() - i,
        {
            if self.sessions[i].id == id {
                self.sessions[i] = SessionEntry { id, addr };
                proof {
                    let e = self.sessions@[i as int];
                    assert(e.id == id && e.addr@ == h);
                    assert(self.sessions@ == s0.update(i as int, e));
                    lemma_map_update(s0, i as int, e);
                }
                return;
            }
            i += 1;
        }
        proof {
            assert(!has_id(s0, id));
        }
        self.sessions.push(SessionEntry { id, addr });
        proof {
            let e = self.sessions@.last();
            assert(e.id == id && e.addr@ == h);
            assert(self.sessions@ == s0.push(e));
            lemma_map_push(s0, e);
        }
    }

    /// Removes `id` from the map.  Removing an id that was never registered,
    /// or was already removed, is a no-op: a session's at-least-once
    /// disconnect must not disturb the registry.
    pub fn disconnect(&mut self, id: usize)
        requires
            old(self).wf(),
        ensures
            final(self).wf(),
            final(self)@ == old(self)@.remove(id),
    {
        let ghost s0 = self.sessions@;
        let mut i: usize = 0;
        while i < self.sessions.len()
            invariant
                self.sessions@ == s0,
                old(self).sessions@ == s0,
                ids(s0).no_duplicates(),
                0 <= i <= s0.len(),
                forall|k: int| 0 <= k < i ==> (#[trigger] s0[k].id) != id,
            decreases s0.len() - i,
        {
            if self.sessions[i].id == id {
                self.sessions.remove(i);
                proof {
                    lemma_map_remove_at(s0, i as int);
                }
                return;
            }
            i += 1;
        }
        proof {
            assert(!has_id(s0, id));
            assert(old(self)@.remove(id) =~= old(self)@);
        }
    }

    /// Fans `msg` out to every registered session: exactly one write attempt
    /// per recipient, the sender excluded from nothing, and one dead
    /// transport neither stops the rest nor surfaces as an error.
    pub fn broadcast(&mut self, msg: &ChatMessage)
        requires
            old(self).wf(),
        ensures
            final(self).wf(),
            final(self)@ == spec_broadcast(old(self)@, msg@),
    {
        let ghost s0 = self.sessions@;
        let mut done: Vec<SessionEntry> = Vec::new();
        while self.sessions.len() > 0
            invariant
                old(self).sessions@ == s0,
                ids(s0).no_duplicates(),
                done@.len() + self.sessions@.len() == s0.len(),
                self.sessions@ == s0.skip(done@.len() as int),
                forall|j: int| 0 <= j < done@.len() ==> (#[trigger] done@[j].id) == s0[j].id,
                forall|j: int| 0 <= j < done@.len() ==> (#[trigger] done@[j].addr)@ == deliver_one(
                    s0[j].addr@,
                    msg@,
                ),
            decreases self.sessions@.len(),
        {
            let ghost k = done@.len() as int;
            let mut e = self.sessions.remove(0);
            proof {
                assert(e == s0.skip(k)[0]);
                assert(e == s0[k]);
                assert(self.sessions@ =~= s0.skip(k + 1));
            }
            let ghost a0 = e.addr@;
            let ghost att0 = e.addr.attempts@;
            e.addr.attempts.push(msg.0.clone());
            proof {
                lemma_views_of_push(att0, msg.0);
            }
            if e.addr.live {
                let ghost del0 = e.addr.delivered@;
                e.addr.delivered.push(msg.0.clone());
                proof {
                    lemma_views_of_push(del0, msg.0);
                }
            }
            proof {
                assert(e.addr@ == deliver_one(a0, msg@));
            }
            done.push(e);
        }
        proof {
            assert(self.sessions@.len() == 0);
            assert(done@.len() == s0.len());
            lemma_map_deliver(s0, done@, msg@);
        }
        self.sessions = done;
    }

    /// Applies one event of the protocol; this is the only door to the map.
    pub fn handle(&mut self, ev: ServerEvent)
        requires
            old(self).wf(),
        ensures
            final(self).wf(),
            final(self)@ == spec_apply(old(self)@, ev),
    {
        match ev {
            ServerEvent::Connect(c) => self.connect(c.id, c.addr),
            ServerEvent::Disconnect(d) => self.disconnect(d.id),
            ServerEvent::Message(m) => self.broadcast(&m),
        }
    }

    /// Whether `id` is currently registered.
    pub fn contains(&self, id: usize) -> (r: bool)
        ensures
            r == self@.dom().contains(id),
    {
        let mut i: usize = 0;
        while i < self.sessions.len()
            invariant
                0 <= i <= self.sessions@.len(),
                forall|k: int| 0 <= k < i ==> (#[trigger] self.sessions@[k].id) != id,
            decreases self.sessions@.len() - i,
        {
            if self.sessions[i].id == id {
                return true;
            }
            i += 1;
        }
        proof {
            assert(!has_id(self.sessions@, id));
        }
        false
    }

    /// How many sessions are registered.
    pub fn len(&self) -> (r: usize)
        requires
            self.wf(),
        ensures
            r == self@.dom().len(),
    {
        proof {
            lemma_dom_len(self.sessions@);
        }
        self.sessions.len()
    }

    /// The outbound handle registered for `id`, if any.
    pub fn handle_of(&self, id: usize) -> (r: Option<&OutboundHandle>)
        requires
            self.wf(),
        ensures
            match r {
                Some(h) => self@.dom().contains(id) && h@ == self@[id],
                None => !self@.dom().contains(id),
            },
    {
        let mut i: usize = 0;
        while i < self.sessions.len()
            invariant
                self.wf(),
                0 <= i <= self.sessions@.len(),
                forall|k: int| 0 <= k < i ==> (#[trigger] self.sessions@[k].id) != id,
            decreases self.sessions@.len() - i,
        {
            if self.sessions[i].id == id {
                proof {
                    lemma_handle_at_unique(self.sessions@, i as int);
                }
                return Some(&self.sessions[i].addr);
            }
            i += 1;
        }
        proof {
            assert(!has_id(self.sessions@, id));
        }
        None
    }
}

/// In a duplicate-free sequence of entries, the session map has exactly one
/// member per entry.
pub proof fn lemma_dom_len(s: Seq<SessionEntry>)
    requires
        ids(s).no_duplicates(),
    ensures
        map_of(s).dom().len() == s.len(),
        map_of(s).dom().finite(),
{
    assert forall|k: usize| #[trigger] has_id(s, k) implies ids(s).to_set().contains(k) by {
        let w = choose|w: int| 0 <= w < s.len() && (#[trigger] s[w].id) == k;
        assert(ids(s)[w] == k);
    }
    assert forall|k: usize| ids(s).to_set().contains(k) implies has_id(s, k) by {
        let w = choose|w: int| 0 <= w < ids(s).len() && ids(s)[w] == k;
        assert(s[w].id == k);
    }
    assert(map_of(s).dom() =~= ids(s).to_set());
    ids(s).unique_seq_to_set();
}

} // verus!

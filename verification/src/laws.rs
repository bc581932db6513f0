//! System-wide laws of the chat core, each stated over the registry's
//! mathematical session map and proved against the same spec functions that
//! the executable operations' contracts use.

use vstd::prelude::*;
use crate::messages::HandleView;
use crate::registry::{spec_apply, spec_broadcast};
use crate::messages::ServerEvent;

verus! {

/// The identity a membership event touches; a broadcast touches none.
pub open spec fn event_id(ev: ServerEvent) -> Option<usize> {
    match ev {
        ServerEvent::Connect(c) => Some(c.id),
        ServerEvent::Disconnect(d) => Some(d.id),
        ServerEvent::Message(_) => None,
    }
}

/// Disconnect is idempotent: removing an id that is not registered (never
/// connected, or already removed) leaves the session map — its membership
/// and so its size — unchanged, and only the first of repeated disconnects
/// for one id has any effect.
pub proof fn lemma_disconnect_idempotent(m: Map<usize, HandleView>, id: usize)
    ensures
        !m.dom().contains(id) ==> m.remove(id) == m,
        m.remove(id).remove(id) == m.remove(id),
{
    if !m.dom().contains(id) {
        assert(m.remove(id) =~= m);
    }
    assert(m.remove(id).remove(id) =~= m.remove(id));
}

/// Fan-out completeness: one broadcast leaves membership untouched and
/// hands every registered session — the sender excluded from nothing —
/// exactly one new write attempt carrying the payload verbatim.
pub proof fn lemma_fanout_complete(m: Map<usize, HandleView>, p: Seq<char>, id: usize)
    requires
        m.dom().contains(id),
    ensures
        spec_broadcast(m, p).dom() == m.dom(),
        spec_broadcast(m, p)[id].attempts == m[id].attempts.push(p),
        spec_broadcast(m, p)[id].attempts.len() == m[id].attempts.len() + 1,
        spec_broadcast(m, p)[id].attempts.last() == p,
{
    assert(spec_broadcast(m, p).dom() =~= m.dom());
}

/// Isolation under failure: a recipient whose transport is dead merely
/// records the failed attempt, while every other live recipient still gets
/// the payload; the broadcast itself never fails and membership stays as it
/// was.
pub proof fn lemma_failure_isolated(
    m: Map<usize, HandleView>,
    p: Seq<char>,
    bad: usize,
    id: usize,
)
    requires
        m.dom().contains(bad),
        !m[bad].live,
        m.dom().contains(id),
        id != bad,
        m[id].live,
    ensures
        spec_broadcast(m, p).dom() == m.dom(),
        spec_broadcast(m, p)[id].delivered == m[id].delivered.push(p),
        spec_broadcast(m, p)[bad].delivered == m[bad].delivered,
{
    assert(spec_broadcast(m, p).dom() =~= m.dom());
}

/// Per-sender FIFO: two broadcasts, handled in the order they were sent,
/// land in every live recipient's transport in that same order, after
/// whatever was delivered before.
pub proof fn lemma_per_sender_fifo(
    m: Map<usize, HandleView>,
    p1: Seq<char>,
    p2: Seq<char>,
    id: usize,
)
    requires
        m.dom().contains(id),
        m[id].live,
    ensures
        spec_broadcast(spec_broadcast(m, p1), p2)[id].delivered == m[id].delivered.push(p1).push(
            p2,
        ),
        spec_broadcast(spec_broadcast(m, p1), p2)[id].attempts == m[id].attempts.push(p1).push(
            p2,
        ),
{
}

/// No resurrection: a connect that follows the removal of the same id is a
/// fresh registration — the map is exactly what connecting into the
/// original map would give, and the id's entry is exactly the new handle,
/// merged with nothing from before the removal.
pub proof fn lemma_no_resurrection(m: Map<usize, HandleView>, id: usize, h: HandleView)
    ensures
        m.remove(id).insert(id, h) == m.insert(id, h),
        m.remove(id).insert(id, h)[id] == h,
{
    assert(m.remove(id).insert(id, h) =~= m.insert(id, h));
}

/// Membership events for distinct ids commute: two connects or disconnects
/// that touch different sessions yield the same map in either order, so a
/// concurrent batch serialised in any interleaving loses and duplicates
/// nothing.
pub proof fn lemma_distinct_ops_commute(
    m: Map<usize, HandleView>,
    ev1: ServerEvent,
    ev2: ServerEvent,
)
    requires
        event_id(ev1) is Some,
        event_id(ev2) is Some,
        event_id(ev1) != event_id(ev2),
    ensures
        spec_apply(spec_apply(m, ev1), ev2) == spec_apply(spec_apply(m, ev2), ev1),
{
    assert(spec_apply(spec_apply(m, ev1), ev2) =~= spec_apply(spec_apply(m, ev2), ev1));
}

/// The map after a whole batch of events, applied first to last.
pub open spec fn apply_all(m: Map<usize, HandleView>, evs: Seq<ServerEvent>) -> Map<
    usize,
    HandleView,
>
    decreases evs.len(),
{
    if evs.len() == 0 {
        m
    } else {
        apply_all(spec_apply(m, evs.first()), evs.drop_first())
    }
}

/// Whether some event of the batch touches `id`.
pub open spec fn touches(evs: Seq<ServerEvent>, id: usize) -> bool {
    exists|i: int| 0 <= i < evs.len() && event_id(#[trigger] evs[i]) == Some(id)
}

/// A batch of membership events for pairwise distinct ids.
pub open spec fn distinct_membership_ops(evs: Seq<ServerEvent>) -> bool {
    &&& forall|i: int| 0 <= i < evs.len() ==> event_id(#[trigger] evs[i]) is Some
    &&& forall|i: int, j: int|
        0 <= i < evs.len() && 0 <= j < evs.len() && i != j ==> event_id(#[trigger] evs[i])
            != event_id(#[trigger] evs[j])
}

/// Concurrent mutation safety: a batch of connects and disconnects for
/// pairwise distinct ids drives the registry to one final membership that
/// the batch alone determines — each connected id maps to its new handle,
/// each disconnected id is absent, every untouched id keeps its entry — so
/// every interleaving of the batch ends in the same map.
pub proof fn lemma_batch_order_independent(m: Map<usize, HandleView>, evs: Seq<ServerEvent>)
    requires
        distinct_membership_ops(evs),
    ensures
        forall|k: usize|
            !touches(evs, k) ==> apply_all(m, evs).dom().contains(k) == m.dom().contains(k),
        forall|k: usize|
            !touches(evs, k) && m.dom().contains(k) ==> apply_all(m, evs)[k] == m[k],
        forall|i: int|
            0 <= i < evs.len() ==> match #[trigger] evs[i] {
                ServerEvent::Connect(c) => apply_all(m, evs).dom().contains(c.id) && apply_all(
                    m,
                    evs,
                )[c.id] == c.addr@,
                ServerEvent::Disconnect(d) => !apply_all(m, evs).dom().contains(d.id),
                ServerEvent::Message(_) => true,
            },
    decreases evs.len(),
{
    if evs.len() == 0 {
    } else {
        let ev0 = evs.first();
        let rest = evs.drop_first();
        let m1 = spec_apply(m, ev0);
        assert forall|i: int| 0 <= i < rest.len() implies #[trigger] rest[i] == evs[i + 1] by {}
        lemma_batch_order_independent(m1, rest);
        let id0 = event_id(ev0).unwrap();
        assert(!touches(rest, id0)) by {
            if touches(rest, id0) {
                let w = choose|w: int|
                    0 <= w < rest.len() && event_id(#[trigger] rest[w]) == Some(id0);
                assert(event_id(evs[w + 1]) == event_id(evs[0]));
            }
        }
        assert forall|k: usize| !touches(evs, k) implies !touches(rest, k) && event_id(ev0)
            != Some(k) by {
            if touches(rest, k) {
                let w = choose|w: int|
                    0 <= w < rest.len() && event_id(#[trigger] rest[w]) == Some(k);
                assert(event_id(evs[w + 1]) == Some(k));
            }
            assert(event_id(evs[0]) != Some(k));
        }
        assert forall|i: int|
            0 <= i < evs.len() implies match #[trigger] evs[i] {
                ServerEvent::Connect(c) => apply_all(m, evs).dom().contains(c.id) && apply_all(
                    m,
                    evs,
                )[c.id] == c.addr@,
                ServerEvent::Disconnect(d) => !apply_all(m, evs).dom().contains(d.id),
                ServerEvent::Message(_) => true,
            } by {
            if i == 0 {
                assert(apply_all(m, evs) == apply_all(m1, rest));
                match ev0 {
                    ServerEvent::Connect(c) => {
                        assert(m1.dom().contains(c.id) && m1[c.id] == c.addr@);
                    },
                    ServerEvent::Disconnect(d) => {
                        assert(!m1.dom().contains(d.id));
                    },
                    ServerEvent::Message(_) => {},
                }
            } else {
                assert(evs[i] == rest[i - 1]);
            }
        }
    }
}

} // verus!

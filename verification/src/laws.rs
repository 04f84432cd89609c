//! The guarantees the exclusivity mechanism provides, proved over the
//! abstract state.
//!
//! Each law starts from a *flushed* state whose `(entity, group)` projection
//! is *coherent* — tracker and present members agree — performs top-level
//! mutations, flushes, and concludes what holds afterwards.  Coherence is the
//! tracker-correctness guarantee itself: the slot names the one present
//! member, or is absent when none is.
//!
//! Coherence is a hypothesis and not an unconditional invariant because the
//! tracker entry is created *lazily*, through the deferred queue: when two
//! members of one group are inserted on an entity whose slot does not exist
//! yet, both insert reactions see the slot absent, neither evicts, and both
//! members stay present after the flush.  The laws therefore describe every
//! sequence that starts from a settled slot, and
//! [`law_reinsert_churn`] pins the deliberate quirk of re-inserting the
//! recorded owner.

use vstd::prelude::*;
use crate::ops::Op;
use crate::state::{
    apply_front, flush_state, flushed, group_of, groups_consistent, has, members_present,
    step_insert, step_remove, tracker_of, StateView,
};

verus! {

/// A settled `(e, g)` projection: the tracker slot is absent and no group
/// member is present, or it names `t` and `t` is the one member present.
pub open spec fn coherent(s: StateView, e: u64, g: u64) -> bool {
    match tracker_of(s, e, g) {
        None => members_present(s, e, g) == Set::<u64>::empty(),
        Some(t) => members_present(s, e, g) == set![t],
    }
}

/// Exclusivity: in a coherent state, at most one member of a group is
/// present on an entity.
pub proof fn law_exclusivity(s: StateView, e: u64, g: u64, h1: u64, h2: u64)
    requires
        coherent(s, e, g),
        members_present(s, e, g).contains(h1),
        members_present(s, e, g).contains(h2),
    ensures
        h1 == h2,
{
    match tracker_of(s, e, g) {
        None => {},
        Some(t) => {
            assert(h1 == t && h2 == t);
        },
    }
}

/// Tracker correctness, presence direction: in a coherent state, a present
/// group member is the recorded owner.
pub proof fn law_tracker_matches(s: StateView, e: u64, g: u64, h: u64)
    requires
        coherent(s, e, g),
        has(s, e, h),
        group_of(s, h) == Some(g),
    ensures
        tracker_of(s, e, g) == Some(h),
{
    assert(members_present(s, e, g).contains(h));
}

/// Tracker correctness, absence direction: in a coherent state with no group
/// member present, the tracker slot is absent.
pub proof fn law_tracker_absent(s: StateView, e: u64, g: u64)
    requires
        coherent(s, e, g),
        forall|h: u64| !(#[trigger] members_present(s, e, g).contains(h)),
    ensures
        tracker_of(s, e, g) == None::<u64>,
{
    match tracker_of(s, e, g) {
        None => {},
        Some(t) => {
            assert(members_present(s, e, g).contains(t));
        },
    }
}

/// First insertion: inserting a group member onto an entity whose slot is
/// settled and empty leaves, after the flush, exactly that member present and
/// the tracker naming it.  Nothing outside `(e, g)` moves.
pub proof fn law_first_insert(s: StateView, e: u64, g: u64, h: u64)
    requires
        flushed(s),
        coherent(s, e, g),
        tracker_of(s, e, g) == None::<u64>,
        group_of(s, h) == Some(g),
    ensures
        ({
            let s2 = flush_state(step_insert(s, e, h));
            &&& flushed(s2)
            &&& coherent(s2, e, g)
            &&& tracker_of(s2, e, g) == Some(h)
            &&& has(s2, e, h)
            &&& members_present(s2, e, g) == set![h]
            &&& s2.reg == s.reg
            &&& s2.spawned == s.spawned
            &&& forall|e2: u64, g2: u64|
                !(e2 == e && g2 == g) ==> tracker_of(s2, e2, g2) == tracker_of(s, e2, g2)
            &&& forall|e2: u64, h2: u64|
                !(e2 == e && h2 == h) ==> has(s2, e2, h2) == has(s, e2, h2)
        }),
{
    reveal_with_fuel(flush_state, 5);
    assert(!(has(s, e, h))) by {
        if has(s, e, h) {
            assert(members_present(s, e, g).contains(h));
        }
    }
    let s1 = step_insert(s, e, h);
    assert(s1.queue =~= seq![Op::CreateTracker { entity: e, group: g, handle: h }]);
    let s2 = apply_front(s1);
    assert(s2.queue =~= Seq::<Op>::empty());
    assert(flush_state(s1) == s2);
    assert(s2.trackers == s.trackers.insert((e, g), h));
    assert(s2.present == s.present.insert((e, h)));
    assert(members_present(s2, e, g) =~= set![h]) by {
        assert forall|h2: u64| members_present(s2, e, g).contains(h2) implies h2 == h by {
            if h2 != h {
                assert(has(s, e, h2));
                assert(members_present(s, e, g).contains(h2));
            }
        }
        assert(members_present(s2, e, g).contains(h));
    }
}

/// Eviction on insert: inserting member `b` while member `a` owns the
/// settled slot leaves, after the flush, `a` absent, `b` present, and the
/// tracker naming `b`.  Nothing outside `(e, g)` moves.
pub proof fn law_insert_evicts(s: StateView, e: u64, g: u64, a: u64, b: u64)
    requires
        flushed(s),
        coherent(s, e, g),
        tracker_of(s, e, g) == Some(a),
        group_of(s, b) == Some(g),
        b != a,
    ensures
        ({
            let s2 = flush_state(step_insert(s, e, b));
            &&& flushed(s2)
            &&& coherent(s2, e, g)
            &&& tracker_of(s2, e, g) == Some(b)
            &&& has(s2, e, b)
            &&& !(has(s2, e, a))
            &&& members_present(s2, e, g) == set![b]
            &&& s2.reg == s.reg
            &&& s2.spawned == s.spawned
            &&& forall|e2: u64, g2: u64|
                !(e2 == e && g2 == g) ==> tracker_of(s2, e2, g2) == tracker_of(s, e2, g2)
            &&& forall|e2: u64, h2: u64|
                !(e2 == e && (h2 == a || h2 == b)) ==> has(s2, e2, h2) == has(s, e2, h2)
        }),
{
    reveal_with_fuel(flush_state, 5);
    assert(members_present(s, e, g).contains(a));
    assert(group_of(s, a) == Some(g));
    assert(has(s, e, a));
    assert(!(has(s, e, b))) by {
        if has(s, e, b) {
            assert(members_present(s, e, g).contains(b));
        }
    }
    let s1 = step_insert(s, e, b);
    assert(s1.queue =~= seq![Op::EvictComponent { entity: e, handle: a }]);
    assert(s1.trackers == s.trackers.insert((e, g), b));
    assert(s1.present == s.present.insert((e, b)));
    let s2 = apply_front(s1);
    assert(has(StateView { queue: s1.queue.drop_first(), ..s1 }, e, a));
    assert(tracker_of(s1, e, g) == Some(b));
    assert(s2.queue =~= Seq::<Op>::empty());
    assert(s2.present == s.present.insert((e, b)).remove((e, a)));
    assert(s2.trackers == s1.trackers);
    assert(flush_state(s1) == s2);
    assert(members_present(s2, e, g) =~= set![b]) by {
        assert forall|h2: u64| members_present(s2, e, g).contains(h2) implies h2 == b by {
            if h2 != b {
                assert(has(s, e, h2));
                assert(members_present(s, e, g).contains(h2));
                assert(h2 == a);
            }
        }
        assert(members_present(s2, e, g).contains(b));
    }
}

/// Batch insertion order: inserting members `c` then `b` in one batch onto a
/// settled slot owned by `t` leaves, after the one flush, only the
/// last-processed member `b` present, with `t` and `c` evicted.
pub proof fn law_batch_insert_last_wins(s: StateView, e: u64, g: u64, t: u64, c: u64, b: u64)
    requires
        flushed(s),
        coherent(s, e, g),
        tracker_of(s, e, g) == Some(t),
        group_of(s, c) == Some(g),
        group_of(s, b) == Some(g),
        c != t,
        b != t,
        b != c,
    ensures
        ({
            let s2 = flush_state(step_insert(step_insert(s, e, c), e, b));
            &&& flushed(s2)
            &&& coherent(s2, e, g)
            &&& tracker_of(s2, e, g) == Some(b)
            &&& has(s2, e, b)
            &&& !(has(s2, e, c))
            &&& !(has(s2, e, t))
            &&& members_present(s2, e, g) == set![b]
        }),
{
    reveal_with_fuel(flush_state, 5);
    assert(members_present(s, e, g).contains(t));
    assert(group_of(s, t) == Some(g));
    assert(has(s, e, t));
    assert(!(has(s, e, c))) by {
        if has(s, e, c) {
            assert(members_present(s, e, g).contains(c));
        }
    }
    assert(!(has(s, e, b))) by {
        if has(s, e, b) {
            assert(members_present(s, e, g).contains(b));
        }
    }
    let u1 = step_insert(s, e, c);
    assert(u1.queue =~= seq![Op::EvictComponent { entity: e, handle: t }]);
    assert(u1.trackers == s.trackers.insert((e, g), c));
    assert(u1.present == s.present.insert((e, c)));
    assert(!(has(u1, e, b)));
    let u2 = step_insert(u1, e, b);
    assert(group_of(u1, b) == Some(g));
    assert(tracker_of(u1, e, g) == Some(c));
    assert(u2.queue =~= seq![
        Op::EvictComponent { entity: e, handle: t },
        Op::EvictComponent { entity: e, handle: c },
    ]) by {
        assert(u2.queue =~= u1.queue + seq![Op::EvictComponent { entity: e, handle: c }]);
    }
    assert(u2.trackers == u1.trackers.insert((e, g), b));
    assert(u2.present == u1.present.insert((e, b)));
    let v1 = apply_front(u2);
    assert(has(StateView { queue: u2.queue.drop_first(), ..u2 }, e, t));
    assert(tracker_of(u2, e, g) == Some(b));
    assert(v1.queue =~= seq![Op::EvictComponent { entity: e, handle: c }]);
    assert(v1.present == u2.present.remove((e, t)));
    let v2 = apply_front(v1);
    assert(has(StateView { queue: v1.queue.drop_first(), ..v1 }, e, c));
    assert(tracker_of(v1, e, g) == Some(b));
    assert(v2.queue =~= Seq::<Op>::empty());
    assert(v2.present == v1.present.remove((e, c)));
    assert(flush_state(u2) == v2) by {
        reveal_with_fuel(flush_state, 4);
    }
    let s2 = v2;
    assert(members_present(s2, e, g) =~= set![b]) by {
        assert forall|h2: u64| members_present(s2, e, g).contains(h2) implies h2 == b by {
            if h2 != b {
                assert(has(s, e, h2));
                assert(members_present(s, e, g).contains(h2));
                assert(h2 == t);
            }
        }
        assert(members_present(s2, e, g).contains(b));
    }
}

/// Cleanup on removal: removing the settled slot's sole owner, with no
/// superseding insertion, leaves the slot absent and no member present after
/// the flush.  Nothing outside `(e, g)` moves.
pub proof fn law_remove_cleans_tracker(s: StateView, e: u64, g: u64, t: u64)
    requires
        flushed(s),
        coherent(s, e, g),
        tracker_of(s, e, g) == Some(t),
    ensures
        ({
            let s2 = flush_state(step_remove(s, e, t));
            &&& flushed(s2)
            &&& coherent(s2, e, g)
            &&& tracker_of(s2, e, g) == None::<u64>
            &&& !(has(s2, e, t))
            &&& members_present(s2, e, g) == Set::<u64>::empty()
            &&& s2.reg == s.reg
            &&& s2.spawned == s.spawned
            &&& forall|e2: u64, g2: u64|
                !(e2 == e && g2 == g) ==> tracker_of(s2, e2, g2) == tracker_of(s, e2, g2)
            &&& forall|e2: u64, h2: u64|
                !(e2 == e && h2 == t) ==> has(s2, e2, h2) == has(s, e2, h2)
        }),
{
    reveal_with_fuel(flush_state, 5);
    assert(members_present(s, e, g).contains(t));
    assert(group_of(s, t) == Some(g));
    assert(has(s, e, t));
    let s1 = step_remove(s, e, t);
    assert(s1.queue =~= seq![Op::DeleteTracker { entity: e, group: g }]);
    assert(s1.present == s.present.remove((e, t)));
    let s2 = apply_front(s1);
    assert(s2.queue =~= Seq::<Op>::empty());
    assert(s2.trackers == s.trackers.remove((e, g)));
    assert(flush_state(s1) == s2);
    assert(members_present(s2, e, g) =~= Set::<u64>::empty()) by {
        assert forall|h2: u64| !(members_present(s2, e, g).contains(h2)) by {
            if members_present(s2, e, g).contains(h2) {
                assert(has(s, e, h2));
                assert(members_present(s, e, g).contains(h2));
            }
        }
    }
}

/// Removing a member that is not the recorded owner — typically the deferred
/// eviction a newer insertion scheduled, arriving as an independent removal —
/// leaves every tracker untouched.
pub proof fn law_remove_nonowner_keeps_tracker(s: StateView, e: u64, g: u64, t: u64, h: u64)
    requires
        flushed(s),
        tracker_of(s, e, g) == Some(t),
        group_of(s, h) == Some(g),
        h != t,
    ensures
        ({
            let s2 = flush_state(step_remove(s, e, h));
            &&& flushed(s2)
            &&& s2.trackers == s.trackers
            &&& !(has(s2, e, h))
            &&& forall|e2: u64, h2: u64|
                !(e2 == e && h2 == h) ==> has(s2, e2, h2) == has(s, e2, h2)
        }),
{
    reveal_with_fuel(flush_state, 5);
    let s1 = step_remove(s, e, h);
    if has(s, e, h) {
        assert(s1.queue =~= Seq::<Op>::empty());
        assert(flush_state(s1) == s1);
    } else {
        assert(flush_state(s1) == s1);
    }
}

/// Independent groups: inserting a member of group `g` never moves the
/// tracker of any other `(entity, group)` pair, nor the presence of any
/// component outside group `g` or outside entity `e`.
pub proof fn law_independent_groups(s: StateView, e: u64, g: u64, h: u64)
    requires
        flushed(s),
        groups_consistent(s),
        group_of(s, h) == Some(g),
    ensures
        ({
            let s2 = flush_state(step_insert(s, e, h));
            &&& flushed(s2)
            &&& s2.reg == s.reg
            &&& s2.spawned == s.spawned
            &&& forall|e2: u64, g2: u64|
                !(e2 == e && g2 == g) ==> tracker_of(s2, e2, g2) == tracker_of(s, e2, g2)
            &&& forall|e2: u64, h2: u64|
                e2 != e ==> has(s2, e2, h2) == has(s, e2, h2)
            &&& forall|h2: u64|
                group_of(s, h2) != Some(g) ==> has(s2, e, h2) == has(s, e, h2)
            &&& forall|e2: u64, g2: u64|
                !(e2 == e && g2 == g) ==> members_present(s2, e2, g2) == members_present(
                    s,
                    e2,
                    g2,
                )
        }),
{
    reveal_with_fuel(flush_state, 5);
    let s1 = step_insert(s, e, h);
    let s2 = flush_state(s1);
    if has(s, e, h) {
        assert(s2 == s);
    } else {
        match tracker_of(s, e, g) {
            None => {
                assert(s1.queue =~= seq![Op::CreateTracker { entity: e, group: g, handle: h }]);
                let v1 = apply_front(s1);
                assert(v1.queue =~= Seq::<Op>::empty());
                assert(flush_state(s1) == v1);
                assert(v1.trackers == s.trackers.insert((e, g), h));
                assert(v1.present == s.present.insert((e, h)));
            },
            Some(p) => {
                assert(s.trackers.dom().contains((e, g)));
                assert(group_of(s, s.trackers[(e, g)]) == Some(g));
                assert(group_of(s, p) == Some(g));
                assert(s1.queue =~= seq![Op::EvictComponent { entity: e, handle: p }]);
                assert(s1.trackers == s.trackers.insert((e, g), h));
                assert(s1.present == s.present.insert((e, h)));
                let v1 = apply_front(s1);
                let s1d = StateView { queue: s1.queue.drop_first(), ..s1 };
                if has(s1d, e, p) {
                    if tracker_of(s1d, e, g) == Some(p) {
                        // re-insertion of the recorded owner: the eviction also
                        // schedules the tracker entry's deletion
                        assert(v1.queue =~= seq![Op::DeleteTracker { entity: e, group: g }]);
                        assert(v1.present == s1.present.remove((e, p)));
                        let v2 = apply_front(v1);
                        assert(v2.queue =~= Seq::<Op>::empty());
                        assert(flush_state(s1) == v2);
                        assert(v2.trackers == s1.trackers.remove((e, g)));
                        assert(v2.present == s1.present.remove((e, p)));
                    } else {
                        assert(v1.queue =~= Seq::<Op>::empty());
                        assert(flush_state(s1) == v1);
                        assert(v1.trackers == s1.trackers);
                        assert(v1.present == s1.present.remove((e, p)));
                    }
                } else {
                    assert(v1.queue =~= Seq::<Op>::empty());
                    assert(flush_state(s1) == v1);
                    assert(v1.trackers == s1.trackers);
                    assert(v1.present == s1.present);
                }
            },
        }
    }
    assert forall|e2: u64, g2: u64| !(e2 == e && g2 == g) implies members_present(s2, e2, g2)
        =~= members_present(s, e2, g2) by {
        assert forall|h2: u64|
            members_present(s2, e2, g2).contains(h2) == members_present(s, e2, g2).contains(
                h2,
            ) by {
            if e2 == e {
                if group_of(s, h2) == Some(g2) {
                    assert(group_of(s, h2) != Some(g));
                }
            }
        }
    }
}

/// The re-insertion quirk, faithfully: removing the settled slot's owner and
/// re-inserting the same type before the flush ends with the fresh component
/// evicted and the slot gone — the insert reaction still saw the old tracker
/// value and scheduled the owner's eviction.
pub proof fn law_reinsert_churn(s: StateView, e: u64, g: u64, t: u64)
    requires
        flushed(s),
        coherent(s, e, g),
        tracker_of(s, e, g) == Some(t),
    ensures
        ({
            let s2 = flush_state(step_insert(step_remove(s, e, t), e, t));
            &&& flushed(s2)
            &&& coherent(s2, e, g)
            &&& tracker_of(s2, e, g) == None::<u64>
            &&& !(has(s2, e, t))
            &&& members_present(s2, e, g) == Set::<u64>::empty()
        }),
{
    reveal_with_fuel(flush_state, 5);
    assert(members_present(s, e, g).contains(t));
    assert(group_of(s, t) == Some(g));
    assert(has(s, e, t));
    let u1 = step_remove(s, e, t);
    assert(u1.queue =~= seq![Op::DeleteTracker { entity: e, group: g }]);
    assert(u1.present == s.present.remove((e, t)));
    assert(!(has(u1, e, t)));
    let u2 = step_insert(u1, e, t);
    assert(group_of(u1, t) == Some(g));
    assert(tracker_of(u1, e, g) == Some(t));
    assert(u2.queue =~= seq![
        Op::DeleteTracker { entity: e, group: g },
        Op::EvictComponent { entity: e, handle: t },
    ]) by {
        assert(u2.queue =~= u1.queue + seq![Op::EvictComponent { entity: e, handle: t }]);
    }
    assert(u2.trackers == s.trackers.insert((e, g), t));
    assert(u2.present == u1.present.insert((e, t)));
    let v1 = apply_front(u2);
    assert(v1.queue =~= seq![Op::EvictComponent { entity: e, handle: t }]);
    assert(v1.trackers == u2.trackers.remove((e, g)));
    let v2 = apply_front(v1);
    assert(has(StateView { queue: v1.queue.drop_first(), ..v1 }, e, t));
    assert(tracker_of(v1, e, g) == None::<u64>);
    assert(v2.queue =~= Seq::<Op>::empty());
    assert(v2.present == v1.present.remove((e, t)));
    assert(flush_state(u2) == v2);
    let s2 = v2;
    assert(members_present(s2, e, g) =~= Set::<u64>::empty()) by {
        assert forall|h2: u64| !(members_present(s2, e, g).contains(h2)) by {
            if members_present(s2, e, g).contains(h2) {
                assert(has(s, e, h2));
                assert(members_present(s, e, g).contains(h2));
            }
        }
    }
}

} // verus!

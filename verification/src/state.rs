//! The mathematical model of a component store with exclusivity groups.
//!
//! [`StateView`] is the abstract state: the group registry, the spawned
//! entities, which `(entity, component-type-handle)` pairs are present, the
//! per-entity per-group trackers, and the deferred mutation queue.  The
//! `step_*` functions give the exact meaning of a top-level insertion or
//! removal — including the reactions they trigger — and [`flush_state`] the
//! meaning of draining the queue.  The executable store in [`crate::store`]
//! is proved to follow these functions step for step.

use vstd::prelude::*;
use crate::ops::{insert_ops, insert_tracker_update, remove_ops, Op};

verus! {

/// The abstract state of a store.
#[verifier::ext_equal]
pub struct StateView {
    /// Which group each registered component type handle belongs to.
    pub reg: Map<u64, u64>,
    /// The entities handed out so far.
    pub spawned: Set<u64>,
    /// The `(entity, handle)` pairs present: entity `e` currently holds a
    /// component of type `h` exactly when `present.contains((e, h))`.
    pub present: Set<(u64, u64)>,
    /// The tracker entries: `(entity, group)` to the handle that owns the
    /// group's exclusivity slot on that entity.
    pub trackers: Map<(u64, u64), u64>,
    /// The deferred mutations, applied front first.
    pub queue: Seq<Op>,
    /// The next entity id to hand out.
    pub next: u64,
}

/// The group a handle is registered under, if any.
pub open spec fn group_of(s: StateView, h: u64) -> Option<u64> {
    if s.reg.dom().contains(h) {
        Some(s.reg[h])
    } else {
        None
    }
}

/// Whether entity `e` currently holds a component of type `h`.
pub open spec fn has(s: StateView, e: u64, h: u64) -> bool {
    s.present.contains((e, h))
}

/// The tracker entry for `(e, g)`, if any.
pub open spec fn tracker_of(s: StateView, e: u64, g: u64) -> Option<u64> {
    if s.trackers.dom().contains((e, g)) {
        Some(s.trackers[(e, g)])
    } else {
        None
    }
}

/// The members of group `g` present on entity `e`.
pub open spec fn members_present(s: StateView, e: u64, g: u64) -> Set<u64> {
    Set::new(|h: u64| has(s, e, h) && group_of(s, h) == Some(g))
}

/// Whether the deferred queue is empty.
pub open spec fn flushed(s: StateView) -> bool {
    s.queue.len() == 0
}

/// The state of a freshly created store.
pub open spec fn init_state() -> StateView {
    StateView {
        reg: Map::empty(),
        spawned: Set::empty(),
        present: Set::empty(),
        trackers: Map::empty(),
        queue: Seq::empty(),
        next: 0,
    }
}

/// Whether a queued mutation only creates tracker entries whose owner is
/// registered in the entry's own group.
pub open spec fn op_aligned(s: StateView, op: Op) -> bool {
    match op {
        Op::CreateTracker { entity, group, handle } => group_of(s, handle) == Some(group),
        _ => true,
    }
}

/// Every tracker entry, and every queued tracker creation, names an owner
/// registered in the entry's own group.  The store establishes this for every
/// reachable state; the independence law relies on it.
pub open spec fn groups_consistent(s: StateView) -> bool {
    &&& forall|k: (u64, u64)| #[trigger] s.trackers.dom().contains(k) ==> group_of(
        s,
        s.trackers[k],
    ) == Some(k.1)
    &&& forall|i: int| 0 <= i < s.queue.len() ==> op_aligned(s, #[trigger] s.queue[i])
}

/// A top-level insertion of a component of type `h` onto entity `e`.
///
/// Inserting a type that is already present only overwrites the component's
/// data, so no reaction fires and the state is unchanged.  Otherwise the pair
/// becomes present and, when `h` is registered, the insert reaction runs: it
/// overwrites the tracker slot in place when a prior owner exists, and defers
/// either the prior owner's eviction or the tracker entry's creation.
pub open spec fn step_insert(s: StateView, e: u64, h: u64) -> StateView {
    if has(s, e, h) {
        s
    } else {
        let s1 = StateView { present: s.present.insert((e, h)), ..s };
        match group_of(s, h) {
            None => s1,
            Some(g) => {
                let prior = tracker_of(s, e, g);
                let trackers = match insert_tracker_update(prior, h) {
                    Some(t) => s1.trackers.insert((e, g), t),
                    None => s1.trackers,
                };
                StateView { trackers, queue: s.queue + insert_ops(prior, e, g, h), ..s1 }
            },
        }
    }
}

/// A top-level removal of a component of type `h` from entity `e`.
///
/// Removing an absent type is a no-op.  Otherwise, when `h` is registered the
/// remove reaction runs first — it still sees the component present — and may
/// defer the deletion of a tracker entry that still names `h`; then the pair
/// stops being present.
pub open spec fn step_remove(s: StateView, e: u64, h: u64) -> StateView {
    if has(s, e, h) {
        let queue = match group_of(s, h) {
            None => s.queue,
            Some(g) => s.queue + remove_ops(tracker_of(s, e, g), e, g, h),
        };
        StateView { present: s.present.remove((e, h)), queue, ..s }
    } else {
        s
    }
}

/// Applying the queue's front mutation.
///
/// A deferred eviction is a removal like any other: its reaction runs and may
/// defer further work.  Tracker creation and deletion act on auxiliary state
/// only, so they trigger nothing.
pub open spec fn apply_front(s: StateView) -> StateView
    recommends
        s.queue.len() > 0,
{
    let op = s.queue[0];
    let s0 = StateView { queue: s.queue.drop_first(), ..s };
    match op {
        Op::CreateTracker { entity, group, handle } => StateView {
            trackers: s0.trackers.insert((entity, group), handle),
            ..s0
        },
        Op::DeleteTracker { entity, group } => StateView {
            trackers: s0.trackers.remove((entity, group)),
            ..s0
        },
        Op::EvictComponent { entity, handle } => step_remove(s0, entity, handle),
    }
}

/// The termination measure for flushing: an eviction may defer one tracker
/// deletion, so it weighs two; every other mutation weighs one.
pub open spec fn op_weight(op: Op) -> nat {
    match op {
        Op::EvictComponent { .. } => 2,
        _ => 1,
    }
}

/// The total weight of a queue.
pub open spec fn queue_weight(q: Seq<Op>) -> nat
    decreases q.len(),
{
    if q.len() == 0 {
        0
    } else {
        op_weight(q[0]) + queue_weight(q.drop_first())
    }
}

pub proof fn lemma_queue_weight_concat(a: Seq<Op>, b: Seq<Op>)
    ensures
        queue_weight(a + b) == queue_weight(a) + queue_weight(b),
    decreases a.len(),
{
    if a.len() == 0 {
        assert(a + b =~= b);
    } else {
        assert((a + b).drop_first() =~= a.drop_first() + b);
        lemma_queue_weight_concat(a.drop_first(), b);
    }
}

/// One queue step strictly shrinks the measure: the front op is consumed and
/// anything it defers weighs strictly less.
pub proof fn lemma_apply_front_weight(s: StateView)
    requires
        s.queue.len() > 0,
    ensures
        queue_weight(apply_front(s).queue) < queue_weight(s.queue),
{
    let q = s.queue;
    assert(queue_weight(q) == op_weight(q[0]) + queue_weight(q.drop_first()));
    let s0 = StateView { queue: q.drop_first(), ..s };
    match q[0] {
        Op::CreateTracker { .. } => {},
        Op::DeleteTracker { .. } => {},
        Op::EvictComponent { entity, handle } => {
            if has(s0, entity, handle) {
                match group_of(s0, handle) {
                    None => {},
                    Some(g) => {
                        let extra = remove_ops(tracker_of(s0, entity, g), entity, g, handle);
                        lemma_queue_weight_concat(q.drop_first(), extra);
                        if tracker_of(s0, entity, g) == Some(handle) {
                            assert(queue_weight(extra) == op_weight(extra[0]) + queue_weight(
                                extra.drop_first(),
                            ));
                            assert(queue_weight(extra.drop_first()) == 0);
                        } else {
                            assert(queue_weight(extra) == 0);
                        }
                    },
                }
            }
        },
    }
}

/// Draining the deferred queue, front first, until it is empty.
pub open spec fn flush_state(s: StateView) -> StateView
    decreases queue_weight(s.queue),
{
    if s.queue.len() == 0 {
        s
    } else {
        proof {
            lemma_apply_front_weight(s);
        }
        flush_state(apply_front(s))
    }
}

} // verus!

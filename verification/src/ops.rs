//! The two lifecycle reactions, as pure decisions.
//!
//! A reaction runs synchronously inside a component insertion or removal, so
//! it may not change the shape of the entity it runs on.  It therefore returns
//! the structural mutations it wants as [`Op`] values, to be appended to a
//! deferred queue and applied once the triggering mutation has completed.
//! Only the tracker's own value may be overwritten in place, since the tracker
//! is auxiliary per-entity state, not part of the entity's component shape.

use vstd::prelude::*;

verus! {

/// A structural mutation that a reaction schedules instead of applying while
/// a hook is running.
#[derive(Debug, PartialEq, Eq, Structural)]
pub enum Op {
    /// Create the tracker entry for `(entity, group)`, naming `handle` as the
    /// owner of the group's exclusivity slot.
    CreateTracker { entity: u64, group: u64, handle: u64 },
    /// Remove the component with type handle `handle` from `entity`.
    EvictComponent { entity: u64, handle: u64 },
    /// Delete the tracker entry for `(entity, group)`.
    DeleteTracker { entity: u64, group: u64 },
}

/// The in-place tracker update the insert reaction performs: when a prior
/// owner exists the slot is overwritten with the new member at once; when none
/// exists the slot is left alone and its creation is deferred instead.
pub open spec fn insert_tracker_update(prior: Option<u64>, inserted: u64) -> Option<u64> {
    match prior {
        Some(_) => Some(inserted),
        None => None,
    }
}

/// The mutations the insert reaction defers: eviction of the prior owner if
/// one exists, creation of the tracker entry otherwise.
pub open spec fn insert_ops(prior: Option<u64>, entity: u64, group: u64, inserted: u64) -> Seq<
    Op,
> {
    match prior {
        Some(p) => seq![Op::EvictComponent { entity, handle: p }],
        None => seq![Op::CreateTracker { entity, group, handle: inserted }],
    }
}

/// The mutations the remove reaction defers: deletion of the tracker entry
/// when the removed member is still the recorded owner (so no newer insertion
/// superseded it), nothing otherwise.
pub open spec fn remove_ops(prior: Option<u64>, entity: u64, group: u64, removed: u64) -> Seq<
    Op,
> {
    if prior == Some(removed) {
        seq![Op::DeleteTracker { entity, group }]
    } else {
        Seq::empty()
    }
}

/// What the insert reaction decided: a value to store into the tracker slot
/// right away (if any), and the mutations to defer.
pub struct InsertReaction {
    pub new_tracker: Option<u64>,
    pub ops: Vec<Op>,
}

/// Reaction to a member of `group` with type handle `inserted` arriving on
/// `entity`, given the tracker slot's prior value.
///
/// If a prior owner `p` exists, the slot is handed to `inserted` and `p`'s
/// eviction is deferred — even when `p == inserted`, so re-inserting the
/// recorded owner schedules the fresh component's own removal.  If the slot is
/// empty, its creation is deferred and nothing is evicted.
pub fn insert_reaction(prior: Option<u64>, entity: u64, group: u64, inserted: u64) -> (r:
    InsertReaction)
    ensures
        r.new_tracker == insert_tracker_update(prior, inserted),
        r.ops@ == insert_ops(prior, entity, group, inserted),
{
    match prior {
        Some(p) => {
            let mut ops: Vec<Op> = Vec::new();
            ops.push(Op::EvictComponent { entity, handle: p });
            proof {
                assert(ops@ =~= insert_ops(prior, entity, group, inserted));
            }
            InsertReaction { new_tracker: Some(inserted), ops }
        },
        None => {
            let mut ops: Vec<Op> = Vec::new();
            ops.push(Op::CreateTracker { entity, group, handle: inserted });
            proof {
                assert(ops@ =~= insert_ops(prior, entity, group, inserted));
            }
            InsertReaction { new_tracker: None, ops }
        },
    }
}

/// Reaction to a member of `group` with type handle `removed` leaving
/// `entity`, given the tracker slot's prior value.
///
/// When the slot still names `removed`, no newer insertion superseded it, so
/// the removal is an independent one and the stale tracker entry's deletion is
/// deferred.  In every other case — slot empty, or owned by a newer member
/// whose insertion scheduled this very removal — the tracker is left alone.
pub fn remove_reaction(prior: Option<u64>, entity: u64, group: u64, removed: u64) -> (ops: Vec<
    Op,
>)
    ensures
        ops@ == remove_ops(prior, entity, group, removed),
{
    let mut ops: Vec<Op> = Vec::new();
    if let Some(p) = prior {
        if p == removed {
            ops.push(Op::DeleteTracker { entity, group });
        }
    }
    proof {
        assert(ops@ =~= remove_ops(prior, entity, group, removed));
    }
    ops
}

} // verus!

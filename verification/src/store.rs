//! An executable component store with an observer registry.
//!
//! [`Store`] keeps entities, their components (as type handles), the group
//! registry, the per-entity per-group trackers and the deferred mutation
//! queue.  Top-level insertions and removals run the reactions of
//! [`crate::ops`] synchronously and defer the structural changes they decide
//! on; [`Store::flush`] applies the queue front first, running the remove
//! reaction again for every deferred eviction.  Every method is proved to
//! follow the abstract transitions of [`crate::state`] exactly.

use vstd::pervasive::VecAdditionalExecFns;
use vstd::prelude::*;
use crate::assoc::{
    assoc_map, lemma_assoc_absent, lemma_assoc_found, lemma_assoc_push, lemma_assoc_remove,
    lemma_assoc_update, lemma_to_set_push, lemma_to_set_remove, unique_elems, unique_keys,
};
use crate::ops::{insert_reaction, remove_reaction, Op};
use crate::state::{
    apply_front, flush_state, flushed, group_of, groups_consistent, has, init_state,
    lemma_apply_front_weight, op_aligned, queue_weight, step_insert, step_remove, tracker_of,
    StateView,
};

verus! {

/// Looks a handle up in the registry vector.
fn reg_lookup(v: &Vec<(u64, u64)>, k: u64) -> (r: Option<u64>)
    requires
        unique_keys(v@),
    ensures
        r == (if assoc_map(v@).dom().contains(k) {
            Some(assoc_map(v@)[k])
        } else {
            None::<u64>
        }),
{
    let mut i: usize = 0;
    while i < v.len()
        invariant
            unique_keys(v@),
            0 <= i <= v@.len(),
            forall|j: int| 0 <= j < i ==> (#[trigger] v@[j]).0 != k,
        decreases v@.len() - i,
    {
        if v[i].0 == k {
            proof {
                lemma_assoc_found(v@, i as int);
            }
            return Some(v[i].1);
        }
        i += 1;
    }
    proof {
        lemma_assoc_absent(v@, k);
    }
    None
}

/// Adds a registration, unless the handle is already registered.
fn reg_add(v: &mut Vec<(u64, u64)>, k: u64, g: u64) -> (ok: bool)
    requires
        unique_keys(old(v)@),
    ensures
        unique_keys(final(v)@),
        ok <==> !(assoc_map(old(v)@).dom().contains(k)),
        ok ==> assoc_map(final(v)@) == assoc_map(old(v)@).insert(k, g),
        !ok ==> final(v)@ == old(v)@,
{
    let mut i: usize = 0;
    while i < v.len()
        invariant
            unique_keys(v@),
            v@ == old(v)@,
            0 <= i <= v@.len(),
            forall|j: int| 0 <= j < i ==> (#[trigger] v@[j]).0 != k,
        decreases v@.len() - i,
    {
        if v[i].0 == k {
            proof {
                lemma_assoc_found(v@, i as int);
            }
            return false;
        }
        i += 1;
    }
    proof {
        lemma_assoc_absent(v@, k);
    }
    v.push((k, g));
    proof {
        lemma_assoc_push(old(v)@, k, g);
    }
    true
}

/// Looks the tracker entry for `(e, g)` up.
fn trk_lookup(v: &Vec<((u64, u64), u64)>, e: u64, g: u64) -> (r: Option<u64>)
    requires
        unique_keys(v@),
    ensures
        r == (if assoc_map(v@).dom().contains((e, g)) {
            Some(assoc_map(v@)[(e, g)])
        } else {
            None::<u64>
        }),
{
    let mut i: usize = 0;
    while i < v.len()
        invariant
            unique_keys(v@),
            0 <= i <= v@.len(),
            forall|j: int| 0 <= j < i ==> (#[trigger] v@[j]).0 != (e, g),
        decreases v@.len() - i,
    {
        if v[i].0.0 == e && v[i].0.1 == g {
            proof {
                assert(v@[i as int].0 == (e, g));
                lemma_assoc_found(v@, i as int);
            }
            return Some(v[i].1);
        }
        i += 1;
    }
    proof {
        lemma_assoc_absent(v@, (e, g));
    }
    None
}

/// Sets the tracker entry for `(e, g)` to `h`, creating it if needed.
fn trk_set(v: &mut Vec<((u64, u64), u64)>, e: u64, g: u64, h: u64)
    requires
        unique_keys(old(v)@),
    ensures
        unique_keys(final(v)@),
        assoc_map(final(v)@) == assoc_map(old(v)@).insert((e, g), h),
{
    let mut i: usize = 0;
    while i < v.len()
        invariant
            unique_keys(v@),
            v@ == old(v)@,
            0 <= i <= v@.len(),
            forall|j: int| 0 <= j < i ==> (#[trigger] v@[j]).0 != (e, g),
        decreases v@.len() - i,
    {
        if v[i].0.0 == e && v[i].0.1 == g {
            proof {
                assert(v@[i as int].0 == (e, g));
            }
            v.set(i, ((e, g), h));
            proof {
                lemma_assoc_update(old(v)@, i as int, h);
            }
            return ;
        }
        i += 1;
    }
    v.push(((e, g), h));
    proof {
        lemma_assoc_push(old(v)@, (e, g), h);
    }
}

/// Deletes the tracker entry for `(e, g)`, if present.
fn trk_delete(v: &mut Vec<((u64, u64), u64)>, e: u64, g: u64)
    requires
        unique_keys(old(v)@),
    ensures
        unique_keys(final(v)@),
        assoc_map(final(v)@) == assoc_map(old(v)@).remove((e, g)),
{
    let mut i: usize = 0;
    while i < v.len()
        invariant
            unique_keys(v@),
            v@ == old(v)@,
            0 <= i <= v@.len(),
            forall|j: int| 0 <= j < i ==> (#[trigger] v@[j]).0 != (e, g),
        decreases v@.len() - i,
    {
        if v[i].0.0 == e && v[i].0.1 == g {
            proof {
                assert(v@[i as int].0 == (e, g));
            }
            v.remove(i);
            proof {
                lemma_assoc_remove(old(v)@, i as int);
            }
            return ;
        }
        i += 1;
    }
    proof {
        lemma_assoc_absent(v@, (e, g));
        assert(assoc_map(v@).remove((e, g)) =~= assoc_map(v@));
    }
}

/// Whether the pair `(e, h)` is in the component vector.
fn set_contains(v: &Vec<(u64, u64)>, e: u64, h: u64) -> (r: bool)
    ensures
        r <==> v@.to_set().contains((e, h)),
{
    let mut i: usize = 0;
    while i < v.len()
        invariant
            0 <= i <= v@.len(),
            forall|j: int| 0 <= j < i ==> v@[j] != (e, h),
        decreases v@.len() - i,
    {
        if v[i].0 == e && v[i].1 == h {
            proof {
                assert(v@[i as int] == (e, h));
            }
            return true;
        }
        i += 1;
    }
    proof {
        if v@.contains((e, h)) {
            let j = choose|j: int| 0 <= j < v@.len() && v@[j] == (e, h);
            assert(false);
        }
    }
    false
}

/// Adds the pair `(e, h)`, which must be absent.
fn set_add(v: &mut Vec<(u64, u64)>, e: u64, h: u64)
    requires
        unique_elems(old(v)@),
        !(old(v)@.to_set().contains((e, h))),
    ensures
        unique_elems(final(v)@),
        final(v)@.to_set() == old(v)@.to_set().insert((e, h)),
{
    v.push((e, h));
    proof {
        lemma_to_set_push(old(v)@, (e, h));
        assert(unique_elems(v@)) by {
            assert(forall|j: int| 0 <= j < old(v)@.len() ==> v@[j] == old(v)@[j]);
            assert forall|j: int| 0 <= j < old(v)@.len() implies old(v)@[j] != (e, h) by {
                if old(v)@[j] == (e, h) {
                    assert(old(v)@.contains((e, h)));
                }
            }
        }
    }
}

/// Deletes the pair `(e, h)`, if present.
fn set_delete(v: &mut Vec<(u64, u64)>, e: u64, h: u64)
    requires
        unique_elems(old(v)@),
    ensures
        unique_elems(final(v)@),
        final(v)@.to_set() == old(v)@.to_set().remove((e, h)),
{
    let mut i: usize = 0;
    while i < v.len()
        invariant
            unique_elems(v@),
            v@ == old(v)@,
            0 <= i <= v@.len(),
            forall|j: int| 0 <= j < i ==> v@[j] != (e, h),
        decreases v@.len() - i,
    {
        if v[i].0 == e && v[i].1 == h {
            proof {
                assert(v@[i as int] == (e, h));
            }
            v.remove(i);
            proof {
                lemma_to_set_remove(old(v)@, i as int);
            }
            return ;
        }
        i += 1;
    }
    proof {
        if v@.contains((e, h)) {
            let j = choose|j: int| 0 <= j < v@.len() && v@[j] == (e, h);
            assert(false);
        }
        assert(v@.to_set().remove((e, h)) =~= v@.to_set());
    }
}

/// A component store with exclusivity groups.
pub struct Store {
    registry: Vec<(u64, u64)>,
    spawned: Vec<u64>,
    present: Vec<(u64, u64)>,
    trackers: Vec<((u64, u64), u64)>,
    queue: Vec<Op>,
    next_entity: u64,
}

impl View for Store {
    type V = StateView;

    closed spec fn view(&self) -> StateView {
        StateView {
            reg: assoc_map(self.registry@),
            spawned: self.spawned@.to_set(),
            present: self.present@.to_set(),
            trackers: assoc_map(self.trackers@),
            queue: self.queue@,
            next: self.next_entity,
        }
    }
}

impl Store {
    /// The store's invariant: the vectors are duplicate-free, entity ids stay
    /// below the next one to hand out, and every tracker entry or queued
    /// tracker creation names a handle registered in its own group.
    pub closed spec fn inv(&self) -> bool {
        &&& unique_keys(self.registry@)
        &&& unique_elems(self.spawned@)
        &&& unique_elems(self.present@)
        &&& unique_keys(self.trackers@)
        &&& forall|i: int|
            0 <= i < self.spawned@.len() ==> #[trigger] self.spawned@[i] < self.next_entity
        &&& groups_consistent(self@)
    }

    /// The invariant keeps every reachable state consistent about groups,
    /// which the independence law takes as a hypothesis.
    pub proof fn lemma_inv_groups_consistent(&self)
        requires
            self.inv(),
        ensures
            groups_consistent(self@),
    {
    }

    /// An empty store.
    pub fn new() -> (s: Store)
        ensures
            s.inv(),
            s@ == init_state(),
    {
        let s = Store {
            registry: Vec::new(),
            spawned: Vec::new(),
            present: Vec::new(),
            trackers: Vec::new(),
            queue: Vec::new(),
            next_entity: 0,
        };
        proof {
            assert(s@ =~= init_state());
        }
        s
    }

    /// Registers `handle` as a member of `group`.
    ///
    /// Registration is write-once per handle: a handle already registered —
    /// even to the same group — is refused, the store is unchanged, and the
    /// caller sees the setup error as `false`.
    pub fn register(&mut self, handle: u64, group: u64) -> (ok: bool)
        requires
            old(self).inv(),
        ensures
            final(self).inv(),
            ok <==> !(old(self)@.reg.dom().contains(handle)),
            ok ==> final(self)@ == (StateView {
                reg: old(self)@.reg.insert(handle, group),
                ..old(self)@
            }),
            !ok ==> final(self)@ == old(self)@,
    {
        let ghost s0 = self@;
        let ok = reg_add(&mut self.registry, handle, group);
        proof {
            if ok {
                assert(self@ =~= (StateView { reg: s0.reg.insert(handle, group), ..s0 }));
                assert(groups_consistent(self@)) by {
                    assert forall|k: (u64, u64)| #[trigger] self@.trackers.dom().contains(k)
                        implies group_of(self@, self@.trackers[k]) == Some(k.1) by {
                        let t = s0.trackers[k];
                        assert(group_of(s0, t) == Some(k.1));
                        assert(t != handle);
                    }
                    assert forall|i: int| 0 <= i < self@.queue.len() implies op_aligned(
                        self@,
                        #[trigger] self@.queue[i],
                    ) by {
                        assert(op_aligned(s0, s0.queue[i]));
                        match s0.queue[i] {
                            Op::CreateTracker { entity, group: g2, handle: h2 } => {
                                assert(h2 != handle);
                            },
                            _ => {},
                        }
                    }
                }
            } else {
                assert(self@ =~= s0);
            }
        }
        ok
    }

    /// Spawns a fresh entity and returns its id.
    pub fn spawn(&mut self) -> (e: u64)
        requires
            old(self).inv(),
            old(self)@.next < u64::MAX,
        ensures
            final(self).inv(),
            e == old(self)@.next,
            !(old(self)@.spawned.contains(e)),
            final(self)@ == (StateView {
                spawned: old(self)@.spawned.insert(e),
                next: (old(self)@.next + 1) as u64,
                ..old(self)@
            }),
    {
        let ghost s0 = self@;
        let e = self.next_entity;
        proof {
            if s0.spawned.contains(e) {
                let j = choose|j: int|
                    0 <= j < self.spawned@.len() && self.spawned@[j] == e;
                assert(self.spawned@[j] < self.next_entity);
                assert(false);
            }
        }
        self.spawned.push(e);
        self.next_entity = e + 1;
        proof {
            lemma_to_set_push(old(self).spawned@, e);
            assert(unique_elems(self.spawned@)) by {
                assert(forall|j: int|
                    0 <= j < old(self).spawned@.len() ==> self.spawned@[j] == old(
                        self,
                    ).spawned@[j]);
                assert(forall|j: int|
                    0 <= j < old(self).spawned@.len() ==> #[trigger] old(self).spawned@[j] < e);
            }
            assert(self@ =~= (StateView {
                spawned: s0.spawned.insert(e),
                next: (s0.next + 1) as u64,
                ..s0
            }));
            assert(groups_consistent(self@)) by {
                assert forall|k: (u64, u64)| #[trigger] self@.trackers.dom().contains(k)
                    implies group_of(self@, self@.trackers[k]) == Some(k.1) by {
                    assert(group_of(s0, s0.trackers[k]) == Some(k.1));
                }
                assert forall|i: int| 0 <= i < self@.queue.len() implies op_aligned(
                    self@,
                    #[trigger] self@.queue[i],
                ) by {
                    assert(op_aligned(s0, s0.queue[i]));
                }
            }
        }
        e
    }

    /// The group `handle` is registered under, if any.
    pub fn registered_group(&self, handle: u64) -> (r: Option<u64>)
        requires
            self.inv(),
        ensures
            r == group_of(self@, handle),
    {
        reg_lookup(&self.registry, handle)
    }

    /// Whether `entity` currently holds a component of type `handle`.
    pub fn has_component(&self, entity: u64, handle: u64) -> (r: bool)
        requires
            self.inv(),
        ensures
            r == has(self@, entity, handle),
    {
        set_contains(&self.present, entity, handle)
    }

    /// The tracker entry for `(entity, group)`, if any.
    pub fn tracker(&self, entity: u64, group: u64) -> (r: Option<u64>)
        requires
            self.inv(),
        ensures
            r == tracker_of(self@, entity, group),
    {
        trk_lookup(&self.trackers, entity, group)
    }

    /// How many deferred mutations are waiting to be flushed.
    pub fn pending(&self) -> (n: usize)
        ensures
            n == self@.queue.len(),
    {
        self.queue.len()
    }

    /// Inserts a component of type `handle` onto `entity` and runs the insert
    /// reaction, exactly as [`step_insert`] describes.
    pub fn insert(&mut self, entity: u64, handle: u64)
        requires
            old(self).inv(),
            old(self)@.spawned.contains(entity),
        ensures
            final(self).inv(),
            final(self)@ == step_insert(old(self)@, entity, handle),
    {
        let ghost s0 = self@;
        let already = set_contains(&self.present, entity, handle);
        if already {
            proof {
                assert(self@ == step_insert(s0, entity, handle));
            }
            return ;
        }
        set_add(&mut self.present, entity, handle);
        let group = reg_lookup(&self.registry, handle);
        match group {
            None => {
                proof {
                    assert(self@ =~= step_insert(s0, entity, handle));
                }
            },
            Some(g) => {
                let prior = trk_lookup(&self.trackers, entity, g);
                let r = insert_reaction(prior, entity, g, handle);
                let new_tracker = r.new_tracker;
                let mut ops = r.ops;
                if let Some(t) = new_tracker {
                    trk_set(&mut self.trackers, entity, g, t);
                }
                self.queue.append(&mut ops);
                proof {
                    assert(self@ =~= step_insert(s0, entity, handle));
                    assert(groups_consistent(self@)) by {
                        self.lemma_alignment_after_insert(s0, entity, handle, g, prior);
                    }
                }
            },
        }
    }

    /// Removes a component of type `handle` from `entity` and runs the remove
    /// reaction, exactly as [`step_remove`] describes.
    pub fn remove(&mut self, entity: u64, handle: u64)
        requires
            old(self).inv(),
            old(self)@.spawned.contains(entity),
        ensures
            final(self).inv(),
            final(self)@ == step_remove(old(self)@, entity, handle),
    {
        self.remove_core(entity, handle);
    }

    /// The removal path shared by top-level removals and deferred evictions.
    fn remove_core(&mut self, entity: u64, handle: u64)
        requires
            old(self).inv(),
        ensures
            final(self).inv(),
            final(self)@ == step_remove(old(self)@, entity, handle),
    {
        let ghost s0 = self@;
        let present_now = set_contains(&self.present, entity, handle);
        if present_now {
            let group = reg_lookup(&self.registry, handle);
            if let Some(g) = group {
                let prior = trk_lookup(&self.trackers, entity, g);
                let mut ops = remove_reaction(prior, entity, g, handle);
                self.queue.append(&mut ops);
            }
            set_delete(&mut self.present, entity, handle);
            proof {
                assert(self@ =~= step_remove(s0, entity, handle));
                assert(groups_consistent(self@)) by {
                    assert forall|k: (u64, u64)| #[trigger] self@.trackers.dom().contains(k)
                        implies group_of(self@, self@.trackers[k]) == Some(k.1) by {
                        assert(group_of(s0, s0.trackers[k]) == Some(k.1));
                    }
                    assert forall|i: int| 0 <= i < self@.queue.len() implies op_aligned(
                        self@,
                        #[trigger] self@.queue[i],
                    ) by {
                        if i < s0.queue.len() {
                            assert(op_aligned(s0, s0.queue[i]));
                        }
                    }
                }
            }
        } else {
            proof {
                assert(self@ == step_remove(s0, entity, handle));
            }
        }
    }

    /// Alignment bookkeeping for [`Store::insert`].
    proof fn lemma_alignment_after_insert(
        &self,
        s0: StateView,
        entity: u64,
        handle: u64,
        g: u64,
        prior: Option<u64>,
    )
        requires
            groups_consistent(s0),
            self@.reg == s0.reg,
            group_of(s0, handle) == Some(g),
            prior == tracker_of(s0, entity, g),
            self@.trackers == (match prior {
                Some(_) => s0.trackers.insert((entity, g), handle),
                None => s0.trackers,
            }),
            self@.queue == s0.queue + crate::ops::insert_ops(prior, entity, g, handle),
        ensures
            groups_consistent(self@),
    {
        assert forall|k: (u64, u64)| #[trigger] self@.trackers.dom().contains(k)
            implies group_of(self@, self@.trackers[k]) == Some(k.1) by {
            if prior is Some && k == (entity, g) {
                assert(group_of(self@, handle) == Some(g));
            } else {
                assert(s0.trackers.dom().contains(k));
                assert(group_of(s0, s0.trackers[k]) == Some(k.1));
            }
        }
        assert forall|i: int| 0 <= i < self@.queue.len() implies op_aligned(
            self@,
            #[trigger] self@.queue[i],
        ) by {
            if i < s0.queue.len() {
                assert(op_aligned(s0, s0.queue[i]));
                assert(self@.queue[i] == s0.queue[i]);
            } else {
                assert(self@.queue[i] == crate::ops::insert_ops(prior, entity, g, handle)[i
                    - s0.queue.len()]);
            }
        }
    }

    /// Applies the queue's front mutation, exactly as [`apply_front`]
    /// describes.
    fn apply_one(&mut self)
        requires
            old(self).inv(),
            old(self)@.queue.len() > 0,
        ensures
            final(self).inv(),
            final(self)@ == apply_front(old(self)@),
    {
        let ghost s0 = self@;
        let op = self.queue.remove(0);
        proof {
            assert(self.queue@ =~= s0.queue.drop_first());
            assert(self.inv()) by {
                assert(groups_consistent(self@)) by {
                    assert forall|k: (u64, u64)| #[trigger] self@.trackers.dom().contains(k)
                        implies group_of(self@, self@.trackers[k]) == Some(k.1) by {
                        assert(group_of(s0, s0.trackers[k]) == Some(k.1));
                    }
                    assert forall|i: int| 0 <= i < self@.queue.len() implies op_aligned(
                        self@,
                        #[trigger] self@.queue[i],
                    ) by {
                        assert(self@.queue[i] == s0.queue[i + 1]);
                        assert(op_aligned(s0, s0.queue[i + 1]));
                    }
                }
            }
        }
        let ghost s1 = self@;
        match op {
            Op::CreateTracker { entity, group, handle } => {
                trk_set(&mut self.trackers, entity, group, handle);
                proof {
                    assert(self@ =~= apply_front(s0));
                    assert(groups_consistent(self@)) by {
                        assert(op_aligned(s0, s0.queue[0]));
                        assert forall|k: (u64, u64)| #[trigger] self@.trackers.dom().contains(k)
                            implies group_of(self@, self@.trackers[k]) == Some(k.1) by {
                            if k != (entity, group) {
                                assert(s1.trackers.dom().contains(k));
                                assert(group_of(s1, s1.trackers[k]) == Some(k.1));
                            }
                        }
                        assert forall|i: int| 0 <= i < self@.queue.len() implies op_aligned(
                            self@,
                            #[trigger] self@.queue[i],
                        ) by {
                            assert(op_aligned(s1, s1.queue[i]));
                        }
                    }
                }
            },
            Op::DeleteTracker { entity, group } => {
                trk_delete(&mut self.trackers, entity, group);
                proof {
                    assert(self@ =~= apply_front(s0));
                    assert(groups_consistent(self@)) by {
                        assert forall|k: (u64, u64)| #[trigger] self@.trackers.dom().contains(k)
                            implies group_of(self@, self@.trackers[k]) == Some(k.1) by {
                            assert(s1.trackers.dom().contains(k));
                            assert(group_of(s1, s1.trackers[k]) == Some(k.1));
                        }
                        assert forall|i: int| 0 <= i < self@.queue.len() implies op_aligned(
                            self@,
                            #[trigger] self@.queue[i],
                        ) by {
                            assert(op_aligned(s1, s1.queue[i]));
                        }
                    }
                }
            },
            Op::EvictComponent { entity, handle } => {
                self.remove_core(entity, handle);
                proof {
                    assert(self@ == apply_front(s0));
                }
            },
        }
    }

    /// Applies every deferred mutation, front first, until the queue is
    /// empty — including the ones deferred while flushing.
    pub fn flush(&mut self)
        requires
            old(self).inv(),
        ensures
            final(self).inv(),
            final(self)@ == flush_state(old(self)@),
            flushed(final(self)@),
    {
        let ghost orig = self@;
        while self.queue.len() != 0
            invariant
                self.inv(),
                flush_state(self@) == flush_state(orig),
            decreases queue_weight(self@.queue),
        {
            let ghost pre = self@;
            self.apply_one();
            proof {
                lemma_apply_front_weight(pre);
                assert(flush_state(pre) == flush_state(apply_front(pre)));
            }
        }
        proof {
            assert(flush_state(self@) == self@);
        }
    }
}

} // verus!

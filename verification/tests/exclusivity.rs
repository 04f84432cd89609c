use exclusive_components::ops::{insert_reaction, remove_reaction, Op};
use exclusive_components::store::Store;

#[test]
fn test_mutex_comps() {
    let mut store = Store::new();
    let g: u64 = 1;
    let other_g: u64 = 2;
    let a: u64 = 10;
    let b: u64 = 11;
    let c: u64 = 12;
    let x: u64 = 20;
    let y: u64 = 21;
    assert!(store.register(a, g), "A should be registered");
    assert!(store.register(b, g), "B should be registered");
    assert!(store.register(c, g));
    assert!(store.register(x, other_g));
    assert!(store.register(y, other_g));
    let e1 = store.spawn();
    store.insert(e1, a);
    store.flush();
    assert!(
        store.tracker(e1, g).is_some(),
        "e1 should have a LastMutexComp"
    );
    assert_eq!(
        store.tracker(e1, g).unwrap(),
        a,
        "e1's LastMutexComp compoment it should match A"
    );
    store.insert(e1, b);
    store.flush();
    assert!(!store.has_component(e1, a), "A should have been removed");
    assert!(store.has_component(e1, b), "A should be inserted");
    assert_eq!(
        store.tracker(e1, g).unwrap(),
        b,
        "e1's LastMutexComp compoment it should match B"
    );
    store.insert(e1, c);
    store.insert(e1, a);
    store.flush();
    assert!(!store.has_component(e1, b), "B should have been removed");
    assert!(!store.has_component(e1, c), "C should have been removed");
    assert!(store.has_component(e1, a), "A should be inserted");
    store.remove(e1, a);
    store.flush();
    assert!(
        store.tracker(e1, g).is_none(),
        "e1 should not have a LastMutexComp"
    );
}

#[test]
fn first_insert_creates_tracker() {
    let mut store = Store::new();
    assert!(store.register(10, 1));
    let e = store.spawn();
    store.insert(e, 10);
    assert_eq!(store.pending(), 1);
    assert!(store.tracker(e, 1).is_none());
    store.flush();
    assert!(store.has_component(e, 10));
    assert_eq!(store.tracker(e, 1), Some(10));
}

#[test]
fn insert_evicts_previous_owner() {
    let mut store = Store::new();
    assert!(store.register(10, 1));
    assert!(store.register(11, 1));
    let e = store.spawn();
    store.insert(e, 10);
    store.flush();
    store.insert(e, 11);
    store.flush();
    assert!(!store.has_component(e, 10));
    assert!(store.has_component(e, 11));
    assert_eq!(store.tracker(e, 1), Some(11));
}

#[test]
fn batch_insert_keeps_last_processed() {
    let mut store = Store::new();
    assert!(store.register(10, 1));
    assert!(store.register(11, 1));
    assert!(store.register(12, 1));
    let e = store.spawn();
    store.insert(e, 10);
    store.flush();
    store.insert(e, 12);
    store.insert(e, 11);
    store.flush();
    assert!(!store.has_component(e, 10));
    assert!(!store.has_component(e, 12));
    assert!(store.has_component(e, 11));
    assert_eq!(store.tracker(e, 1), Some(11));
}

#[test]
fn remove_sole_owner_cleans_tracker() {
    let mut store = Store::new();
    assert!(store.register(10, 1));
    let e = store.spawn();
    store.insert(e, 10);
    store.flush();
    store.remove(e, 10);
    store.flush();
    assert!(!store.has_component(e, 10));
    assert_eq!(store.tracker(e, 1), None);
}

#[test]
fn remove_nonowner_keeps_tracker() {
    let mut store = Store::new();
    assert!(store.register(10, 1));
    assert!(store.register(11, 1));
    let e = store.spawn();
    store.insert(e, 10);
    store.flush();
    store.insert(e, 11);
    store.flush();
    store.remove(e, 10);
    store.flush();
    assert!(store.has_component(e, 11));
    assert_eq!(store.tracker(e, 1), Some(11));
}

#[test]
fn independent_groups_do_not_interact() {
    let mut store = Store::new();
    assert!(store.register(10, 1));
    assert!(store.register(20, 2));
    assert!(store.register(21, 2));
    let e = store.spawn();
    store.insert(e, 10);
    store.flush();
    store.insert(e, 20);
    store.flush();
    assert!(store.has_component(e, 10));
    assert!(store.has_component(e, 20));
    assert_eq!(store.tracker(e, 1), Some(10));
    assert_eq!(store.tracker(e, 2), Some(20));
    store.insert(e, 21);
    store.flush();
    assert!(store.has_component(e, 10));
    assert!(!store.has_component(e, 20));
    assert!(store.has_component(e, 21));
    assert_eq!(store.tracker(e, 1), Some(10));
    assert_eq!(store.tracker(e, 2), Some(21));
}

#[test]
fn entities_do_not_interact() {
    let mut store = Store::new();
    assert!(store.register(10, 1));
    assert!(store.register(11, 1));
    let e1 = store.spawn();
    let e2 = store.spawn();
    assert_ne!(e1, e2);
    store.insert(e1, 10);
    store.insert(e2, 11);
    store.flush();
    assert!(store.has_component(e1, 10));
    assert!(store.has_component(e2, 11));
    assert_eq!(store.tracker(e1, 1), Some(10));
    assert_eq!(store.tracker(e2, 1), Some(11));
}

#[test]
fn duplicate_registration_is_refused() {
    let mut store = Store::new();
    assert!(store.register(10, 1));
    assert!(!store.register(10, 1));
    assert!(!store.register(10, 2));
    assert_eq!(store.registered_group(10), Some(1));
}

#[test]
fn unregistered_component_is_untracked() {
    let mut store = Store::new();
    assert!(store.register(10, 1));
    let e = store.spawn();
    store.insert(e, 99);
    assert_eq!(store.pending(), 0);
    store.flush();
    assert!(store.has_component(e, 99));
    assert_eq!(store.tracker(e, 1), None);
}

#[test]
fn reinsert_while_present_is_noop() {
    let mut store = Store::new();
    assert!(store.register(10, 1));
    let e = store.spawn();
    store.insert(e, 10);
    store.flush();
    store.insert(e, 10);
    assert_eq!(store.pending(), 0);
    store.flush();
    assert!(store.has_component(e, 10));
    assert_eq!(store.tracker(e, 1), Some(10));
}

#[test]
fn reinsert_after_removal_churns() {
    // Removing the owner and re-inserting the same type before the flush
    // evicts the fresh component again: the insert reaction still saw the old
    // tracker value and scheduled the previous owner's eviction.
    let mut store = Store::new();
    assert!(store.register(10, 1));
    let e = store.spawn();
    store.insert(e, 10);
    store.flush();
    store.remove(e, 10);
    store.insert(e, 10);
    store.flush();
    assert!(!store.has_component(e, 10));
    assert_eq!(store.tracker(e, 1), None);
}

#[test]
fn lazy_tracker_lets_fresh_batch_coexist() {
    // The tracker entry is created through the deferred queue, so two members
    // inserted before the entity's first flush both see the slot absent and
    // neither evicts the other; the later creation wins the slot.
    let mut store = Store::new();
    assert!(store.register(10, 1));
    assert!(store.register(11, 1));
    let e = store.spawn();
    store.insert(e, 10);
    store.insert(e, 11);
    store.flush();
    assert!(store.has_component(e, 10));
    assert!(store.has_component(e, 11));
    assert_eq!(store.tracker(e, 1), Some(11));
}

#[test]
fn insert_reaction_defers_creation_on_empty_slot() {
    let r = insert_reaction(None, 7, 1, 10);
    assert_eq!(r.new_tracker, None);
    assert_eq!(
        r.ops,
        vec![Op::CreateTracker {
            entity: 7,
            group: 1,
            handle: 10
        }]
    );
}

#[test]
fn insert_reaction_evicts_prior_owner() {
    let r = insert_reaction(Some(10), 7, 1, 11);
    assert_eq!(r.new_tracker, Some(11));
    assert_eq!(
        r.ops,
        vec![Op::EvictComponent {
            entity: 7,
            handle: 10
        }]
    );
}

#[test]
fn remove_reaction_cleans_only_for_owner() {
    let owner = remove_reaction(Some(10), 7, 1, 10);
    assert_eq!(owner, vec![Op::DeleteTracker { entity: 7, group: 1 }]);
    let superseded = remove_reaction(Some(11), 7, 1, 10);
    assert!(superseded.is_empty());
    let untracked = remove_reaction(None, 7, 1, 10);
    assert!(untracked.is_empty());
}

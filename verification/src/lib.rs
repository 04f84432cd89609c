//! Mutual exclusion among groups of component types in an entity-component
//! store.
//!
//! Component types may be registered as members of a *group*; at most one
//! member of a group is meant to be present on an entity at a time.  A
//! per-entity, per-group *tracker* records which member currently owns the
//! slot.  Inserting a new member evicts the previous owner; removing the sole
//! owner cleans the tracker up.  Both reactions run while a mutation is in
//! flight, so every structural change they decide on is deferred to a queue
//! and applied at the next flush.
//!
//! The [`ops`] module holds the two reactions as pure decision functions, so
//! that a host runtime's insert/remove hooks can call them directly.  The
//! [`store`] module is a small component store with an observer registry that
//! drives those reactions itself, and [`laws`] proves the exclusivity and
//! cleanup guarantees over it.

pub mod assoc;
pub mod laws;
pub mod ops;
pub mod state;
pub mod store;

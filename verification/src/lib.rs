//! Lifetime bookkeeping for views reached through temporary owner handles.
//!
//! A view into a shared resource (a dynamic borrow of a checked cell, a lock
//! guard, a strong handle recovered from a weak reference) is only good while
//! the owner that produced it stays alive. This crate's subject is the
//! bundling discipline that makes such a pair safe to pass around: a `Nested`
//! bundle owns both the view and its owner, the view is always destroyed
//! before the owner, and each composition operation consumes its receiver by
//! value so chains of any depth can be built.
//!
//! The resources themselves are modelled explicitly, so the discipline can be
//! stated and proved rather than trusted: a [`state::Store`] holds every
//! primitive instance in a slot — a reference-counted allocation with its
//! strong count, a dynamically checked cell with its outstanding-view state, a
//! mutual-exclusion lock or reader-writer lock with its held/poisoned state —
//! and every handle, view and bundle is a [`handle::Handle`] naming the slots
//! whose state it holds. Each acquire operation is a single transition of the
//! designated slot's state, each release walks the bundle chain view-first and
//! returns exactly what the chain holds, and the contracts pin both down to
//! the slot.
//!
//! The composition operations come as one extension trait per wrapped
//! primitive, applying to anything that gives access to an instance of it:
//! [`cell::NestedRefCell`] for the checked cell, [`rc::NestedRcWeak`] and
//! [`sync::NestedArcWeak`] for the two reference-counted weak handles (one
//! machine serves both: the thread-safety of the cross-thread one has no
//! observable counterpart in a sequential model), and [`sync::NestedMutex`]
//! and [`sync::NestedRwLock`] for the locks.

pub mod cell;
pub mod handle;
pub mod laws;
pub mod rc;
pub mod state;
pub mod sync;

pub use crate::cell::NestedRefCell;
pub use crate::handle::Handle;
pub use crate::handle::Nested;
pub use crate::rc::NestedRcWeak;
pub use crate::sync::NestedArcWeak;
pub use crate::sync::NestedMutex;
pub use crate::sync::NestedRwLock;

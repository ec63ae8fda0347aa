//! Composition over the dynamically checked cell.
//!
//! A checked cell hands out any number of shared views or one exclusive view,
//! and keeps count. The non-fallible acquisitions mirror operations that
//! abort the caller on a conflicting outstanding view, so a conflict is
//! excluded by their preconditions; the fallible ones return the conflict as
//! a value and leave the cell untouched.

use vstd::prelude::*;

use crate::handle::AsOwner;
use crate::handle::Handle;
use crate::handle::Nested;
use crate::handle::lemma_valid_kept;
use crate::state::can_incr;
use crate::handle::claims_kept;
use crate::state::lemma_wf_same_shape;
use crate::state::same_shape;
use crate::state::shared_incr;
use crate::state::value_ok;
use crate::state::wf;
use crate::state::Access;
use crate::state::Slot;
use crate::state::Store;
use crate::state::Value;

verus! {

/// A fresh checked cell holding `v`, with no outstanding views; its index
/// stands for the cell from then on.
pub fn new_cell(store: &mut Store, v: Value) -> (c: usize)
    requires
        wf(old(store)@),
        value_ok(old(store)@, v),
    ensures
        final(store)@ == old(store)@.push(Slot::Cell { value: v, access: Access::Idle }),
        c == old(store)@.len(),
        wf(final(store)@),
{
    let c = store.len();
    store.push_slot(Slot::Cell { value: v, access: Access::Idle });
    proof {
        crate::state::lemma_wf_push(old(store)@, Slot::Cell { value: v, access: Access::Idle });
    }
    c
}

/// The requested view conflicts with an incompatible view already
/// outstanding on the cell.
#[derive(Clone, Copy, Debug, PartialEq, Eq, Structural)]
pub struct BorrowConflict;

/// The store after one more shared view is taken on cell `c`.
pub open spec fn cell_borrowed(s: Seq<Slot>, c: int) -> Seq<Slot> {
    match s[c] {
        Slot::Cell { value, access } => s.update(
            c,
            Slot::Cell { value, access: shared_incr(access) },
        ),
        _ => s,
    }
}

/// The store after the exclusive view is taken on cell `c`.
pub open spec fn cell_borrowed_mut(s: Seq<Slot>, c: int) -> Seq<Slot> {
    match s[c] {
        Slot::Cell { value, .. } => s.update(c, Slot::Cell { value, access: Access::Exclusive }),
        _ => s,
    }
}

/// Composition over anything that gives access to a checked cell: a plain
/// reference to one, or any handle or bundle whose view reads a cell. Each
/// operation consumes its receiver and bundles it, as owner, with the view it
/// acquires, so the receiver stays alive exactly as long as the view.
pub trait NestedRefCell: AsOwner {
    /// Acquire a shared view of the designated cell and bundle it with the
    /// receiver. An outstanding exclusive view would abort the caller, so it
    /// is excluded here.
    fn nest_borrow(self, store: &mut Store) -> (b: Nested)
        requires
            wf(old(store)@),
            self.as_handle().valid(old(store)@),
            self.as_handle().cell_of(old(store)@) matches Some(c) && c < old(store)@.len()
                && (old(store)@[c as int] matches Slot::Cell { access, .. } && can_incr(access)),
        ensures
            self.as_handle().cell_of(old(store)@) matches Some(c) ==> {
                &&& final(store)@ == cell_borrowed(old(store)@, c as int)
                &&& b.inner == Handle::Reading(c)
                &&& b.outer == self.as_handle()
                &&& b.valid(final(store)@)
                &&& wf(final(store)@)
            },
    ;

    /// As [`NestedRefCell::nest_borrow`], but a conflicting exclusive view is
    /// returned as an error; the receiver is then destroyed and the cell is
    /// left untouched.
    fn nest_try_borrow(self, store: &mut Store) -> (r: Result<Nested, BorrowConflict>)
        requires
            wf(old(store)@),
            self.as_handle().valid(old(store)@),
            self.as_handle().cell_of(old(store)@) matches Some(c) && c < old(store)@.len()
                && (old(store)@[c as int] matches Slot::Cell { access, .. } && (access
                matches Access::Shared(n) ==> n < u64::MAX)),
        ensures
            self.as_handle().cell_of(old(store)@) matches Some(c) ==> {
                &&& wf(final(store)@)
                &&& (old(store)@[c as int]->Cell_access is Exclusive ==> r is Err && final(store)@
                    == self.as_handle().released(old(store)@))
                &&& (!(old(store)@[c as int]->Cell_access is Exclusive) ==> (r matches Ok(b) && {
                    &&& final(store)@ == cell_borrowed(old(store)@, c as int)
                    &&& b.inner == Handle::Reading(c)
                    &&& b.outer == self.as_handle()
                    &&& b.valid(final(store)@)
                }))
            },
    ;

    /// Acquire the exclusive view of the designated cell and bundle it with
    /// the receiver. Any outstanding view would abort the caller, so it is
    /// excluded here.
    fn nest_borrow_mut(self, store: &mut Store) -> (b: Nested)
        requires
            wf(old(store)@),
            self.as_handle().valid(old(store)@),
            self.as_handle().cell_of(old(store)@) matches Some(c) && c < old(store)@.len()
                && (old(store)@[c as int] matches Slot::Cell { access: Access::Idle, .. }),
        ensures
            self.as_handle().cell_of(old(store)@) matches Some(c) ==> {
                &&& final(store)@ == cell_borrowed_mut(old(store)@, c as int)
                &&& b.inner == Handle::Writing(c)
                &&& b.outer == self.as_handle()
                &&& b.valid(final(store)@)
                &&& wf(final(store)@)
            },
    ;

    /// As [`NestedRefCell::nest_borrow_mut`], but any conflicting view is
    /// returned as an error; the receiver is then destroyed and the cell is
    /// left untouched.
    fn nest_try_borrow_mut(self, store: &mut Store) -> (r: Result<Nested, BorrowConflict>)
        requires
            wf(old(store)@),
            self.as_handle().valid(old(store)@),
            self.as_handle().cell_of(old(store)@) matches Some(c) && c < old(store)@.len()
                && old(store)@[c as int] is Cell,
        ensures
            self.as_handle().cell_of(old(store)@) matches Some(c) ==> {
                &&& wf(final(store)@)
                &&& (!(old(store)@[c as int]->Cell_access is Idle) ==> r is Err && final(store)@
                    == self.as_handle().released(old(store)@))
                &&& (old(store)@[c as int]->Cell_access is Idle ==> (r matches Ok(b) && {
                    &&& final(store)@ == cell_borrowed_mut(old(store)@, c as int)
                    &&& b.inner == Handle::Writing(c)
                    &&& b.outer == self.as_handle()
                    &&& b.valid(final(store)@)
                }))
            },
    ;
}

impl Handle {
    /// The cell this receiver designates (executable twin of
    /// [`Handle::cell_of`]).
    pub(crate) fn cell_pos(&self, store: &Store) -> (c: usize)
        requires
            self.valid(store@),
            self.cell_of(store@) is Some,
        ensures
            Some(c) == self.cell_of(store@),
    {
        match self {
            Handle::Direct(i) => *i,
            _ => match self.read(store) {
                Value::Cell(c) => c,
                _ => {
                    proof {
                        assert(false);
                    }
                    0
                },
            },
        }
    }
}

impl NestedRefCell for Handle {
    fn nest_borrow(self, store: &mut Store) -> (b: Nested) {
        let c = self.cell_pos(store);
        match store.slot(c) {
            Slot::Cell { value, access } => {
                let bumped = match access {
                    Access::Idle => Access::Shared(1),
                    Access::Shared(n) => Access::Shared(n + 1),
                    Access::Exclusive => {
                        proof {
                            assert(false);
                        }
                        Access::Exclusive
                    },
                };
                store.set_slot(c, Slot::Cell { value, access: bumped });
            },
            _ => {
                proof {
                    assert(false);
                }
            },
        }
        proof {
            let s1 = old(store)@;
            let s2 = store@;
            assert forall|i: int| 0 <= i < s1.len() implies same_shape(s1[i], #[trigger] s2[i])
                && claims_kept(s1[i], s2[i]) by {}
            lemma_wf_same_shape(s1, s2);
            lemma_valid_kept(self, s1, s2);
        }
        Nested { inner: Handle::Reading(c), outer: self }
    }

    fn nest_try_borrow(self, store: &mut Store) -> (r: Result<Nested, BorrowConflict>) {
        let c = self.cell_pos(store);
        match store.slot(c) {
            Slot::Cell { access: Access::Exclusive, .. } => {
                proof {
                    self.lemma_released_wf(old(store)@);
                }
                self.release(store);
                Err(BorrowConflict)
            },
            _ => Ok(self.nest_borrow(store)),
        }
    }

    fn nest_borrow_mut(self, store: &mut Store) -> (b: Nested) {
        let c = self.cell_pos(store);
        match store.slot(c) {
            Slot::Cell { value, access: Access::Idle } => {
                store.set_slot(c, Slot::Cell { value, access: Access::Exclusive });
            },
            _ => {
                proof {
                    assert(false);
                }
            },
        }
        proof {
            let s1 = old(store)@;
            let s2 = store@;
            assert forall|i: int| 0 <= i < s1.len() implies same_shape(s1[i], #[trigger] s2[i])
                && claims_kept(s1[i], s2[i]) by {}
            lemma_wf_same_shape(s1, s2);
            lemma_valid_kept(self, s1, s2);
        }
        Nested { inner: Handle::Writing(c), outer: self }
    }

    fn nest_try_borrow_mut(self, store: &mut Store) -> (r: Result<Nested, BorrowConflict>) {
        let c = self.cell_pos(store);
        match store.slot(c) {
            Slot::Cell { access: Access::Idle, .. } => Ok(self.nest_borrow_mut(store)),
            _ => {
                proof {
                    self.lemma_released_wf(old(store)@);
                }
                self.release(store);
                Err(BorrowConflict)
            },
        }
    }
}

impl NestedRefCell for Nested {
    fn nest_borrow(self, store: &mut Store) -> (b: Nested) {
        self.into_handle().nest_borrow(store)
    }

    fn nest_try_borrow(self, store: &mut Store) -> (r: Result<Nested, BorrowConflict>) {
        self.into_handle().nest_try_borrow(store)
    }

    fn nest_borrow_mut(self, store: &mut Store) -> (b: Nested) {
        self.into_handle().nest_borrow_mut(store)
    }

    fn nest_try_borrow_mut(self, store: &mut Store) -> (r: Result<Nested, BorrowConflict>) {
        self.into_handle().nest_try_borrow_mut(store)
    }
}

} // verus!

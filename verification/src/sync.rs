//! Composition over the thread-safe primitives: the cross-thread weak
//! reference, the mutual-exclusion lock and the reader-writer lock.
//!
//! The model is sequential, so the thread-safe reference-counted handle runs
//! on the same machine as the single-thread one; its contract here is
//! word-for-word the same. The locks add two things the cell does not have: a
//! non-blocking acquire that reports an immediate would-block outcome instead
//! of suspending, and a poison flag, raised when a holder terminates
//! abnormally while holding the lock, that every later acquisition reports —
//! with its payload still fully usable.

use vstd::prelude::*;

use crate::handle::claims_kept;
use crate::handle::lemma_valid_kept;
use crate::handle::AsOwner;
use crate::handle::Handle;
use crate::handle::Nested;
use crate::rc::strong_bumped;
use crate::state::lemma_wf_same_shape;
use crate::state::same_shape;
use crate::state::shared_incr;
use crate::state::value_ok;
use crate::state::wf;
use crate::state::Access;
use crate::state::Slot;
use crate::state::Store;
use crate::state::Value;

verus! {

/// A fresh mutual-exclusion lock holding `v`, free and unpoisoned.
pub fn new_mutex(store: &mut Store, v: Value) -> (m: usize)
    requires
        wf(old(store)@),
        value_ok(old(store)@, v),
    ensures
        final(store)@ == old(store)@.push(Slot::Mutex { value: v, held: false, poisoned: false }),
        m == old(store)@.len(),
        wf(final(store)@),
{
    let m = store.len();
    store.push_slot(Slot::Mutex { value: v, held: false, poisoned: false });
    proof {
        crate::state::lemma_wf_push(
            old(store)@,
            Slot::Mutex { value: v, held: false, poisoned: false },
        );
    }
    m
}

/// A fresh reader-writer lock holding `v`, free and unpoisoned.
pub fn new_rwlock(store: &mut Store, v: Value) -> (l: usize)
    requires
        wf(old(store)@),
        value_ok(old(store)@, v),
    ensures
        final(store)@ == old(store)@.push(
            Slot::RwLock { value: v, access: Access::Idle, poisoned: false },
        ),
        l == old(store)@.len(),
        wf(final(store)@),
{
    let l = store.len();
    store.push_slot(Slot::RwLock { value: v, access: Access::Idle, poisoned: false });
    proof {
        crate::state::lemma_wf_push(
            old(store)@,
            Slot::RwLock { value: v, access: Access::Idle, poisoned: false },
        );
    }
    l
}

/// The store after mutex `m` is taken.
pub open spec fn mutex_locked(s: Seq<Slot>, m: int) -> Seq<Slot> {
    match s[m] {
        Slot::Mutex { value, poisoned, .. } => s.update(
            m,
            Slot::Mutex { value, held: true, poisoned },
        ),
        _ => s,
    }
}

/// The store after one more shared guard is taken on reader-writer lock `l`.
pub open spec fn rw_read_locked(s: Seq<Slot>, l: int) -> Seq<Slot> {
    match s[l] {
        Slot::RwLock { value, access, poisoned } => s.update(
            l,
            Slot::RwLock { value, access: shared_incr(access), poisoned },
        ),
        _ => s,
    }
}

/// The store after the exclusive guard is taken on reader-writer lock `l`.
pub open spec fn rw_write_locked(s: Seq<Slot>, l: int) -> Seq<Slot> {
    match s[l] {
        Slot::RwLock { value, poisoned, .. } => s.update(
            l,
            Slot::RwLock { value, access: Access::Exclusive, poisoned },
        ),
        _ => s,
    }
}

/// The outcome of a blocking lock acquisition: the bundle, flagged when the
/// lock was poisoned by a holder that terminated abnormally. The poisoned
/// payload is fully usable; recovery is the caller's explicit choice.
pub enum Acquired {
    Clean(Nested),
    Poisoned(Nested),
}

/// The outcome of a non-blocking lock acquisition: as [`Acquired`], or an
/// immediate would-block report when the lock is already held incompatibly.
pub enum TryAcquired {
    Clean(Nested),
    Poisoned(Nested),
    WouldBlock,
}

/// Composition over anything that gives access to a cross-thread weak
/// reference. The contract is that of [`crate::rc::NestedRcWeak`]: the
/// thread-safety of the wrapped primitive has no observable counterpart in
/// this sequential model.
pub trait NestedArcWeak: AsOwner {
    /// Attempt to obtain a temporary owning handle to the target of the
    /// designated weak reference, bundled with the receiver.
    fn nest_upgrade(self, store: &mut Store) -> (r: Option<Nested>)
        requires
            wf(old(store)@),
            self.as_handle().valid(old(store)@),
            self.as_handle().weak_of(old(store)@) matches Some(a) && a < old(store)@.len() && (old(
                store,
            )@[a as int] matches Slot::Alloc { strong, .. } && strong < u64::MAX),
        ensures
            self.as_handle().weak_of(old(store)@) matches Some(a) ==> {
                &&& wf(final(store)@)
                &&& (old(store)@[a as int]->Alloc_strong == 0 ==> r is None && final(store)@
                    == self.as_handle().released(old(store)@))
                &&& (old(store)@[a as int]->Alloc_strong >= 1 ==> (r matches Some(b) && {
                    &&& final(store)@ == strong_bumped(old(store)@, a as int)
                    &&& b.inner == Handle::Strong(a)
                    &&& b.outer == self.as_handle()
                    &&& b.valid(final(store)@)
                }))
            },
    ;
}

impl NestedArcWeak for Handle {
    fn nest_upgrade(self, store: &mut Store) -> (r: Option<Nested>) {
        self.upgrade_bundled(store)
    }
}

impl NestedArcWeak for Nested {
    fn nest_upgrade(self, store: &mut Store) -> (r: Option<Nested>) {
        self.into_handle().upgrade_bundled(store)
    }
}

/// Composition over anything that gives access to a mutual-exclusion lock.
pub trait NestedMutex: AsOwner {
    /// Acquire the designated lock and bundle its guard with the receiver.
    /// The wrapped operation suspends the calling thread while the lock is
    /// held; in this sequential model such a call could never return, so a
    /// held lock is excluded here. A poisoned lock is still acquired, with
    /// the flagged outcome.
    fn nest_lock(self, store: &mut Store) -> (r: Acquired)
        requires
            wf(old(store)@),
            self.as_handle().valid(old(store)@),
            self.as_handle().mutex_of(old(store)@) matches Some(m) && m < old(store)@.len() && (old(
                store,
            )@[m as int] matches Slot::Mutex { held: false, .. }),
        ensures
            self.as_handle().mutex_of(old(store)@) matches Some(m) ==> {
                &&& final(store)@ == mutex_locked(old(store)@, m as int)
                &&& wf(final(store)@)
                &&& (r is Poisoned <==> old(store)@[m as int]->Mutex_poisoned)
                &&& (r matches Acquired::Clean(b) ==> b.inner == Handle::MutexGuard(m) && b.outer
                    == self.as_handle() && b.valid(final(store)@))
                &&& (r matches Acquired::Poisoned(b) ==> b.inner == Handle::MutexGuard(m) && b.outer
                    == self.as_handle() && b.valid(final(store)@))
            },
    ;

    /// As [`NestedMutex::nest_lock`], but a lock already held answers with an
    /// immediate would-block outcome instead of suspending; the receiver is
    /// then destroyed and the lock's state is untouched.
    fn nest_try_lock(self, store: &mut Store) -> (r: TryAcquired)
        requires
            wf(old(store)@),
            self.as_handle().valid(old(store)@),
            self.as_handle().mutex_of(old(store)@) matches Some(m) && m < old(store)@.len() && old(
                store,
            )@[m as int] is Mutex,
        ensures
            self.as_handle().mutex_of(old(store)@) matches Some(m) ==> {
                &&& wf(final(store)@)
                &&& (old(store)@[m as int]->Mutex_held ==> r is WouldBlock && final(store)@
                    == self.as_handle().released(old(store)@))
                &&& (!old(store)@[m as int]->Mutex_held ==> {
                    &&& final(store)@ == mutex_locked(old(store)@, m as int)
                    &&& (r is Poisoned <==> old(store)@[m as int]->Mutex_poisoned)
                    &&& !(r is WouldBlock)
                    &&& (r matches TryAcquired::Clean(b) ==> b.inner == Handle::MutexGuard(m)
                        && b.outer == self.as_handle() && b.valid(final(store)@))
                    &&& (r matches TryAcquired::Poisoned(b) ==> b.inner == Handle::MutexGuard(m)
                        && b.outer == self.as_handle() && b.valid(final(store)@))
                })
            },
    ;
}

/// Composition over anything that gives access to a reader-writer lock. Only
/// the non-blocking acquisitions are offered.
pub trait NestedRwLock: AsOwner {
    /// Attempt a shared (read) acquisition of the designated lock and bundle
    /// its guard with the receiver. An outstanding exclusive guard answers
    /// would-block, and the receiver is then destroyed with the lock's state
    /// untouched; a poisoned lock is still acquired, with the flagged
    /// outcome.
    fn nest_try_read(self, store: &mut Store) -> (r: TryAcquired)
        requires
            wf(old(store)@),
            self.as_handle().valid(old(store)@),
            self.as_handle().rw_of(old(store)@) matches Some(l) && l < old(store)@.len() && (old(
                store,
            )@[l as int] matches Slot::RwLock { access, .. } && (access matches Access::Shared(n)
                ==> n < u64::MAX)),
        ensures
            self.as_handle().rw_of(old(store)@) matches Some(l) ==> {
                &&& wf(final(store)@)
                &&& (old(store)@[l as int]->RwLock_access is Exclusive ==> r is WouldBlock
                    && final(store)@ == self.as_handle().released(old(store)@))
                &&& (!(old(store)@[l as int]->RwLock_access is Exclusive) ==> {
                    &&& final(store)@ == rw_read_locked(old(store)@, l as int)
                    &&& (r is Poisoned <==> old(store)@[l as int]->RwLock_poisoned)
                    &&& !(r is WouldBlock)
                    &&& (r matches TryAcquired::Clean(b) ==> b.inner == Handle::ReadGuard(l)
                        && b.outer == self.as_handle() && b.valid(final(store)@))
                    &&& (r matches TryAcquired::Poisoned(b) ==> b.inner == Handle::ReadGuard(l)
                        && b.outer == self.as_handle() && b.valid(final(store)@))
                })
            },
    ;

    /// Attempt the exclusive (write) acquisition of the designated lock and
    /// bundle its guard with the receiver. Any outstanding guard answers
    /// would-block, and the receiver is then destroyed with the lock's state
    /// untouched; a poisoned lock is still acquired, with the flagged
    /// outcome.
    fn nest_try_write(self, store: &mut Store) -> (r: TryAcquired)
        requires
            wf(old(store)@),
            self.as_handle().valid(old(store)@),
            self.as_handle().rw_of(old(store)@) matches Some(l) && l < old(store)@.len() && old(
                store,
            )@[l as int] is RwLock,
        ensures
            self.as_handle().rw_of(old(store)@) matches Some(l) ==> {
                &&& wf(final(store)@)
                &&& (!(old(store)@[l as int]->RwLock_access is Idle) ==> r is WouldBlock
                    && final(store)@ == self.as_handle().released(old(store)@))
                &&& (old(store)@[l as int]->RwLock_access is Idle ==> {
                    &&& final(store)@ == rw_write_locked(old(store)@, l as int)
                    &&& (r is Poisoned <==> old(store)@[l as int]->RwLock_poisoned)
                    &&& !(r is WouldBlock)
                    &&& (r matches TryAcquired::Clean(b) ==> b.inner == Handle::WriteGuard(l)
                        && b.outer == self.as_handle() && b.valid(final(store)@))
                    &&& (r matches TryAcquired::Poisoned(b) ==> b.inner == Handle::WriteGuard(l)
                        && b.outer == self.as_handle() && b.valid(final(store)@))
                })
            },
    ;
}

impl Handle {
    /// The mutual-exclusion lock this receiver designates (executable twin of
    /// [`Handle::mutex_of`]).
    pub(crate) fn mutex_pos(&self, store: &Store) -> (m: usize)
        requires
            self.valid(store@),
            self.mutex_of(store@) is Some,
        ensures
            Some(m) == self.mutex_of(store@),
    {
        match self {
            Handle::Direct(i) => *i,
            _ => match self.read(store) {
                Value::Mutex(m) => m,
                _ => {
                    proof {
                        assert(false);
                    }
                    0
                },
            },
        }
    }

    /// The reader-writer lock this receiver designates (executable twin of
    /// [`Handle::rw_of`]).
    pub(crate) fn rw_pos(&self, store: &Store) -> (l: usize)
        requires
            self.valid(store@),
            self.rw_of(store@) is Some,
        ensures
            Some(l) == self.rw_of(store@),
    {
        match self {
            Handle::Direct(i) => *i,
            _ => match self.read(store) {
                Value::Rw(l) => l,
                _ => {
                    proof {
                        assert(false);
                    }
                    0
                },
            },
        }
    }
}

impl NestedMutex for Handle {
    fn nest_lock(self, store: &mut Store) -> (r: Acquired) {
        let m = self.mutex_pos(store);
        let poisoned = match store.slot(m) {
            Slot::Mutex { value, held: false, poisoned } => {
                store.set_slot(m, Slot::Mutex { value, held: true, poisoned });
                poisoned
            },
            _ => {
                proof {
                    assert(false);
                }
                false
            },
        };
        proof {
            let s1 = old(store)@;
            let s2 = store@;
            assert forall|i: int| 0 <= i < s1.len() implies same_shape(s1[i], #[trigger] s2[i])
                && claims_kept(s1[i], s2[i]) by {}
            lemma_wf_same_shape(s1, s2);
            lemma_valid_kept(self, s1, s2);
        }
        let b = Nested { inner: Handle::MutexGuard(m), outer: self };
        if poisoned {
            Acquired::Poisoned(b)
        } else {
            Acquired::Clean(b)
        }
    }

    fn nest_try_lock(self, store: &mut Store) -> (r: TryAcquired) {
        let m = self.mutex_pos(store);
        match store.slot(m) {
            Slot::Mutex { held: true, .. } => {
                proof {
                    self.lemma_released_wf(old(store)@);
                }
                self.release(store);
                TryAcquired::WouldBlock
            },
            _ => match self.nest_lock(store) {
                Acquired::Clean(b) => TryAcquired::Clean(b),
                Acquired::Poisoned(b) => TryAcquired::Poisoned(b),
            },
        }
    }
}

impl NestedMutex for Nested {
    fn nest_lock(self, store: &mut Store) -> (r: Acquired) {
        self.into_handle().nest_lock(store)
    }

    fn nest_try_lock(self, store: &mut Store) -> (r: TryAcquired) {
        self.into_handle().nest_try_lock(store)
    }
}

impl NestedRwLock for Handle {
    fn nest_try_read(self, store: &mut Store) -> (r: TryAcquired) {
        let l = self.rw_pos(store);
        match store.slot(l) {
            Slot::RwLock { access: Access::Exclusive, .. } => {
                proof {
                    self.lemma_released_wf(old(store)@);
                }
                self.release(store);
                TryAcquired::WouldBlock
            },
            Slot::RwLock { value, access, poisoned } => {
                let bumped = match access {
                    Access::Idle => Access::Shared(1),
                    Access::Shared(n) => Access::Shared(n + 1),
                    Access::Exclusive => {
                        proof {
                            assert(false);
                        }
                        Access::Exclusive
                    },
                };
                store.set_slot(l, Slot::RwLock { value, access: bumped, poisoned });
                proof {
                    let s1 = old(store)@;
                    let s2 = store@;
                    assert forall|i: int| 0 <= i < s1.len() implies same_shape(
                        s1[i],
                        #[trigger] s2[i],
                    ) && claims_kept(s1[i], s2[i]) by {}
                    lemma_wf_same_shape(s1, s2);
                    lemma_valid_kept(self, s1, s2);
                }
                let b = Nested { inner: Handle::ReadGuard(l), outer: self };
                if poisoned {
                    TryAcquired::Poisoned(b)
                } else {
                    TryAcquired::Clean(b)
                }
            },
            _ => {
                proof {
                    assert(false);
                }
                TryAcquired::WouldBlock
            },
        }
    }

    fn nest_try_write(self, store: &mut Store) -> (r: TryAcquired) {
        let l = self.rw_pos(store);
        match store.slot(l) {
            Slot::RwLock { value, access: Access::Idle, poisoned } => {
                store.set_slot(l, Slot::RwLock { value, access: Access::Exclusive, poisoned });
                proof {
                    let s1 = old(store)@;
                    let s2 = store@;
                    assert forall|i: int| 0 <= i < s1.len() implies same_shape(
                        s1[i],
                        #[trigger] s2[i],
                    ) && claims_kept(s1[i], s2[i]) by {}
                    lemma_wf_same_shape(s1, s2);
                    lemma_valid_kept(self, s1, s2);
                }
                let b = Nested { inner: Handle::WriteGuard(l), outer: self };
                if poisoned {
                    TryAcquired::Poisoned(b)
                } else {
                    TryAcquired::Clean(b)
                }
            },
            _ => {
                proof {
                    self.lemma_released_wf(old(store)@);
                }
                self.release(store);
                TryAcquired::WouldBlock
            },
        }
    }
}

impl NestedRwLock for Nested {
    fn nest_try_read(self, store: &mut Store) -> (r: TryAcquired) {
        self.into_handle().nest_try_read(store)
    }

    fn nest_try_write(self, store: &mut Store) -> (r: TryAcquired) {
        self.into_handle().nest_try_write(store)
    }
}

} // verus!

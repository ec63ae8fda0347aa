//! Handles, views and bundles over the store.
//!
//! A [`Handle`] is anything that gives (or once gave) access to a slot: a
//! plain reference to it, an owning or weak reference-counted handle, an
//! outstanding view or lock guard, or a whole [`Nested`] bundle standing as an
//! owner. Every claim a handle makes on a slot's dynamic state is written in
//! [`Handle::valid`]; destruction is a pure function of the chain, view first,
//! owner second.

use vstd::prelude::*;

use crate::state::lemma_wf_kinds;
use crate::state::same_kind;
use crate::state::same_shape;
use crate::state::shared_decr;
use crate::state::stored;
use crate::state::value_ok;
use crate::state::wf;
use crate::state::with_value;
use crate::state::Access;
use crate::state::Slot;
use crate::state::Store;
use crate::state::Value;

verus! {

/// Anything that can keep a target alive, or read through to one.
pub enum Handle {
    /// A plain reference to slot `i`: the initial position of a chain. It
    /// holds no dynamic state.
    Direct(usize),
    /// An owning reference-counted handle, counted in the slot's strong count.
    Strong(usize),
    /// A non-owning reference-counted handle; it keeps nothing alive.
    Weak(usize),
    /// An outstanding shared view of a checked cell.
    Reading(usize),
    /// The outstanding exclusive view of a checked cell.
    Writing(usize),
    /// The guard of a held mutual-exclusion lock.
    MutexGuard(usize),
    /// An outstanding shared guard of a reader-writer lock.
    ReadGuard(usize),
    /// The outstanding exclusive guard of a reader-writer lock.
    WriteGuard(usize),
    /// A bundle standing as the owner of a further composition.
    Bundle(Box<Nested>),
}

/// A view bundled with the owner that produced it. The bundle exclusively
/// owns both parts; on destruction the view (`inner`) is always released
/// before the owner (`outer`). Bundles are created only by the composition
/// operations, and their contracts hold only for bundles so created: treat
/// the two parts as inseparable.
pub struct Nested {
    pub inner: Handle,
    pub outer: Handle,
}

impl Handle {
    /// The slot this handle reads through to, if it can be read through at
    /// all; for a bundle, whatever its view reads through to.
    pub open spec fn target_slot(self) -> Option<usize>
        decreases self,
    {
        match self {
            Handle::Strong(i) => Some(i),
            Handle::Reading(i) => Some(i),
            Handle::Writing(i) => Some(i),
            Handle::MutexGuard(i) => Some(i),
            Handle::ReadGuard(i) => Some(i),
            Handle::WriteGuard(i) => Some(i),
            Handle::Bundle(b) => b.inner.target_slot(),
            _ => None,
        }
    }

    /// The value this handle reads.
    pub open spec fn target_value(self, s: Seq<Slot>) -> Value
        recommends
            self.target_slot() is Some,
    {
        match self.target_slot() {
            Some(t) => stored(s[t as int]),
            None => Value::Int(0),
        }
    }

    /// The slot this handle may write through, when its view is exclusive.
    pub open spec fn write_slot(self) -> Option<usize>
        decreases self,
    {
        match self {
            Handle::Writing(i) => Some(i),
            Handle::MutexGuard(i) => Some(i),
            Handle::WriteGuard(i) => Some(i),
            Handle::Bundle(b) => b.inner.write_slot(),
            _ => None,
        }
    }

    /// Every claim this handle makes of the store is outstanding: the counts
    /// and lock states it is counted in are really there. The composition
    /// operations only ever produce valid handles, and a valid handle is what
    /// makes reading through it safe.
    pub open spec fn valid(self, s: Seq<Slot>) -> bool
        decreases self,
    {
        match self {
            Handle::Direct(i) => i < s.len(),
            Handle::Strong(i) => i < s.len() && (s[i as int] matches Slot::Alloc { strong, .. }
                && strong >= 1),
            Handle::Weak(i) => i < s.len() && s[i as int] is Alloc,
            Handle::Reading(i) => i < s.len() && (s[i as int] matches Slot::Cell {
                access: Access::Shared(n),
                ..
            } && n >= 1),
            Handle::Writing(i) => i < s.len() && (s[i as int] matches Slot::Cell {
                access: Access::Exclusive,
                ..
            }),
            Handle::MutexGuard(i) => i < s.len() && (s[i as int] matches Slot::Mutex {
                held: true,
                ..
            }),
            Handle::ReadGuard(i) => i < s.len() && (s[i as int] matches Slot::RwLock {
                access: Access::Shared(n),
                ..
            } && n >= 1),
            Handle::WriteGuard(i) => i < s.len() && (s[i as int] matches Slot::RwLock {
                access: Access::Exclusive,
                ..
            }),
            Handle::Bundle(b) => b.inner.valid(s) && b.outer.valid(s),
        }
    }

    /// The checked cell a composition on this receiver operates on: the slot
    /// itself for a plain reference to a cell, else the cell named by the
    /// value the receiver reads.
    pub open spec fn cell_of(self, s: Seq<Slot>) -> Option<usize> {
        match self {
            Handle::Direct(i) => if i < s.len() && s[i as int] is Cell {
                Some(i)
            } else {
                None
            },
            _ => match self.target_slot() {
                Some(t) => if t < s.len() {
                    match stored(s[t as int]) {
                        Value::Cell(c) => Some(c),
                        _ => None,
                    }
                } else {
                    None
                },
                None => None,
            },
        }
    }

    /// The weak reference an upgrade on this receiver goes through: the
    /// handle itself when it is one, else the weak reference named by the
    /// value the receiver reads.
    pub open spec fn weak_of(self, s: Seq<Slot>) -> Option<usize> {
        match self {
            Handle::Weak(a) => if a < s.len() && s[a as int] is Alloc {
                Some(a)
            } else {
                None
            },
            _ => match self.target_slot() {
                Some(t) => if t < s.len() {
                    match stored(s[t as int]) {
                        Value::Weak(a) => Some(a),
                        _ => None,
                    }
                } else {
                    None
                },
                None => None,
            },
        }
    }

    /// The mutual-exclusion lock a composition on this receiver operates on.
    pub open spec fn mutex_of(self, s: Seq<Slot>) -> Option<usize> {
        match self {
            Handle::Direct(i) => if i < s.len() && s[i as int] is Mutex {
                Some(i)
            } else {
                None
            },
            _ => match self.target_slot() {
                Some(t) => if t < s.len() {
                    match stored(s[t as int]) {
                        Value::Mutex(m) => Some(m),
                        _ => None,
                    }
                } else {
                    None
                },
                None => None,
            },
        }
    }

    /// The reader-writer lock a composition on this receiver operates on.
    pub open spec fn rw_of(self, s: Seq<Slot>) -> Option<usize> {
        match self {
            Handle::Direct(i) => if i < s.len() && s[i as int] is RwLock {
                Some(i)
            } else {
                None
            },
            _ => match self.target_slot() {
                Some(t) => if t < s.len() {
                    match stored(s[t as int]) {
                        Value::Rw(l) => Some(l),
                        _ => None,
                    }
                } else {
                    None
                },
                None => None,
            },
        }
    }

    /// The store after this handle is destroyed: every count and lock it
    /// holds is returned, the view side of a bundle strictly before its
    /// owner.
    pub open spec fn released(self, s: Seq<Slot>) -> Seq<Slot>
        decreases self,
    {
        match self {
            Handle::Direct(_) => s,
            Handle::Weak(_) => s,
            Handle::Strong(i) => if i < s.len() {
                match s[i as int] {
                    Slot::Alloc { value, strong } => if strong >= 1 {
                        s.update(i as int, Slot::Alloc { value, strong: (strong - 1) as u64 })
                    } else {
                        s
                    },
                    _ => s,
                }
            } else {
                s
            },
            Handle::Reading(i) => if i < s.len() {
                match s[i as int] {
                    Slot::Cell { value, access: Access::Shared(n) } => s.update(
                        i as int,
                        Slot::Cell { value, access: shared_decr(Access::Shared(n)) },
                    ),
                    _ => s,
                }
            } else {
                s
            },
            Handle::Writing(i) => if i < s.len() {
                match s[i as int] {
                    Slot::Cell { value, access: Access::Exclusive } => s.update(
                        i as int,
                        Slot::Cell { value, access: Access::Idle },
                    ),
                    _ => s,
                }
            } else {
                s
            },
            Handle::MutexGuard(i) => if i < s.len() {
                match s[i as int] {
                    Slot::Mutex { value, held: true, poisoned } => s.update(
                        i as int,
                        Slot::Mutex { value, held: false, poisoned },
                    ),
                    _ => s,
                }
            } else {
                s
            },
            Handle::ReadGuard(i) => if i < s.len() {
                match s[i as int] {
                    Slot::RwLock { value, access: Access::Shared(n), poisoned } => s.update(
                        i as int,
                        Slot::RwLock { value, access: shared_decr(Access::Shared(n)), poisoned },
                    ),
                    _ => s,
                }
            } else {
                s
            },
            Handle::WriteGuard(i) => if i < s.len() {
                match s[i as int] {
                    Slot::RwLock { value, access: Access::Exclusive, poisoned } => s.update(
                        i as int,
                        Slot::RwLock { value, access: Access::Idle, poisoned },
                    ),
                    _ => s,
                }
            } else {
                s
            },
            Handle::Bundle(b) => b.outer.released(b.inner.released(s)),
        }
    }

    /// The store after this handle is destroyed by a holder that terminates
    /// abnormally: as [`Handle::released`], except that every exclusive lock
    /// guard in the chain marks its lock poisoned as it goes.
    pub open spec fn abandoned(self, s: Seq<Slot>) -> Seq<Slot>
        decreases self,
    {
        match self {
            Handle::MutexGuard(i) => if i < s.len() {
                match s[i as int] {
                    Slot::Mutex { value, held: true, .. } => s.update(
                        i as int,
                        Slot::Mutex { value, held: false, poisoned: true },
                    ),
                    _ => s,
                }
            } else {
                s
            },
            Handle::WriteGuard(i) => if i < s.len() {
                match s[i as int] {
                    Slot::RwLock { value, access: Access::Exclusive, .. } => s.update(
                        i as int,
                        Slot::RwLock { value, access: Access::Idle, poisoned: true },
                    ),
                    _ => s,
                }
            } else {
                s
            },
            Handle::Bundle(b) => b.outer.abandoned(b.inner.abandoned(s)),
            _ => self.released(s),
        }
    }

    /// Destruction never adds or removes slots and never changes a stored
    /// value or a slot's kind: it only gives dynamic state back.
    pub proof fn lemma_released_shape(self, s: Seq<Slot>)
        ensures
            self.released(s).len() == s.len(),
            forall|i: int| 0 <= i < s.len() ==> same_shape(s[i], #[trigger] self.released(s)[i]),
        decreases self,
    {
        match self {
            Handle::Bundle(b) => {
                b.inner.lemma_released_shape(s);
                b.outer.lemma_released_shape(b.inner.released(s));
            },
            _ => {},
        }
    }

    /// As [`Handle::lemma_released_shape`], for abnormal destruction.
    pub proof fn lemma_abandoned_shape(self, s: Seq<Slot>)
        ensures
            self.abandoned(s).len() == s.len(),
            forall|i: int| 0 <= i < s.len() ==> same_shape(s[i], #[trigger] self.abandoned(s)[i]),
        decreases self,
    {
        match self {
            Handle::Bundle(b) => {
                b.inner.lemma_abandoned_shape(s);
                b.outer.lemma_abandoned_shape(b.inner.abandoned(s));
            },
            _ => {
                self.lemma_released_shape(s);
            },
        }
    }

    /// Destruction preserves well-formedness.
    pub proof fn lemma_released_wf(self, s: Seq<Slot>)
        requires
            wf(s),
        ensures
            wf(self.released(s)),
    {
        self.lemma_released_shape(s);
        crate::state::lemma_wf_same_shape(s, self.released(s));
    }

    /// Abnormal destruction preserves well-formedness.
    pub proof fn lemma_abandoned_wf(self, s: Seq<Slot>)
        requires
            wf(s),
        ensures
            wf(self.abandoned(s)),
    {
        self.lemma_abandoned_shape(s);
        crate::state::lemma_wf_same_shape(s, self.abandoned(s));
    }

    /// Read the value this handle gives access to.
    pub fn read(&self, store: &Store) -> (v: Value)
        requires
            self.valid(store@),
            self.target_slot() is Some,
        ensures
            v == self.target_value(store@),
        decreases *self,
    {
        match self {
            Handle::Strong(i) => store.slot_value(*i),
            Handle::Reading(i) => store.slot_value(*i),
            Handle::Writing(i) => store.slot_value(*i),
            Handle::MutexGuard(i) => store.slot_value(*i),
            Handle::ReadGuard(i) => store.slot_value(*i),
            Handle::WriteGuard(i) => store.slot_value(*i),
            Handle::Bundle(b) => b.inner.read(store),
            _ => {
                proof {
                    assert(false);
                }
                Value::Int(0)
            },
        }
    }

    /// Write `v` through this handle; its view must be exclusive.
    pub fn write(&self, store: &mut Store, v: Value)
        requires
            wf(old(store)@),
            value_ok(old(store)@, v),
            self.valid(old(store)@),
            self.write_slot() is Some,
        ensures
            self.write_slot() matches Some(w) && final(store)@ == old(store)@.update(
                w as int,
                with_value(old(store)@[w as int], v),
            ),
            wf(final(store)@),
        decreases *self,
    {
        match self {
            Handle::Writing(i) => {
                let sl = store.slot(*i);
                store.set_slot(*i, with_value_exec(sl, v));
            },
            Handle::MutexGuard(i) => {
                let sl = store.slot(*i);
                store.set_slot(*i, with_value_exec(sl, v));
            },
            Handle::WriteGuard(i) => {
                let sl = store.slot(*i);
                store.set_slot(*i, with_value_exec(sl, v));
            },
            Handle::Bundle(b) => {
                b.inner.write(store, v);
            },
            _ => {
                proof {
                    assert(false);
                }
            },
        }
        proof {
            lemma_valid_write_bound(*self, old(store)@);
            let w = self.write_slot()->Some_0 as int;
            lemma_wf_set_value(old(store)@, w, v);
        }
    }

    /// Destroy this handle, giving back every count and lock it holds: the
    /// view of a bundle first, then its owner, recursively through the chain.
    pub fn release(self, store: &mut Store)
        ensures
            final(store)@ == self.released(old(store)@),
            wf(old(store)@) ==> wf(final(store)@),
        decreases self,
    {
        proof {
            if wf(old(store)@) {
                self.lemma_released_wf(old(store)@);
            }
        }
        match self {
            Handle::Direct(_) => {},
            Handle::Weak(_) => {},
            Handle::Strong(i) => {
                if i < store.len() {
                    match store.slot(i) {
                        Slot::Alloc { value, strong } => {
                            if strong >= 1 {
                                store.set_slot(i, Slot::Alloc { value, strong: strong - 1 });
                            }
                        },
                        _ => {},
                    }
                }
            },
            Handle::Reading(i) => {
                if i < store.len() {
                    match store.slot(i) {
                        Slot::Cell { value, access: Access::Shared(n) } => {
                            let access = if n <= 1 {
                                Access::Idle
                            } else {
                                Access::Shared(n - 1)
                            };
                            store.set_slot(i, Slot::Cell { value, access });
                        },
                        _ => {},
                    }
                }
            },
            Handle::Writing(i) => {
                if i < store.len() {
                    match store.slot(i) {
                        Slot::Cell { value, access: Access::Exclusive } => {
                            store.set_slot(i, Slot::Cell { value, access: Access::Idle });
                        },
                        _ => {},
                    }
                }
            },
            Handle::MutexGuard(i) => {
                if i < store.len() {
                    match store.slot(i) {
                        Slot::Mutex { value, held: true, poisoned } => {
                            store.set_slot(i, Slot::Mutex { value, held: false, poisoned });
                        },
                        _ => {},
                    }
                }
            },
            Handle::ReadGuard(i) => {
                if i < store.len() {
                    match store.slot(i) {
                        Slot::RwLock { value, access: Access::Shared(n), poisoned } => {
                            let access = if n <= 1 {
                                Access::Idle
                            } else {
                                Access::Shared(n - 1)
                            };
                            store.set_slot(i, Slot::RwLock { value, access, poisoned });
                        },
                        _ => {},
                    }
                }
            },
            Handle::WriteGuard(i) => {
                if i < store.len() {
                    match store.slot(i) {
                        Slot::RwLock { value, access: Access::Exclusive, poisoned } => {
                            store.set_slot(
                                i,
                                Slot::RwLock { value, access: Access::Idle, poisoned },
                            );
                        },
                        _ => {},
                    }
                }
            },
            Handle::Bundle(b) => {
                let n = *b;
                n.inner.release(store);
                n.outer.release(store);
            },
        }
    }

    /// Destroy this handle as a holder that terminates abnormally would:
    /// every exclusive lock guard in the chain marks its lock poisoned as it
    /// is destroyed; everything else is given back as by [`Handle::release`].
    pub fn abandon(self, store: &mut Store)
        ensures
            final(store)@ == self.abandoned(old(store)@),
            wf(old(store)@) ==> wf(final(store)@),
        decreases self,
    {
        proof {
            if wf(old(store)@) {
                self.lemma_abandoned_wf(old(store)@);
            }
        }
        match self {
            Handle::MutexGuard(i) => {
                if i < store.len() {
                    match store.slot(i) {
                        Slot::Mutex { value, held: true, .. } => {
                            store.set_slot(i, Slot::Mutex { value, held: false, poisoned: true });
                        },
                        _ => {},
                    }
                }
            },
            Handle::WriteGuard(i) => {
                if i < store.len() {
                    match store.slot(i) {
                        Slot::RwLock { value, access: Access::Exclusive, .. } => {
                            store.set_slot(
                                i,
                                Slot::RwLock { value, access: Access::Idle, poisoned: true },
                            );
                        },
                        _ => {},
                    }
                }
            },
            Handle::Bundle(b) => {
                let n = *b;
                n.inner.abandon(store);
                n.outer.abandon(store);
            },
            _ => {
                self.release(store);
            },
        }
    }
}

/// The same slot, holding a new value (executable twin of
/// [`crate::state::with_value`]).
fn with_value_exec(sl: Slot, v: Value) -> (r: Slot)
    ensures
        r == with_value(sl, v),
{
    match sl {
        Slot::Alloc { strong, .. } => Slot::Alloc { value: v, strong },
        Slot::Cell { access, .. } => Slot::Cell { value: v, access },
        Slot::Mutex { held, poisoned, .. } => Slot::Mutex { value: v, held, poisoned },
        Slot::RwLock { access, poisoned, .. } => Slot::RwLock { value: v, access, poisoned },
    }
}

/// Replacing one stored value with a well-formed one preserves
/// well-formedness.
pub proof fn lemma_wf_set_value(s: Seq<Slot>, w: int, v: Value)
    requires
        wf(s),
        0 <= w < s.len(),
        value_ok(s, v),
    ensures
        wf(s.update(w, with_value(s[w], v))),
{
    let s2 = s.update(w, with_value(s[w], v));
    assert forall|i: int| 0 <= i < s.len() implies same_kind(s[i], #[trigger] s2[i]) by {}
    assert forall|i: int| 0 <= i < s2.len() implies value_ok(s, #[trigger] stored(s2[i])) by {
        if i != w {
            assert(stored(s2[i]) == stored(s[i]));
        }
    }
    lemma_wf_kinds(s, s2);
}

/// Exchange the values behind two distinct exclusive views: the generic swap
/// over the dereferenced targets.
pub fn swap_targets(a: &Handle, b: &Handle, store: &mut Store)
    requires
        wf(old(store)@),
        a.valid(old(store)@),
        b.valid(old(store)@),
        a.write_slot() is Some,
        b.write_slot() is Some,
        a.write_slot() != b.write_slot(),
    ensures
        a.write_slot() matches Some(wa) && b.write_slot() matches Some(wb) && final(store)@
            == old(store)@.update(wa as int, with_value(old(store)@[wa as int], stored(old(store)@[wb as int])))
            .update(wb as int, with_value(old(store)@[wb as int], stored(old(store)@[wa as int]))),
        wf(final(store)@),
{
    let wa = a.write_pos();
    let wb = b.write_pos();
    proof {
        lemma_valid_write_bound(*a, old(store)@);
        lemma_valid_write_bound(*b, old(store)@);
    }
    let va = store.slot_value(wa);
    let vb = store.slot_value(wb);
    let sla = store.slot(wa);
    let slb = store.slot(wb);
    store.set_slot(wa, with_value_exec(sla, vb));
    store.set_slot(wb, with_value_exec(slb, va));
    proof {
        let s = old(store)@;
        lemma_wf_set_value(s, wa as int, vb);
        lemma_wf_set_value(s.update(wa as int, with_value(s[wa as int], vb)), wb as int, va);
        assert(value_ok(s.update(wa as int, with_value(s[wa as int], vb)), va)) by {
            let s1 = s.update(wa as int, with_value(s[wa as int], vb));
            assert forall|i: int| 0 <= i < s.len() implies same_kind(s[i], #[trigger] s1[i]) by {}
            match va {
                Value::Int(_) => {},
                Value::Cell(c) => {
                    assert(same_kind(s[c as int], s1[c as int]));
                },
                Value::Weak(x) => {
                    assert(same_kind(s[x as int], s1[x as int]));
                },
                Value::Mutex(m) => {
                    assert(same_kind(s[m as int], s1[m as int]));
                },
                Value::Rw(l) => {
                    assert(same_kind(s[l as int], s1[l as int]));
                },
            }
        }
    }
}

/// A valid handle's writable slot lies inside the store.
proof fn lemma_valid_write_bound(h: Handle, s: Seq<Slot>)
    requires
        h.valid(s),
        h.write_slot() is Some,
    ensures
        h.write_slot() matches Some(w) && w < s.len(),
    decreases h,
{
    match h {
        Handle::Bundle(b) => {
            lemma_valid_write_bound(b.inner, s);
        },
        _ => {},
    }
}

impl Handle {
    /// The index this handle writes through (executable twin of
    /// [`Handle::write_slot`]).
    pub(crate) fn write_pos(&self) -> (w: usize)
        requires
            self.write_slot() is Some,
        ensures
            Some(w) == self.write_slot(),
        decreases *self,
    {
        match self {
            Handle::Writing(i) => *i,
            Handle::MutexGuard(i) => *i,
            Handle::WriteGuard(i) => *i,
            Handle::Bundle(b) => b.inner.write_pos(),
            _ => {
                proof {
                    assert(false);
                }
                0
            },
        }
    }
}

impl Nested {
    /// Both parts' claims are outstanding.
    pub open spec fn valid(self, s: Seq<Slot>) -> bool {
        self.inner.valid(s) && self.outer.valid(s)
    }

    /// What the bundle's view reads through to.
    pub open spec fn target_slot(self) -> Option<usize> {
        self.inner.target_slot()
    }

    /// The value the bundle reads.
    pub open spec fn target_value(self, s: Seq<Slot>) -> Value {
        self.inner.target_value(s)
    }

    /// The slot the bundle may write through.
    pub open spec fn write_slot(self) -> Option<usize> {
        self.inner.write_slot()
    }

    /// The store after the bundle is destroyed: view first, owner second.
    pub open spec fn released(self, s: Seq<Slot>) -> Seq<Slot> {
        self.outer.released(self.inner.released(s))
    }

    /// A bundle is itself a view: read through it.
    pub fn read(&self, store: &Store) -> (v: Value)
        requires
            self.valid(store@),
            self.target_slot() is Some,
        ensures
            v == self.target_value(store@),
    {
        self.inner.read(store)
    }

    /// A bundle of an exclusive view writes through it.
    pub fn write(&self, store: &mut Store, v: Value)
        requires
            wf(old(store)@),
            value_ok(old(store)@, v),
            self.valid(old(store)@),
            self.write_slot() is Some,
        ensures
            self.write_slot() matches Some(w) && final(store)@ == old(store)@.update(
                w as int,
                with_value(old(store)@[w as int], v),
            ),
            wf(final(store)@),
    {
        self.inner.write(store, v)
    }

    /// Treat the bundle as an owner for a further composition.
    pub fn into_handle(self) -> (h: Handle)
        ensures
            h matches Handle::Bundle(b) && *b == self,
            h.target_slot() == self.target_slot(),
            h.write_slot() == self.write_slot(),
            forall|s: Seq<Slot>| #[trigger] h.valid(s) == self.valid(s),
            forall|s: Seq<Slot>| #[trigger] h.released(s) == self.released(s),
    {
        let h = Handle::Bundle(Box::new(self));
        proof {
            assert(h matches Handle::Bundle(b) && b.inner.target_slot() == self.inner.target_slot()
                && b.inner.write_slot() == self.inner.write_slot());
            assert forall|s: Seq<Slot>| #[trigger] h.valid(s) == self.valid(s) by {
                assert(h matches Handle::Bundle(b) && b.inner.valid(s) == self.inner.valid(s)
                    && b.outer.valid(s) == self.outer.valid(s));
            }
            assert forall|s: Seq<Slot>| #[trigger] h.released(s) == self.released(s) by {
                assert(h matches Handle::Bundle(b) && b.outer.released(b.inner.released(s))
                    == self.outer.released(self.inner.released(s)));
            }
        }
        h
    }

    /// Destroy the bundle: its view first, its owner second.
    pub fn release(self, store: &mut Store)
        ensures
            final(store)@ == self.released(old(store)@),
            wf(old(store)@) ==> wf(final(store)@),
    {
        self.inner.release(store);
        self.outer.release(store);
    }

    /// Destroy the bundle as a holder that terminates abnormally would.
    pub fn abandon(self, store: &mut Store)
        ensures
            final(store)@ == self.outer.abandoned(self.inner.abandoned(old(store)@)),
            wf(old(store)@) ==> wf(final(store)@),
    {
        self.inner.abandon(store);
        self.outer.abandon(store);
    }
}

/// Anything that can stand as the owner side of a composition; in ghost terms
/// it is a handle.
pub trait AsOwner: Sized {
    /// The handle this receiver stands for.
    spec fn as_handle(self) -> Handle;
}

impl AsOwner for Handle {
    open spec fn as_handle(self) -> Handle {
        self
    }
}

impl AsOwner for Nested {
    open spec fn as_handle(self) -> Handle {
        Handle::Bundle(Box::new(self))
    }
}

/// A handle stays valid across any store change that keeps its slots' claims:
/// counts may move as long as positive ones stay positive, and views and
/// locks it is counted in stay outstanding.
pub open spec fn claims_kept(a: Slot, b: Slot) -> bool {
    &&& same_kind(a, b)
    &&& (a matches Slot::Alloc { strong: sa, .. } ==> (b matches Slot::Alloc { strong: sb, .. }
        && (sa >= 1 ==> sb >= 1)))
    &&& ((a matches Slot::Cell { access: Access::Shared(n), .. } && n >= 1) ==> (
    b matches Slot::Cell { access: Access::Shared(m), .. } && m >= 1))
    &&& (a matches Slot::Cell { access: Access::Exclusive, .. } ==> b matches Slot::Cell {
        access: Access::Exclusive,
        ..
    })
    &&& (a matches Slot::Mutex { held: true, .. } ==> b matches Slot::Mutex { held: true, .. })
    &&& ((a matches Slot::RwLock { access: Access::Shared(n), .. } && n >= 1) ==> (
    b matches Slot::RwLock { access: Access::Shared(m), .. } && m >= 1))
    &&& (a matches Slot::RwLock { access: Access::Exclusive, .. } ==> b matches Slot::RwLock {
        access: Access::Exclusive,
        ..
    })
}

/// Validity is preserved by any store change that keeps every slot's claims.
pub proof fn lemma_valid_kept(h: Handle, s1: Seq<Slot>, s2: Seq<Slot>)
    requires
        h.valid(s1),
        s2.len() == s1.len(),
        forall|i: int| 0 <= i < s1.len() ==> claims_kept(s1[i], #[trigger] s2[i]),
    ensures
        h.valid(s2),
    decreases h,
{
    match h {
        Handle::Bundle(b) => {
            lemma_valid_kept(b.inner, s1, s2);
            lemma_valid_kept(b.outer, s1, s2);
        },
        Handle::Direct(i) => {},
        Handle::Strong(i) => {
            assert(claims_kept(s1[i as int], s2[i as int]));
        },
        Handle::Weak(i) => {
            assert(claims_kept(s1[i as int], s2[i as int]));
        },
        Handle::Reading(i) => {
            assert(claims_kept(s1[i as int], s2[i as int]));
        },
        Handle::Writing(i) => {
            assert(claims_kept(s1[i as int], s2[i as int]));
        },
        Handle::MutexGuard(i) => {
            assert(claims_kept(s1[i as int], s2[i as int]));
        },
        Handle::ReadGuard(i) => {
            assert(claims_kept(s1[i as int], s2[i as int]));
        },
        Handle::WriteGuard(i) => {
            assert(claims_kept(s1[i as int], s2[i as int]));
        },
    }
}

} // verus!

//! The modelled resources: a store of slots, one per primitive instance.
//!
//! Slots are identified by index and are never removed, so an index stays
//! meaningful for a whole run; destruction is recorded in the slot's own
//! dynamic state (a strong count of zero, a released view, an unlocked lock).

use vstd::prelude::*;

verus! {

/// A plain value held by a slot: an integer payload, or a reference to
/// another slot of the indicated kind, which is what lets instances nest.
#[derive(Clone, Copy, Debug, PartialEq, Eq, Structural)]
pub enum Value {
    Int(i64),
    Cell(usize),
    Weak(usize),
    Mutex(usize),
    Rw(usize),
}

/// The outstanding dynamic access to a checked cell or a reader-writer lock:
/// none, some number of shared views, or one exclusive view.
#[derive(Clone, Copy, Debug, PartialEq, Eq, Structural)]
pub enum Access {
    Idle,
    Shared(u64),
    Exclusive,
}

/// One slot of the store: a reference-counted allocation, a dynamically
/// checked cell, a mutual-exclusion lock, or a reader-writer lock, each with
/// the value it holds and its own dynamic state.
#[derive(Clone, Copy, Debug, PartialEq, Eq, Structural)]
pub enum Slot {
    Alloc { value: Value, strong: u64 },
    Cell { value: Value, access: Access },
    Mutex { value: Value, held: bool, poisoned: bool },
    RwLock { value: Value, access: Access, poisoned: bool },
}

/// The value a slot currently stores.
pub open spec fn stored(sl: Slot) -> Value {
    match sl {
        Slot::Alloc { value, .. } => value,
        Slot::Cell { value, .. } => value,
        Slot::Mutex { value, .. } => value,
        Slot::RwLock { value, .. } => value,
    }
}

/// A value is well formed when every slot index it carries points into the
/// store, at a slot of the matching kind.
pub open spec fn value_ok(s: Seq<Slot>, v: Value) -> bool {
    match v {
        Value::Int(_) => true,
        Value::Cell(c) => c < s.len() && s[c as int] is Cell,
        Value::Weak(a) => a < s.len() && s[a as int] is Alloc,
        Value::Mutex(m) => m < s.len() && s[m as int] is Mutex,
        Value::Rw(l) => l < s.len() && s[l as int] is RwLock,
    }
}

/// A store is well formed when every stored value is.
pub open spec fn wf(s: Seq<Slot>) -> bool {
    forall|i: int| 0 <= i < s.len() ==> value_ok(s, #[trigger] stored(s[i]))
}

/// Whether one more shared view can be taken.
pub open spec fn can_incr(a: Access) -> bool {
    match a {
        Access::Idle => true,
        Access::Shared(n) => n < u64::MAX,
        Access::Exclusive => false,
    }
}

/// One more shared view outstanding.
pub open spec fn shared_incr(a: Access) -> Access {
    match a {
        Access::Idle => Access::Shared(1),
        Access::Shared(n) => Access::Shared((n + 1) as u64),
        Access::Exclusive => Access::Exclusive,
    }
}

/// One shared view gone.
pub open spec fn shared_decr(a: Access) -> Access {
    match a {
        Access::Shared(n) => if n <= 1 {
            Access::Idle
        } else {
            Access::Shared((n - 1) as u64)
        },
        _ => a,
    }
}

/// The same slot, holding a new value.
pub open spec fn with_value(sl: Slot, v: Value) -> Slot {
    match sl {
        Slot::Alloc { strong, .. } => Slot::Alloc { value: v, strong },
        Slot::Cell { access, .. } => Slot::Cell { value: v, access },
        Slot::Mutex { held, poisoned, .. } => Slot::Mutex { value: v, held, poisoned },
        Slot::RwLock { access, poisoned, .. } => Slot::RwLock { value: v, access, poisoned },
    }
}

/// Two slots of the same kind.
pub open spec fn same_kind(a: Slot, b: Slot) -> bool {
    &&& (a is Alloc <==> b is Alloc)
    &&& (a is Cell <==> b is Cell)
    &&& (a is Mutex <==> b is Mutex)
    &&& (a is RwLock <==> b is RwLock)
}

/// Two slots of the same kind holding the same value; only their dynamic
/// state (counts, locks, poison flags) may differ.
pub open spec fn same_shape(a: Slot, b: Slot) -> bool {
    same_kind(a, b) && stored(a) == stored(b)
}

/// Well-formedness only looks at slot kinds and stored values, so it carries
/// over to any store of the same kinds whose stored values are all well
/// formed against the first.
pub proof fn lemma_wf_kinds(s1: Seq<Slot>, s2: Seq<Slot>)
    requires
        s2.len() == s1.len(),
        forall|i: int| 0 <= i < s1.len() ==> same_kind(s1[i], #[trigger] s2[i]),
        forall|i: int| 0 <= i < s2.len() ==> value_ok(s1, #[trigger] stored(s2[i])),
    ensures
        wf(s2),
{
    assert forall|i: int| 0 <= i < s2.len() implies value_ok(s2, #[trigger] stored(s2[i])) by {
        assert(value_ok(s1, stored(s2[i])));
        match stored(s2[i]) {
            Value::Int(_) => {},
            Value::Cell(c) => {
                assert(same_kind(s1[c as int], s2[c as int]));
            },
            Value::Weak(a) => {
                assert(same_kind(s1[a as int], s2[a as int]));
            },
            Value::Mutex(m) => {
                assert(same_kind(s1[m as int], s2[m as int]));
            },
            Value::Rw(l) => {
                assert(same_kind(s1[l as int], s2[l as int]));
            },
        }
    }
}

/// A value stays well formed across any store change that keeps every slot's
/// kind.
pub proof fn lemma_value_ok_kinds(s1: Seq<Slot>, s2: Seq<Slot>, v: Value)
    requires
        s2.len() == s1.len(),
        forall|i: int| 0 <= i < s1.len() ==> same_kind(s1[i], #[trigger] s2[i]),
        value_ok(s1, v),
    ensures
        value_ok(s2, v),
{
    match v {
        Value::Int(_) => {},
        Value::Cell(c) => {
            assert(same_kind(s1[c as int], s2[c as int]));
        },
        Value::Weak(a) => {
            assert(same_kind(s1[a as int], s2[a as int]));
        },
        Value::Mutex(m) => {
            assert(same_kind(s1[m as int], s2[m as int]));
        },
        Value::Rw(l) => {
            assert(same_kind(s1[l as int], s2[l as int]));
        },
    }
}

/// Changing only dynamic state preserves well-formedness.
pub proof fn lemma_wf_same_shape(s1: Seq<Slot>, s2: Seq<Slot>)
    requires
        wf(s1),
        s2.len() == s1.len(),
        forall|i: int| 0 <= i < s1.len() ==> same_shape(s1[i], #[trigger] s2[i]),
    ensures
        wf(s2),
{
    lemma_wf_kinds(s1, s2);
}

/// Appending a slot whose value is well formed preserves well-formedness.
pub proof fn lemma_wf_push(s: Seq<Slot>, sl: Slot)
    requires
        wf(s),
        value_ok(s, stored(sl)),
    ensures
        wf(s.push(sl)),
{
    let s2 = s.push(sl);
    assert forall|i: int| 0 <= i < s2.len() implies value_ok(s2, #[trigger] stored(s2[i])) by {
        assert(value_ok(s, stored(s2[i])));
        match stored(s2[i]) {
            Value::Int(_) => {},
            Value::Cell(c) => {
                assert(s2[c as int] == s[c as int]);
            },
            Value::Weak(a) => {
                assert(s2[a as int] == s[a as int]);
            },
            Value::Mutex(m) => {
                assert(s2[m as int] == s[m as int]);
            },
            Value::Rw(l) => {
                assert(s2[l as int] == s[l as int]);
            },
        }
    }
}

/// The store of every primitive instance the model knows of.
pub struct Store {
    slots: Vec<Slot>,
}

impl View for Store {
    type V = Seq<Slot>;

    closed spec fn view(&self) -> Seq<Slot> {
        self.slots@
    }
}

impl Store {
    /// An empty store.
    pub fn new() -> (st: Store)
        ensures
            st@ == Seq::<Slot>::empty(),
            wf(st@),
    {
        Store { slots: Vec::new() }
    }

    /// The number of slots.
    pub fn len(&self) -> (n: usize)
        ensures
            n == self@.len(),
    {
        self.slots.len()
    }

    /// The slot at index `i`.
    pub fn slot(&self, i: usize) -> (sl: Slot)
        requires
            i < self@.len(),
        ensures
            sl == self@[i as int],
    {
        self.slots[i]
    }

    /// The value stored at slot `i` — direct inspection, bypassing every
    /// handle. Laws and tests compare what a view reads against this.
    pub fn slot_value(&self, i: usize) -> (v: Value)
        requires
            i < self@.len(),
        ensures
            v == stored(self@[i as int]),
    {
        match self.slots[i] {
            Slot::Alloc { value, .. } => value,
            Slot::Cell { value, .. } => value,
            Slot::Mutex { value, .. } => value,
            Slot::RwLock { value, .. } => value,
        }
    }

    /// Replace the slot at index `i`.
    pub(crate) fn set_slot(&mut self, i: usize, sl: Slot)
        requires
            i < old(self)@.len(),
        ensures
            final(self)@ == old(self)@.update(i as int, sl),
    {
        self.slots[i] = sl;
    }

    /// Append a slot.
    pub(crate) fn push_slot(&mut self, sl: Slot)
        ensures
            final(self)@ == old(self)@.push(sl),
    {
        self.slots.push(sl);
    }
}

} // verus!

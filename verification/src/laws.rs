//! The laws the composition operations obey, stated over whole chains and
//! proved from the operations' own contracts.

use vstd::prelude::*;

use crate::cell::NestedRefCell;
use crate::handle::AsOwner;
use crate::handle::Handle;
use crate::handle::Nested;
use crate::rc::NestedRcWeak;
use crate::handle::swap_targets;
use crate::state::can_incr;
use crate::state::lemma_value_ok_kinds;
use crate::state::lemma_wf_kinds;
use crate::state::same_kind;
use crate::state::same_shape;
use crate::state::stored;
use crate::state::value_ok;
use crate::state::wf;
use crate::state::Access;
use crate::state::Slot;
use crate::state::Store;
use crate::state::Value;
use crate::sync::Acquired;
use crate::sync::NestedMutex;
use crate::sync::TryAcquired;

verus! {

/// A nesting chain of checked cells: distinct slots, each a cell with room
/// for one more shared view, each but the last storing the next cell of the
/// chain.
pub open spec fn cell_chain(s: Seq<Slot>, ids: Seq<usize>) -> bool {
    &&& (forall|i: int|
        0 <= i < ids.len() ==> (#[trigger] ids[i]) < s.len() && (s[ids[i] as int]
            matches Slot::Cell { access, .. } && can_incr(access)))
    &&& (forall|i: int|
        0 <= i < ids.len() - 1 ==> stored(s[(#[trigger] ids[i]) as int]) == Value::Cell(
            ids[i + 1],
        ))
    &&& (forall|i: int, j: int| 0 <= i < j < ids.len() ==> ids[i] != ids[j])
}

/// Law: a chain of composed shared-view acquisitions, of any depth, yields a
/// view that reads exactly the value stored in the innermost cell — the same
/// value direct inspection of that cell gives — and changes no stored value
/// anywhere.
pub fn borrow_chain(h: Handle, d: usize, store: &mut Store, ids: Ghost<Seq<usize>>) -> (b: Nested)
    requires
        wf(old(store)@),
        h.valid(old(store)@),
        d == ids@.len(),
        d >= 1,
        cell_chain(old(store)@, ids@),
        h.cell_of(old(store)@) == Some(ids@[0]),
    ensures
        wf(final(store)@),
        b.valid(final(store)@),
        final(store)@.len() == old(store)@.len(),
        forall|i: int|
            0 <= i < old(store)@.len() ==> same_shape(old(store)@[i], #[trigger] final(store)@[i]),
        b.target_slot() == Some(ids@.last()),
        b.target_value(final(store)@) == stored(old(store)@[ids@.last() as int]),
    decreases d,
{
    let ghost s0 = old(store)@;
    let ghost c0 = ids@[0];
    let b = h.nest_borrow(store);
    proof {
        assert(s0[c0 as int] is Cell);
        assert forall|i: int| 0 <= i < s0.len() implies same_shape(s0[i], #[trigger] store@[i]) by {}
    }
    if d == 1 {
        proof {
            assert(ids@.last() == c0);
            assert(stored(store@[c0 as int]) == stored(s0[c0 as int]));
        }
        b
    } else {
        let ghost rest = ids@.subrange(1, d as int);
        proof {
            assert(rest.len() == d - 1);
            assert forall|i: int| 0 <= i < rest.len() implies (#[trigger] rest[i]) == ids@[i + 1] by {}
            assert(stored(s0[c0 as int]) == Value::Cell(ids@[1]));
            assert forall|i: int| 0 <= i < rest.len() implies rest[i] != c0 by {
                assert(ids@[0] != ids@[i + 1]);
            }
            assert forall|i: int| 0 <= i < rest.len() implies store@[(#[trigger] rest[i]) as int]
                == s0[rest[i] as int] by {}
            assert(cell_chain(store@, rest)) by {
                assert forall|i: int|
                    0 <= i < rest.len() implies (#[trigger] rest[i]) < store@.len() && (store@[
                    rest[i] as int
                ] matches Slot::Cell { access, .. } && can_incr(access)) by {
                    assert(s0[ids@[i + 1] as int] matches Slot::Cell { access, .. }
                        && can_incr(access));
                }
                assert forall|i: int|
                    0 <= i < rest.len() - 1 implies stored(store@[(#[trigger] rest[i]) as int])
                    == Value::Cell(rest[i + 1]) by {
                    assert(stored(s0[ids@[i + 1] as int]) == Value::Cell(ids@[i + 2]));
                }
            }
        }
        let h2 = b.into_handle();
        proof {
            assert(h2 matches Handle::Bundle(bb) && bb.inner == Handle::Reading(c0) && bb.outer
                == h);
            assert(h2.valid(store@));
            assert(h2.target_slot() == Some(c0)) by {
                assert(h2 matches Handle::Bundle(bb) && bb.inner.target_slot() == Some(c0));
            }
            assert(h2.cell_of(store@) == Some(ids@[1]));
            assert(rest[0] == ids@[1]);
        }
        let ghost s1 = store@;
        let r = borrow_chain(h2, d - 1, store, Ghost(rest));
        proof {
            assert forall|i: int| 0 <= i < s0.len() implies same_shape(
                s0[i],
                #[trigger] store@[i],
            ) by {
                assert(same_shape(s0[i], s1[i]));
                assert(same_shape(s1[i], store@[i]));
            }
            assert(rest.last() == ids@.last());
            assert(stored(s1[rest.last() as int]) == stored(s0[ids@.last() as int]));
        }
        r
    }
}

/// A chain of weak references: distinct allocation slots, each with room in
/// its strong count, each but the last storing a weak reference to the next.
pub open spec fn weak_chain(s: Seq<Slot>, ids: Seq<usize>) -> bool {
    &&& (forall|i: int|
        0 <= i < ids.len() ==> (#[trigger] ids[i]) < s.len() && (s[ids[i] as int]
            matches Slot::Alloc { strong, .. } && strong < u64::MAX))
    &&& (forall|i: int|
        0 <= i < ids.len() - 1 ==> stored(s[(#[trigger] ids[i]) as int]) == Value::Weak(
            ids[i + 1],
        ))
    &&& (forall|i: int, j: int| 0 <= i < j < ids.len() ==> ids[i] != ids[j])
}

/// Law: composing upgrade operations along a chain of weak references
/// succeeds at every level if and only if every allocation on the chain is
/// still alive — in particular, while the root owner of every level is kept
/// alive the whole composition succeeds, and once any level has been
/// destroyed the outcome is empty, never a stale value. On success the final
/// view reads exactly the innermost allocation's current value.
pub fn upgrade_chain(h: Handle, d: usize, store: &mut Store, ids: Ghost<Seq<usize>>) -> (r: Option<
    Nested,
>)
    requires
        wf(old(store)@),
        h.valid(old(store)@),
        d == ids@.len(),
        d >= 1,
        weak_chain(old(store)@, ids@),
        h.weak_of(old(store)@) == Some(ids@[0]),
    ensures
        wf(final(store)@),
        final(store)@.len() == old(store)@.len(),
        forall|i: int|
            0 <= i < old(store)@.len() ==> same_shape(old(store)@[i], #[trigger] final(store)@[i]),
        (r is Some <==> (forall|i: int|
            0 <= i < ids@.len() ==> (#[trigger] old(store)@[ids@[i] as int])->Alloc_strong >= 1)),
        r matches Some(b) ==> {
            &&& b.valid(final(store)@)
            &&& b.target_slot() == Some(ids@.last())
            &&& b.target_value(final(store)@) == stored(old(store)@[ids@.last() as int])
        },
    decreases d,
{
    let ghost s0 = old(store)@;
    let ghost a0 = ids@[0];
    let r0 = NestedRcWeak::nest_upgrade(h, store);
    match r0 {
        None => {
            proof {
                assert(s0[a0 as int]->Alloc_strong == 0);
                Handle::lemma_released_shape(h, s0);
            }
            None
        },
        Some(b) => {
            proof {
                assert(s0[a0 as int]->Alloc_strong >= 1);
                assert forall|i: int| 0 <= i < s0.len() implies same_shape(
                    s0[i],
                    #[trigger] store@[i],
                ) by {}
            }
            if d == 1 {
                proof {
                    assert(ids@.last() == a0);
                    assert(stored(store@[a0 as int]) == stored(s0[a0 as int]));
                }
                Some(b)
            } else {
                let ghost rest = ids@.subrange(1, d as int);
                proof {
                    assert(rest.len() == d - 1);
                    assert forall|i: int| 0 <= i < rest.len() implies (#[trigger] rest[i]) == ids@[
                        i + 1
                    ] by {}
                    assert forall|i: int| 0 <= i < rest.len() implies rest[i] != a0 by {
                        assert(ids@[0] != ids@[i + 1]);
                    }
                    assert forall|i: int|
                        0 <= i < rest.len() implies store@[(#[trigger] rest[i]) as int] == s0[
                        rest[i] as int
                    ] by {}
                    assert(weak_chain(store@, rest)) by {
                        assert forall|i: int|
                            0 <= i < rest.len() implies (#[trigger] rest[i]) < store@.len() && (
                        store@[rest[i] as int] matches Slot::Alloc { strong, .. } && strong
                            < u64::MAX) by {
                            assert(s0[ids@[i + 1] as int] matches Slot::Alloc { strong, .. }
                                && strong < u64::MAX);
                        }
                        assert forall|i: int|
                            0 <= i < rest.len() - 1 implies stored(
                            store@[(#[trigger] rest[i]) as int],
                        ) == Value::Weak(rest[i + 1]) by {
                            assert(stored(s0[ids@[i + 1] as int]) == Value::Weak(ids@[i + 2]));
                        }
                    }
                    assert(stored(s0[a0 as int]) == Value::Weak(ids@[1]));
                }
                let h2 = b.into_handle();
                proof {
                    assert(h2 matches Handle::Bundle(bb) && bb.inner == Handle::Strong(a0)
                        && bb.outer == h);
                    assert(h2.valid(store@));
                    assert(h2.target_slot() == Some(a0)) by {
                        assert(h2 matches Handle::Bundle(bb) && bb.inner.target_slot() == Some(
                            a0,
                        ));
                    }
                    assert(h2.weak_of(store@) == Some(ids@[1]));
                    assert(rest[0] == ids@[1]);
                }
                let ghost s1 = store@;
                let r = upgrade_chain(h2, d - 1, store, Ghost(rest));
                proof {
                    assert forall|i: int| 0 <= i < s0.len() implies same_shape(
                        s0[i],
                        #[trigger] store@[i],
                    ) by {
                        assert(same_shape(s0[i], s1[i]));
                        assert(same_shape(s1[i], store@[i]));
                    }
                    assert forall|i: int| 0 <= i < rest.len() implies (#[trigger] s1[
                        rest[i] as int
                    ])->Alloc_strong == s0[ids@[i + 1] as int]->Alloc_strong by {}
                    assert((r is Some) <==> (forall|i: int|
                        0 <= i < ids@.len() ==> (#[trigger] s0[ids@[i] as int])->Alloc_strong
                            >= 1)) by {
                        if r is Some {
                            assert forall|i: int| 0 <= i < ids@.len() implies (#[trigger] s0[
                                ids@[i] as int
                            ])->Alloc_strong >= 1 by {
                                if i >= 1 {
                                    assert(s1[rest[i - 1] as int]->Alloc_strong >= 1);
                                }
                            }
                        }
                        if forall|i: int|
                            0 <= i < ids@.len() ==> (#[trigger] s0[ids@[i] as int])->Alloc_strong
                                >= 1 {
                            assert forall|i: int| 0 <= i < rest.len() implies (#[trigger] s1[
                                rest[i] as int
                            ])->Alloc_strong >= 1 by {
                                assert(s0[ids@[i + 1] as int]->Alloc_strong >= 1);
                            }
                        }
                    }
                    assert(rest.last() == ids@.last());
                    assert(stored(s1[rest.last() as int]) == stored(s0[ids@.last() as int]));
                }
                r
            }
        },
    }
}

/// Law: a mutation made through an exclusive view is observed by a shared
/// view acquired after the exclusive one is released — write-then-read
/// visibility across acquire/release boundaries.
pub fn update_then_observe(c: usize, v: Value, store: &mut Store) -> (r: Value)
    requires
        wf(old(store)@),
        value_ok(old(store)@, v),
        c < old(store)@.len(),
        old(store)@[c as int] matches Slot::Cell { access: Access::Idle, .. },
    ensures
        r == v,
        final(store)@ == old(store)@.update(
            c as int,
            Slot::Cell { value: v, access: Access::Idle },
        ),
        wf(final(store)@),
{
    let ghost s0 = old(store)@;
    let b = Handle::Direct(c).nest_borrow_mut(store);
    proof {
        assert(b.write_slot() == Some(c)) by {
            assert(b.inner.write_slot() == Some(c));
        }
        assert forall|i: int| 0 <= i < s0.len() implies same_kind(s0[i], #[trigger] store@[i]) by {}
        lemma_value_ok_kinds(s0, store@, v);
        assert(b.valid(store@));
    }
    b.write(store, v);
    let ghost s2 = store@;
    proof {
        assert(s2[c as int] == Slot::Cell { value: v, access: Access::Exclusive });
    }
    let ghost binner = b.inner;
    let ghost bouter = b.outer;
    b.release(store);
    proof {
        assert(binner.released(s2) == s2.update(
            c as int,
            Slot::Cell { value: v, access: Access::Idle },
        ));
        assert(bouter.released(binner.released(s2)) == binner.released(s2));
        assert(store@ =~= s0.update(c as int, Slot::Cell { value: v, access: Access::Idle }));
        assert forall|i: int| 0 <= i < s0.len() implies same_kind(s0[i], #[trigger] store@[i]) by {}
        assert forall|i: int| 0 <= i < store@.len() implies value_ok(
            s0,
            #[trigger] stored(store@[i]),
        ) by {
            if i != c {
                assert(stored(store@[i]) == stored(s0[i]));
            }
        }
        lemma_wf_kinds(s0, store@);
        assert(Handle::Direct(c).cell_of(store@) == Some(c));
    }
    let ghost s3 = store@;
    let b2 = Handle::Direct(c).nest_borrow(store);
    proof {
        assert(b2.target_slot() == Some(c)) by {
            assert(b2.inner.target_slot() == Some(c));
        }
        assert(stored(store@[c as int]) == v);
    }
    let r = b2.read(store);
    let ghost s4 = store@;
    let ghost b2inner = b2.inner;
    let ghost b2outer = b2.outer;
    b2.release(store);
    proof {
        assert(s4[c as int] == Slot::Cell { value: v, access: Access::Shared(1) });
        assert(b2inner.released(s4) == s4.update(
            c as int,
            Slot::Cell { value: v, access: Access::Idle },
        ));
        assert(b2outer.released(b2inner.released(s4)) == b2inner.released(s4));
        assert(store@ =~= s0.update(c as int, Slot::Cell { value: v, access: Access::Idle }));
        assert forall|i: int| 0 <= i < s0.len() implies same_kind(s0[i], #[trigger] store@[i]) by {}
        assert forall|i: int| 0 <= i < store@.len() implies value_ok(
            s0,
            #[trigger] stored(store@[i]),
        ) by {
            if i != c {
                assert(stored(store@[i]) == stored(s0[i]));
            }
        }
        lemma_wf_kinds(s0, store@);
    }
    r
}

/// Law: the targets of two independently obtained exclusive composed views
/// into two different cells can be exchanged through the generic swap, and
/// shared views acquired afterwards observe the exchange — no bundle
/// silently aliases or corrupts its target.
pub fn exchange_and_observe(c1: usize, c2: usize, store: &mut Store) -> (r: (Value, Value))
    requires
        wf(old(store)@),
        c1 < old(store)@.len(),
        c2 < old(store)@.len(),
        c1 != c2,
        old(store)@[c1 as int] matches Slot::Cell { access: Access::Idle, .. },
        old(store)@[c2 as int] matches Slot::Cell { access: Access::Idle, .. },
    ensures
        r.0 == stored(old(store)@[c2 as int]),
        r.1 == stored(old(store)@[c1 as int]),
        final(store)@ == old(store)@.update(
            c1 as int,
            Slot::Cell { value: stored(old(store)@[c2 as int]), access: Access::Idle },
        ).update(
            c2 as int,
            Slot::Cell { value: stored(old(store)@[c1 as int]), access: Access::Idle },
        ),
        wf(final(store)@),
{
    let ghost s0 = old(store)@;
    let ghost v1 = stored(s0[c1 as int]);
    let ghost v2 = stored(s0[c2 as int]);
    let b1 = Handle::Direct(c1).nest_borrow_mut(store);
    proof {
        assert(Handle::Direct(c2).cell_of(store@) == Some(c2));
        assert(store@[c2 as int] == s0[c2 as int]);
    }
    let b2 = Handle::Direct(c2).nest_borrow_mut(store);
    let h1 = b1.into_handle();
    let h2 = b2.into_handle();
    proof {
        assert(h1.valid(store@)) by {
            assert(h1 matches Handle::Bundle(bb) && bb.inner.valid(store@) && bb.outer.valid(
                store@,
            ));
        }
        assert(h1.write_slot() == Some(c1));
        assert(h2.write_slot() == Some(c2));
        lemma_value_ok_kinds_twice(s0, store@, v1, v2);
    }
    swap_targets(&h1, &h2, store);
    let ghost s3 = store@;
    proof {
        assert(s3[c1 as int] == Slot::Cell { value: v2, access: Access::Exclusive });
        assert(s3[c2 as int] == Slot::Cell { value: v1, access: Access::Exclusive });
    }
    h1.release(store);
    proof {
        assert(store@ == s3.update(c1 as int, Slot::Cell { value: v2, access: Access::Idle }));
    }
    let ghost s4 = store@;
    h2.release(store);
    proof {
        assert(store@ == s4.update(c2 as int, Slot::Cell { value: v1, access: Access::Idle }));
        assert(store@ =~= s0.update(
            c1 as int,
            Slot::Cell { value: v2, access: Access::Idle },
        ).update(c2 as int, Slot::Cell { value: v1, access: Access::Idle }));
        assert forall|i: int| 0 <= i < s0.len() implies same_kind(s0[i], #[trigger] store@[i]) by {}
        assert forall|i: int| 0 <= i < store@.len() implies value_ok(
            s0,
            #[trigger] stored(store@[i]),
        ) by {
            if i != c1 && i != c2 {
                assert(stored(store@[i]) == stored(s0[i]));
            }
        }
        lemma_wf_kinds(s0, store@);
        assert(Handle::Direct(c1).cell_of(store@) == Some(c1));
    }
    let ghost s5 = store@;
    let o1 = Handle::Direct(c1).nest_borrow(store);
    proof {
        assert(o1.target_slot() == Some(c1)) by {
            assert(o1.inner.target_slot() == Some(c1));
        }
        assert(stored(store@[c1 as int]) == v2);
        assert(Handle::Direct(c2).cell_of(store@) == Some(c2));
        assert(store@[c2 as int] == s5[c2 as int]);
    }
    let r1 = o1.read(store);
    let o2 = Handle::Direct(c2).nest_borrow(store);
    proof {
        assert(o2.target_slot() == Some(c2)) by {
            assert(o2.inner.target_slot() == Some(c2));
        }
        assert(stored(store@[c2 as int]) == v1);
    }
    let r2 = o2.read(store);
    let ghost s6 = store@;
    let ghost o1inner = o1.inner;
    let ghost o1outer = o1.outer;
    let ghost o2inner = o2.inner;
    let ghost o2outer = o2.outer;
    o1.release(store);
    let ghost s7 = store@;
    proof {
        assert(o1inner.released(s6) == s6.update(
            c1 as int,
            Slot::Cell { value: v2, access: Access::Idle },
        ));
        assert(o1outer.released(o1inner.released(s6)) == o1inner.released(s6));
    }
    o2.release(store);
    proof {
        assert(o2inner.released(s7) == s7.update(
            c2 as int,
            Slot::Cell { value: v1, access: Access::Idle },
        ));
        assert(o2outer.released(o2inner.released(s7)) == o2inner.released(s7));
        assert(store@ =~= s0.update(
            c1 as int,
            Slot::Cell { value: v2, access: Access::Idle },
        ).update(c2 as int, Slot::Cell { value: v1, access: Access::Idle }));
        assert(store@ =~= s5);
    }
    (r1, r2)
}

/// Both exchanged values stay well formed across the borrow transitions.
proof fn lemma_value_ok_kinds_twice(s1: Seq<Slot>, s2: Seq<Slot>, va: Value, vb: Value)
    requires
        s2.len() == s1.len(),
        forall|i: int| 0 <= i < s1.len() ==> same_kind(s1[i], #[trigger] s2[i]),
        value_ok(s1, va),
        value_ok(s1, vb),
    ensures
        value_ok(s2, va),
        value_ok(s2, vb),
{
    lemma_value_ok_kinds(s1, s2, va);
    lemma_value_ok_kinds(s1, s2, vb);
}

/// Law: after a holder terminates abnormally while holding a lock, the next
/// acquisition reports the poisoned state, and the payload reachable through
/// the flagged outcome is the very value the failed holder last wrote.
pub fn abandon_then_relock(m: usize, v: Value, store: &mut Store) -> (r: TryAcquired)
    requires
        wf(old(store)@),
        value_ok(old(store)@, v),
        m < old(store)@.len(),
        old(store)@[m as int] matches Slot::Mutex { held: false, poisoned: false, .. },
    ensures
        r matches TryAcquired::Poisoned(b) && {
            &&& b.inner == Handle::MutexGuard(m)
            &&& b.valid(final(store)@)
            &&& b.target_value(final(store)@) == v
        },
        final(store)@ == old(store)@.update(
            m as int,
            Slot::Mutex { value: v, held: true, poisoned: true },
        ),
        wf(final(store)@),
{
    let ghost s0 = old(store)@;
    // A holder acquires the lock and writes through its exclusive view.
    let a = Handle::Direct(m).nest_lock(store);
    let b = match a {
        Acquired::Clean(b) => b,
        Acquired::Poisoned(b) => {
            proof {
                assert(false);
            }
            b
        },
    };
    proof {
        assert(b.write_slot() == Some(m)) by {
            assert(b.inner.write_slot() == Some(m));
        }
        assert forall|i: int| 0 <= i < s0.len() implies same_kind(s0[i], #[trigger] store@[i]) by {}
        lemma_value_ok_kinds(s0, store@, v);
    }
    b.write(store, v);
    let ghost s2 = store@;
    proof {
        assert(s2[m as int] == Slot::Mutex { value: v, held: true, poisoned: false });
    }
    let ghost binner = b.inner;
    let ghost bouter = b.outer;
    // The holder terminates abnormally while holding the lock.
    b.abandon(store);
    proof {
        assert(binner.abandoned(s2) == s2.update(
            m as int,
            Slot::Mutex { value: v, held: false, poisoned: true },
        ));
        assert(bouter.abandoned(binner.abandoned(s2)) == bouter.released(binner.abandoned(s2)));
        assert(bouter.released(binner.abandoned(s2)) == binner.abandoned(s2));
        assert(store@ =~= s0.update(
            m as int,
            Slot::Mutex { value: v, held: false, poisoned: true },
        ));
        assert forall|i: int| 0 <= i < s0.len() implies same_kind(s0[i], #[trigger] store@[i]) by {}
        assert forall|i: int| 0 <= i < store@.len() implies value_ok(
            s0,
            #[trigger] stored(store@[i]),
        ) by {
            if i != m {
                assert(stored(store@[i]) == stored(s0[i]));
            }
        }
        lemma_wf_kinds(s0, store@);
        assert(Handle::Direct(m).mutex_of(store@) == Some(m));
    }
    // The next acquisition reports the poison; its payload is still readable.
    let r = Handle::Direct(m).nest_try_lock(store);
    proof {
        assert(store@ =~= s0.update(
            m as int,
            Slot::Mutex { value: v, held: true, poisoned: true },
        ));
        assert(r matches TryAcquired::Poisoned(b2) && b2.target_value(store@) == v) by {
            assert(r matches TryAcquired::Poisoned(b2) && b2.inner == Handle::MutexGuard(m)
                && b2.inner.target_value(store@) == v);
        }
    }
    r
}


} // verus!

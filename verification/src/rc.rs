//! Composition over the single-thread reference-counted handle.
//!
//! An allocation keeps a strong count; strong handles are counted, weak ones
//! are not. Once the count reaches zero the target counts as destroyed: no
//! upgrade can recover it, and nothing can read it, because every readable
//! handle is a counted one.

use vstd::prelude::*;

use crate::handle::claims_kept;
use crate::handle::lemma_valid_kept;
use crate::handle::AsOwner;
use crate::handle::Handle;
use crate::handle::Nested;
use crate::state::lemma_wf_same_shape;
use crate::state::same_shape;
use crate::state::value_ok;
use crate::state::wf;
use crate::state::Slot;
use crate::state::Store;
use crate::state::Value;

verus! {

/// The store after one more strong handle to allocation `a` is taken.
pub open spec fn strong_bumped(s: Seq<Slot>, a: int) -> Seq<Slot> {
    match s[a] {
        Slot::Alloc { value, strong } => s.update(
            a,
            Slot::Alloc { value, strong: (strong + 1) as u64 },
        ),
        _ => s,
    }
}

/// A fresh reference-counted allocation holding `v`; returns its first
/// strong handle.
pub fn new_alloc(store: &mut Store, v: Value) -> (h: Handle)
    requires
        wf(old(store)@),
        value_ok(old(store)@, v),
    ensures
        final(store)@ == old(store)@.push(Slot::Alloc { value: v, strong: 1 }),
        h == Handle::Strong(old(store)@.len() as usize),
        h.valid(final(store)@),
        wf(final(store)@),
{
    let a = store.len();
    store.push_slot(Slot::Alloc { value: v, strong: 1 });
    proof {
        crate::state::lemma_wf_push(old(store)@, Slot::Alloc { value: v, strong: 1 });
    }
    Handle::Strong(a)
}

/// A non-owning handle to the same allocation; the strong count is untouched.
pub fn downgrade(h: &Handle) -> (w: Handle)
    requires
        h is Strong,
    ensures
        *h matches Handle::Strong(a) && w == Handle::Weak(a),
{
    match h {
        Handle::Strong(a) => Handle::Weak(*a),
        _ => {
            proof {
                assert(false);
            }
            Handle::Weak(0)
        },
    }
}

/// Attempt to recover an owning handle from a weak one: succeeds exactly
/// while the allocation's strong count is positive, and then counts the new
/// handle; yields nothing once the target has been destroyed.
pub fn upgrade(w: &Handle, store: &mut Store) -> (r: Option<Handle>)
    requires
        wf(old(store)@),
        *w matches Handle::Weak(a) && a < old(store)@.len() && (old(store)@[a as int]
            matches Slot::Alloc { strong, .. } && strong < u64::MAX),
    ensures
        *w matches Handle::Weak(a) ==> {
            &&& wf(final(store)@)
            &&& (old(store)@[a as int]->Alloc_strong == 0 ==> r is None && final(store)@ == old(
                store,
            )@)
            &&& (old(store)@[a as int]->Alloc_strong >= 1 ==> (r matches Some(h) && {
                &&& final(store)@ == strong_bumped(old(store)@, a as int)
                &&& h == Handle::Strong(a)
                &&& h.valid(final(store)@)
            }))
        },
{
    let a = match w {
        Handle::Weak(a) => *a,
        _ => {
            proof {
                assert(false);
            }
            0
        },
    };
    match store.slot(a) {
        Slot::Alloc { value, strong } => {
            if strong == 0 {
                None
            } else {
                store.set_slot(a, Slot::Alloc { value, strong: strong + 1 });
                proof {
                    let s1 = old(store)@;
                    let s2 = store@;
                    assert forall|i: int| 0 <= i < s1.len() implies same_shape(
                        s1[i],
                        #[trigger] s2[i],
                    ) by {}
                    lemma_wf_same_shape(s1, s2);
                }
                Some(Handle::Strong(a))
            }
        },
        _ => {
            proof {
                assert(false);
            }
            None
        },
    }
}

/// Composition over anything that gives access to a single-thread weak
/// reference: the weak handle itself, or any handle or bundle whose view
/// reads one. The attempted upgrade consumes the receiver; on success the
/// recovered strong handle is the view and the receiver the owner, and once
/// the target is destroyed the outcome is empty, never a stale value.
pub trait NestedRcWeak: AsOwner {
    /// Attempt to obtain a temporary owning handle to the target of the
    /// designated weak reference, bundled with the receiver.
    fn nest_upgrade(self, store: &mut Store) -> (r: Option<Nested>)
        requires
            wf(old(store)@),
            self.as_handle().valid(old(store)@),
            self.as_handle().weak_of(old(store)@) matches Some(a) && a < old(store)@.len() && (old(
                store,
            )@[a as int] matches Slot::Alloc { strong, .. } && strong < u64::MAX),
        ensures
            self.as_handle().weak_of(old(store)@) matches Some(a) ==> {
                &&& wf(final(store)@)
                &&& (old(store)@[a as int]->Alloc_strong == 0 ==> r is None && final(store)@
                    == self.as_handle().released(old(store)@))
                &&& (old(store)@[a as int]->Alloc_strong >= 1 ==> (r matches Some(b) && {
                    &&& final(store)@ == strong_bumped(old(store)@, a as int)
                    &&& b.inner == Handle::Strong(a)
                    &&& b.outer == self.as_handle()
                    &&& b.valid(final(store)@)
                }))
            },
    ;
}

impl Handle {
    /// The weak reference this receiver designates (executable twin of
    /// [`Handle::weak_of`]).
    pub(crate) fn weak_pos(&self, store: &Store) -> (a: usize)
        requires
            self.valid(store@),
            self.weak_of(store@) is Some,
        ensures
            Some(a) == self.weak_of(store@),
    {
        match self {
            Handle::Weak(a) => *a,
            _ => match self.read(store) {
                Value::Weak(a) => a,
                _ => {
                    proof {
                        assert(false);
                    }
                    0
                },
            },
        }
    }

    /// Attempt the upgrade and bundle the outcome; shared body of the two
    /// weak-reference composition traits.
    pub(crate) fn upgrade_bundled(self, store: &mut Store) -> (r: Option<Nested>)
        requires
            wf(old(store)@),
            self.valid(old(store)@),
            self.weak_of(old(store)@) matches Some(a) && a < old(store)@.len() && (old(store)@[
                a as int
            ] matches Slot::Alloc { strong, .. } && strong < u64::MAX),
        ensures
            self.weak_of(old(store)@) matches Some(a) ==> {
                &&& wf(final(store)@)
                &&& (old(store)@[a as int]->Alloc_strong == 0 ==> r is None && final(store)@
                    == self.released(old(store)@))
                &&& (old(store)@[a as int]->Alloc_strong >= 1 ==> (r matches Some(b) && {
                    &&& final(store)@ == strong_bumped(old(store)@, a as int)
                    &&& b.inner == Handle::Strong(a)
                    &&& b.outer == self
                    &&& b.valid(final(store)@)
                }))
            },
    {
        let a = self.weak_pos(store);
        match store.slot(a) {
            Slot::Alloc { value, strong } => {
                if strong == 0 {
                    proof {
                        self.lemma_released_wf(old(store)@);
                    }
                    self.release(store);
                    None
                } else {
                    store.set_slot(a, Slot::Alloc { value, strong: strong + 1 });
                    proof {
                        let s1 = old(store)@;
                        let s2 = store@;
                        assert forall|i: int| 0 <= i < s1.len() implies same_shape(
                            s1[i],
                            #[trigger] s2[i],
                        ) && claims_kept(s1[i], s2[i]) by {}
                        lemma_wf_same_shape(s1, s2);
                        lemma_valid_kept(self, s1, s2);
                    }
                    Some(Nested { inner: Handle::Strong(a), outer: self })
                }
            },
            _ => {
                proof {
                    assert(false);
                }
                None
            },
        }
    }
}

impl NestedRcWeak for Handle {
    fn nest_upgrade(self, store: &mut Store) -> (r: Option<Nested>) {
        self.upgrade_bundled(store)
    }
}

impl NestedRcWeak for Nested {
    fn nest_upgrade(self, store: &mut Store) -> (r: Option<Nested>) {
        self.into_handle().upgrade_bundled(store)
    }
}

} // verus!

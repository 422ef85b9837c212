//! The collider collaborator: colliders may be attached to a parent body,
//! mirror its pose, and are removed together with it — the collider half
//! of the removal transaction.
use vstd::prelude::*;

use crate::math::Dim;
use crate::utils::FlatHandle;

verus! {

/// One collider: its optional parent body and its world pose, every
/// scalar a 32-bit IEEE-754 bit pattern.
#[derive(Clone, PartialEq, Debug)]
pub struct Collider {
    pub parent: Option<FlatHandle>,
    pub translation: Vec<u32>,
    pub rotation: Vec<u32>,
}

impl Collider {
    /// The pose has the width the dimensionality prescribes.
    pub open spec fn wf(self, dim: Dim) -> bool {
        &&& self.translation@.len() == dim.spec_tdim()
        &&& self.rotation@.len() == dim.spec_rdim()
    }
}

/// Whether a collider slot holds a collider attached to the given body.
pub open spec fn collider_attached(c: Option<Collider>, h: FlatHandle) -> bool {
    c is Some && c->0.parent == Some(h)
}

/// The collider set as the store sees it: a slot array of colliders.
pub struct RawColliderSet {
    pub dim: Dim,
    pub colliders: Vec<Option<Collider>>,
}

impl RawColliderSet {
    /// Every live collider fits the configured dimensionality.
    pub open spec fn wf(self) -> bool {
        forall|k: int|
            0 <= k < self.colliders@.len() && (#[trigger] self.colliders@[k]) is Some
                ==> self.colliders@[k]->0.wf(self.dim)
    }

    /// Some live collider is attached to the given body.
    pub open spec fn spec_attached(self, h: FlatHandle) -> bool {
        exists|k: int|
            0 <= k < self.colliders@.len() && collider_attached(#[trigger] self.colliders@[k], h)
    }

    pub fn new(dim: Dim) -> (r: RawColliderSet)
        ensures
            r.wf(),
            r.dim == dim,
            r.colliders@ == Seq::<Option<Collider>>::empty(),
    {
        RawColliderSet { dim, colliders: Vec::new() }
    }

    /// Adds a collider; returns its slot.
    pub fn insert(&mut self, c: Collider) -> (k: usize)
        requires
            old(self).wf(),
            c.wf(old(self).dim),
        ensures
            final(self).wf(),
            final(self).dim == old(self).dim,
            final(self).colliders@ == old(self).colliders@.push(Some(c)),
            k == old(self).colliders@.len(),
            ({
                let p = c.parent;
                p is Some ==> final(self).spec_attached(p->0)
            }),
    {
        let k = self.colliders.len();
        let ghost c0 = c;
        self.colliders.push(Some(c));
        proof {
            assert forall|j: int|
                0 <= j < self.colliders@.len() && (#[trigger] self.colliders@[j])
                    is Some implies self.colliders@[j]->0.wf(self.dim) by {
                if j < k {
                    assert(self.colliders@[j] == old(self).colliders@[j]);
                }
            }
            if c0.parent is Some {
                assert(collider_attached(self.colliders@[k as int], c0.parent->0));
            }
        }
        k
    }

    /// Whether any live collider is still attached to the body.
    pub fn is_attached(&self, h: FlatHandle) -> (r: bool)
        ensures
            r == self.spec_attached(h),
    {
        let mut k: usize = 0;
        while k < self.colliders.len()
            invariant
                k <= self.colliders@.len(),
                forall|j: int| 0 <= j < k ==> !collider_attached(#[trigger] self.colliders@[j], h),
            decreases self.colliders@.len() - k,
        {
            let attached = match &self.colliders[k] {
                Some(c) => match c.parent {
                    Some(p) => p == h,
                    None => false,
                },
                None => false,
            };
            if attached {
                proof {
                    assert(collider_attached(self.colliders@[k as int], h));
                }
                return true;
            }
            k = k + 1;
        }
        proof {
            if self.spec_attached(h) {
                let j = choose|j: int|
                    0 <= j < self.colliders@.len() && collider_attached(
                        #[trigger] self.colliders@[j],
                        h,
                    );
            }
        }
        false
    }

    /// Removes every collider attached to the body (the store removes a
    /// body's colliders with it); every other slot is left as it was.
    pub fn detach_from(&mut self, h: FlatHandle)
        requires
            old(self).wf(),
        ensures
            final(self).wf(),
            final(self).dim == old(self).dim,
            final(self).colliders@.len() == old(self).colliders@.len(),
            forall|k: int|
                0 <= k < old(self).colliders@.len() ==> final(self).colliders@[k] == (
                if collider_attached(old(self).colliders@[k], h) {
                    None
                } else {
                    old(self).colliders@[k]
                }),
            !final(self).spec_attached(h),
            forall|x: FlatHandle|
                x != h ==> (final(self).spec_attached(x) <==> old(self).spec_attached(x)),
    {
        let mut k: usize = 0;
        while k < self.colliders.len()
            invariant
                k <= self.colliders@.len(),
                self.dim == old(self).dim,
                self.colliders@.len() == old(self).colliders@.len(),
                forall|j: int|
                    0 <= j < k ==> self.colliders@[j] == (if collider_attached(
                        old(self).colliders@[j],
                        h,
                    ) {
                        None
                    } else {
                        old(self).colliders@[j]
                    }),
                forall|j: int|
                    k <= j < self.colliders@.len() ==> self.colliders@[j] == old(self).colliders@[j],
            decreases self.colliders@.len() - k,
        {
            let attached = match &self.colliders[k] {
                Some(c) => match c.parent {
                    Some(p) => p == h,
                    None => false,
                },
                None => false,
            };
            if attached {
                self.colliders.set(k, None);
            }
            k = k + 1;
        }
        proof {
            assert forall|j: int|
                0 <= j < self.colliders@.len() && (#[trigger] self.colliders@[j])
                    is Some implies self.colliders@[j]->0.wf(self.dim) by {
                assert(self.colliders@[j] == old(self).colliders@[j]);
            }
            assert(!self.spec_attached(h)) by {
                if self.spec_attached(h) {
                    let j = choose|j: int|
                        0 <= j < self.colliders@.len() && collider_attached(
                            #[trigger] self.colliders@[j],
                            h,
                        );
                }
            }
            assert forall|x: FlatHandle| x != h implies (self.spec_attached(x) <==> old(self).spec_attached(x)) by {
                if self.spec_attached(x) {
                    let j = choose|j: int|
                        0 <= j < self.colliders@.len() && collider_attached(
                            #[trigger] self.colliders@[j],
                            x,
                        );
                    assert(collider_attached(old(self).colliders@[j], x));
                }
                if old(self).spec_attached(x) {
                    let j = choose|j: int|
                        0 <= j < old(self).colliders@.len() && collider_attached(
                            #[trigger] old(self).colliders@[j],
                            x,
                        );
                    assert(collider_attached(self.colliders@[j], x));
                }
            }
        }
    }
}

} // verus!

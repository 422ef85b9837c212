//! The entity store: exclusive owner of every rigid-body entity, keyed by
//! a generation-checked handle.
//!
//! Entities live in a slot array; each slot carries a generation counter
//! that is bumped when the slot is freed, so a retained handle to a
//! removed entity can never resolve to a later occupant of the same slot.
//! A slot whose generation counter is exhausted is retired instead of
//! reused, which keeps the guarantee without wrapping.
use vstd::prelude::*;

use crate::collider_set::{collider_attached, Collider, RawColliderSet};
use crate::island_manager::{spec_without, RawIslandManager};
use crate::joint_set::{joint_touches, RawImpulseJointSet, RawMultibodyJointSet};
use crate::math::{copy_scalars, Dim};
use crate::transform_buffer::{fill_transforms, spec_covered, spec_required_len};
use crate::utils::{
    flat_handle, handle_generation, handle_index, spec_handle_generation, spec_handle_index,
    FlatHandle,
};

verus! {

/// The kind of a rigid body: how the simulation core integrates it.
#[derive(Clone, Copy, PartialEq, Eq, Structural, Debug)]
pub enum RawRigidBodyType {
    Dynamic,
    Fixed,
    KinematicPositionBased,
    KinematicVelocityBased,
}

/// One rigid-body entity: the full construction-time state, every scalar
/// held as a 32-bit IEEE-754 bit pattern. The lengths of the per-axis
/// vectors are fixed by the world's dimensionality.
#[derive(Clone, PartialEq, Debug)]
pub struct RigidBody {
    pub enabled: bool,
    pub translation: Vec<u32>,
    pub rotation: Vec<u32>,
    pub linvel: Vec<u32>,
    pub angvel: Vec<u32>,
    pub gravity_scale: u32,
    pub mass: u32,
    pub mass_only: bool,
    pub center_of_mass: Vec<u32>,
    pub principal_angular_inertia: Vec<u32>,
    pub angular_inertia_frame: Vec<u32>,
    pub translation_enabled: Vec<bool>,
    pub rotation_enabled: Vec<bool>,
    pub linear_damping: u32,
    pub angular_damping: u32,
    pub body_type: RawRigidBodyType,
    pub can_sleep: bool,
    pub sleeping: bool,
    pub soft_ccd_prediction: u32,
    pub ccd_enabled: bool,
    pub dominance_group: i8,
    pub additional_solver_iterations: usize,
}

impl RigidBody {
    /// Every per-axis field has the width the dimensionality prescribes.
    pub open spec fn wf(self, dim: Dim) -> bool {
        &&& self.translation@.len() == dim.spec_tdim()
        &&& self.rotation@.len() == dim.spec_rdim()
        &&& self.linvel@.len() == dim.spec_tdim()
        &&& self.angvel@.len() == dim.spec_adim()
        &&& self.center_of_mass@.len() == dim.spec_tdim()
        &&& self.principal_angular_inertia@.len() == dim.spec_adim()
        &&& self.angular_inertia_frame@.len() == dim.spec_fdim()
        &&& self.translation_enabled@.len() == dim.spec_tdim()
        &&& self.rotation_enabled@.len() == dim.spec_adim()
    }

    /// The entity's mirror record: translation, orientation, linear
    /// velocity, angular velocity, in that order.
    pub open spec fn spec_record(self) -> Seq<u32> {
        self.translation@ + self.rotation@ + self.linvel@ + self.angvel@
    }
}

/// One slot of the store: its current generation and, when occupied, the
/// entity living there.
pub struct Slot {
    pub generation: u32,
    pub body: Option<RigidBody>,
}

/// 1 for an occupied slot, 0 for a vacant one.
pub open spec fn slot_occ(s: Slot) -> nat {
    if s.body is Some {
        1
    } else {
        0
    }
}

/// Number of occupied slots in a slot sequence.
pub open spec fn count_live(s: Seq<Slot>) -> nat
    decreases s.len(),
{
    if s.len() == 0 {
        0
    } else {
        count_live(s.drop_last()) + slot_occ(s.last())
    }
}

pub proof fn lemma_count_live_push(s: Seq<Slot>, x: Slot)
    ensures
        count_live(s.push(x)) == count_live(s) + slot_occ(x),
{
    assert(s.push(x).drop_last() =~= s);
}

pub proof fn lemma_count_live_update(s: Seq<Slot>, i: int, x: Slot)
    requires
        0 <= i < s.len(),
    ensures
        count_live(s.update(i, x)) + slot_occ(s[i]) == count_live(s) + slot_occ(x),
    decreases s.len(),
{
    let t = s.update(i, x);
    if i == s.len() - 1 {
        assert(t.drop_last() =~= s.drop_last());
    } else {
        assert(t.drop_last() =~= s.drop_last().update(i, x));
        lemma_count_live_update(s.drop_last(), i, x);
    }
}

pub proof fn lemma_count_live_le(s: Seq<Slot>)
    ensures
        count_live(s) <= s.len(),
    decreases s.len(),
{
    if s.len() > 0 {
        lemma_count_live_le(s.drop_last());
    }
}

pub proof fn lemma_count_live_at(s: Seq<Slot>, i: int)
    requires
        0 <= i < s.len(),
    ensures
        s[i].body is Some ==> count_live(s) >= 1,
        s[i].body is None ==> count_live(s) <= s.len() - 1,
    decreases s.len(),
{
    lemma_count_live_le(s.drop_last());
    if i < s.len() - 1 {
        lemma_count_live_at(s.drop_last(), i);
    }
}

/// The entity store. `slots` is the backing array, `free` the indices of
/// vacant slots available for reuse, `n_live` the number of live
/// entities, and `transform_data` the store-owned mirror of every live
/// entity's kinematic state.
pub struct RawRigidBodySet {
    pub dim: Dim,
    pub slots: Vec<Slot>,
    pub free: Vec<usize>,
    pub n_live: usize,
    pub transform_data: Vec<u32>,
}

impl RawRigidBodySet {
    /// Slot `i` exists and holds an entity.
    pub open spec fn spec_live(self, i: int) -> bool {
        0 <= i < self.slots@.len() && self.slots@[i].body is Some
    }

    /// The entity in slot `i` (meaningful only when the slot is live).
    pub open spec fn spec_body(self, i: int) -> RigidBody {
        self.slots@[i].body->0
    }

    /// A handle resolves exactly when its slot is live and the slot's
    /// current generation equals the handle's generation.
    pub open spec fn spec_contains(self, h: FlatHandle) -> bool {
        self.spec_live(spec_handle_index(h)) && self.slots@[spec_handle_index(h)].generation
            as int == spec_handle_generation(h)
    }

    /// What a lookup returns: the entity for a resolving handle, nothing
    /// for any other.
    pub open spec fn spec_lookup(self, h: FlatHandle) -> Option<RigidBody> {
        if self.spec_contains(h) {
            Some(self.spec_body(spec_handle_index(h)))
        } else {
            None
        }
    }

    /// Number of live entities.
    pub open spec fn spec_count(self) -> nat {
        count_live(self.slots@)
    }

    /// The handle is permanently invalid: its slot has either moved to a
    /// later generation, or sits retired at the final generation, vacant
    /// and withheld from reuse. Every operation of the store preserves
    /// this, so a removed entity's handle can never resolve again.
    pub open spec fn spec_stale(self, h: FlatHandle) -> bool {
        let i = spec_handle_index(h);
        let g = spec_handle_generation(h);
        0 <= i < self.slots@.len() && {
            ||| self.slots@[i].generation as int > g
            ||| (self.slots@[i].generation as int == g && g == u32::MAX as int
                && self.slots@[i].body is None && !self.free@.contains(i as usize))
        }
    }

    /// The store's invariant: the live count is cached correctly, every
    /// entity fits the configured dimensionality, the free list names
    /// distinct vacant slots, and slot indices fit the handle encoding.
    pub open spec fn wf(self) -> bool {
        &&& self.n_live == count_live(self.slots@)
        &&& self.slots@.len() < 0x1_0000_0000
        &&& forall|i: int| #[trigger] self.spec_live(i) ==> self.spec_body(i).wf(self.dim)
        &&& self.free@.no_duplicates()
        &&& forall|k: int|
            0 <= k < self.free@.len() ==> (#[trigger] self.free@[k]) < self.slots@.len()
                && self.slots@[self.free@[k] as int].body is None
    }

    /// An empty store for a world of the given dimensionality.
    pub fn new(dim: Dim) -> (r: RawRigidBodySet)
        ensures
            r.wf(),
            r.dim == dim,
            r.slots@.len() == 0,
            r.free@.len() == 0,
            r.spec_count() == 0,
            r.transform_data@.len() == 0,
    {
        RawRigidBodySet {
            dim,
            slots: Vec::new(),
            free: Vec::new(),
            n_live: 0,
            transform_data: Vec::new(),
        }
    }

    /// Creates an entity from a fully specified initial state and returns
    /// a fresh handle carrying the occupied slot's current generation.
    ///
    /// Construction always succeeds; the newest vacated slot is reused
    /// first, and a fresh slot (generation 0) is opened only when no slot
    /// is free. The returned handle resolves to exactly the given state,
    /// no previously valid handle is disturbed, and no stale handle comes
    /// back to life.
    pub fn createRigidBody(&mut self, body: RigidBody) -> (r: FlatHandle)
        requires
            old(self).wf(),
            body.wf(old(self).dim),
            old(self).free@.len() > 0 || old(self).slots@.len() + 1 < 0x1_0000_0000,
        ensures
            final(self).wf(),
            final(self).dim == old(self).dim,
            final(self).transform_data@ == old(self).transform_data@,
            // the fresh handle resolves to the given state, field for field
            final(self).spec_contains(r),
            final(self).spec_lookup(r) == Some(body),
            !old(self).spec_contains(r),
            final(self).spec_count() == old(self).spec_count() + 1,
            // slot choice: newest free slot first, else a fresh slot at generation 0
            ({
                let i = spec_handle_index(r);
                if old(self).free@.len() > 0 {
                    &&& i == old(self).free@.last()
                    &&& spec_handle_generation(r) == old(self).slots@[i].generation as int
                    &&& final(self).slots@.len() == old(self).slots@.len()
                    &&& final(self).free@ == old(self).free@.drop_last()
                } else {
                    &&& i == old(self).slots@.len()
                    &&& spec_handle_generation(r) == 0
                    &&& final(self).slots@.len() == old(self).slots@.len() + 1
                    &&& final(self).free@ == old(self).free@
                }
            }),
            forall|j: int|
                0 <= j < old(self).slots@.len() && j != spec_handle_index(r)
                    ==> final(self).slots@[j] == old(self).slots@[j],
            final(self).slots@[spec_handle_index(r)].body == Some(body),
            // previously valid handles stay valid and distinct from the new one
            forall|h: FlatHandle|
                old(self).spec_contains(h) ==> final(self).spec_contains(h) && final(self).spec_lookup(h) == old(self).spec_lookup(h) && h != r,
            // generation safety is preserved
            forall|h: FlatHandle| old(self).spec_stale(h) ==> final(self).spec_stale(h),
    {
        let idx: usize;
        let gen: u32;
        let popped = self.free.pop();
        match popped {
            Some(i) => {
                idx = i;
                gen = self.slots[idx].generation;
                self.slots.set(idx, Slot { generation: gen, body: Some(body) });
            },
            None => {
                idx = self.slots.len();
                gen = 0;
                self.slots.push(Slot { generation: 0, body: Some(body) });
            },
        }
        proof {
            if old(self).free@.len() > 0 {
                assert(old(self).free@[old(self).free@.len() - 1] == idx);
                assert(old(self).slots@[idx as int].body is None);
                lemma_count_live_update(old(self).slots@, idx as int, self.slots@[idx as int]);
                lemma_count_live_at(old(self).slots@, idx as int);
                assert forall|k: int| 0 <= k < self.free@.len() implies (#[trigger] self.free@[k])
                    < self.slots@.len() && self.slots@[self.free@[k] as int].body is None by {
                    assert(self.free@[k] == old(self).free@[k]);
                    assert(old(self).free@[k] != old(self).free@.last()) by {
                        assert(old(self).free@.no_duplicates());
                    }
                }
                assert(self.free@.no_duplicates()) by {
                    assert forall|k1: int, k2: int|
                        0 <= k1 < k2 < self.free@.len() implies self.free@[k1] != self.free@[k2] by {
                        assert(old(self).free@[k1] != old(self).free@[k2]);
                    }
                }
            } else {
                lemma_count_live_push(old(self).slots@, self.slots@[idx as int]);
                lemma_count_live_le(old(self).slots@);
            }
        }
        self.n_live = self.n_live + 1;
        let r = flat_handle(idx as u32, gen);
        proof {
            let i = idx as int;
            assert forall|j: int| self.spec_live(j) implies self.spec_body(j).wf(self.dim) by {
                if j != i {
                    assert(old(self).spec_live(j));
                }
            }
            assert(self.spec_lookup(r) == Some(body));
            assert forall|h: FlatHandle| old(self).spec_contains(h) implies self.spec_contains(h)
                && self.spec_lookup(h) == old(self).spec_lookup(h) && h != r by {
                assert(spec_handle_index(h) != i);
            }
            assert forall|h: FlatHandle| old(self).spec_stale(h) implies self.spec_stale(h) by {
                let j = spec_handle_index(h);
                if old(self).free@.len() > 0 {
                    if !(old(self).slots@[j].generation as int > spec_handle_generation(h)) {
                        assert(!old(self).free@.contains(j as usize));
                        assert(j != i);
                        assert(!self.free@.contains(j as usize)) by {
                            if self.free@.contains(j as usize) {
                                let k = choose|k: int|
                                    0 <= k < self.free@.len() && self.free@[k] == (j as usize);
                                assert(old(self).free@[k] == (j as usize));
                            }
                        }
                    }
                }
            }
        }
        r
    }

    /// Resolves a handle to the entity it names, or nothing when the slot
    /// is out of range, vacant, or on a different generation.
    pub fn get(&self, handle: FlatHandle) -> (r: Option<&RigidBody>)
        requires
            self.wf(),
        ensures
            r is Some <==> self.spec_contains(handle),
            r is Some ==> *r->0 == self.spec_body(spec_handle_index(handle)),
    {
        let idx = handle_index(handle);
        let g = handle_generation(handle);
        if (idx as usize) < self.slots.len() {
            let slot = &self.slots[idx as usize];
            if slot.generation == g {
                slot.body.as_ref()
            } else {
                None
            }
        } else {
            None
        }
    }

    /// The mutating-access lookup: callers must hold a valid handle, so a
    /// stale one is a programmer error ruled out up front rather than a
    /// recoverable miss.
    pub fn lookup(&self, handle: FlatHandle) -> (r: &RigidBody)
        requires
            self.wf(),
            self.spec_contains(handle),
        ensures
            *r == self.spec_body(spec_handle_index(handle)),
            r.wf(self.dim),
    {
        let idx = handle_index(handle) as usize;
        self.slots[idx].body.as_ref().unwrap()
    }

    /// Replaces the state of a live entity in place, as the simulation
    /// core or a direct setter does; the handle must be valid.
    pub fn set_body(&mut self, handle: FlatHandle, body: RigidBody)
        requires
            old(self).wf(),
            old(self).spec_contains(handle),
            body.wf(old(self).dim),
        ensures
            final(self).wf(),
            final(self).dim == old(self).dim,
            final(self).transform_data@ == old(self).transform_data@,
            final(self).free@ == old(self).free@,
            final(self).slots@.len() == old(self).slots@.len(),
            final(self).spec_count() == old(self).spec_count(),
            final(self).spec_lookup(handle) == Some(body),
            forall|h: FlatHandle|
                h != handle ==> final(self).spec_lookup(h) == old(self).spec_lookup(h),
            forall|h: FlatHandle|
                final(self).spec_contains(h) <==> old(self).spec_contains(h),
            forall|h: FlatHandle| old(self).spec_stale(h) ==> final(self).spec_stale(h),
    {
        let idx = handle_index(handle) as usize;
        let gen = self.slots[idx].generation;
        self.slots.set(idx, Slot { generation: gen, body: Some(body) });
        proof {
            lemma_count_live_update(old(self).slots@, idx as int, self.slots@[idx as int]);
            assert(old(self).slots@[idx as int].body is Some);
            assert forall|k: int| 0 <= k < self.free@.len() implies (#[trigger] self.free@[k])
                < self.slots@.len() && self.slots@[self.free@[k] as int].body is None by {
                assert(old(self).slots@[old(self).free@[k] as int].body is None);
            }
            assert forall|j: int| self.spec_live(j) implies self.spec_body(j).wf(self.dim) by {
                if j != idx as int {
                    assert(old(self).spec_live(j));
                }
            }
            assert forall|h: FlatHandle| h != handle implies self.spec_lookup(h) == old(self).spec_lookup(h) by {
                let i = spec_handle_index(h);
                if i == idx as int {
                    crate::utils::lemma_handle_round_trip(h);
                    crate::utils::lemma_handle_round_trip(handle);
                }
            }
        }
    }

    /// Whether a handle currently resolves; a miss is an ordinary answer,
    /// not a fault.
    pub fn contains(&self, handle: FlatHandle) -> (r: bool)
        requires
            self.wf(),
        ensures
            r == self.spec_contains(handle),
    {
        self.get(handle).is_some()
    }

    /// The number of live entities.
    pub fn len(&self) -> (r: usize)
        requires
            self.wf(),
        ensures
            r == self.spec_count(),
    {
        self.n_live
    }

    /// The handle of every live entity, in store iteration order (slot
    /// order, which need not match creation order). The store must not be
    /// mutated while the result is being consumed for enumeration.
    pub fn live_handles(&self) -> (r: Vec<FlatHandle>)
        requires
            self.wf(),
        ensures
            r@.len() == self.spec_count(),
            forall|k: int| 0 <= k < r@.len() ==> self.spec_contains(#[trigger] r@[k]),
            forall|h: FlatHandle| self.spec_contains(h) ==> r@.contains(h),
            r@.no_duplicates(),
    {
        let mut r: Vec<FlatHandle> = Vec::new();
        let mut i: usize = 0;
        while i < self.slots.len()
            invariant
                self.wf(),
                i <= self.slots@.len(),
                r@.len() == count_live(self.slots@.take(i as int)),
                forall|k: int|
                    0 <= k < r@.len() ==> self.spec_contains(#[trigger] r@[k])
                        && spec_handle_index(r@[k]) < i,
                forall|h: FlatHandle|
                    #[trigger] self.spec_contains(h) && spec_handle_index(h) < i ==> r@.contains(
                        h,
                    ),
                r@.no_duplicates(),
            decreases self.slots@.len() - i,
        {
            let ghost prev = r@;
            match &self.slots[i].body {
                Some(_) => {
                    let h = flat_handle(i as u32, self.slots[i].generation);
                    r.push(h);
                    proof {
                        assert forall|k: int| 0 <= k < r@.len() implies self.spec_contains(
                            #[trigger] r@[k],
                        ) && spec_handle_index(r@[k]) < i + 1 by {
                            if k < prev.len() {
                                assert(r@[k] == prev[k]);
                            }
                        }
                        assert(r@.no_duplicates()) by {
                            assert forall|k1: int, k2: int|
                                0 <= k1 < k2 < r@.len() implies r@[k1] != r@[k2] by {
                                if k2 == r@.len() - 1 {
                                    assert(spec_handle_index(r@[k1]) < i);
                                }
                            }
                        }
                    }
                },
                None => {},
            }
            proof {
                assert(self.slots@.take(i + 1) =~= self.slots@.take(i as int).push(
                    self.slots@[i as int],
                ));
                lemma_count_live_push(self.slots@.take(i as int), self.slots@[i as int]);
                assert forall|h: FlatHandle|
                    #[trigger] self.spec_contains(h) && spec_handle_index(h) < i + 1 implies r@
                    .contains(h) by {
                    if spec_handle_index(h) < i {
                        assert(prev.contains(h));
                        let k = choose|k: int| 0 <= k < prev.len() && prev[k] == h;
                        assert(r@[k] == h);
                    } else {
                        assert(spec_handle_index(h) == i);
                        crate::utils::lemma_handle_round_trip(h);
                        assert(r@[r@.len() - 1] == h);
                    }
                }
            }
            i = i + 1;
        }
        proof {
            assert(self.slots@.take(self.slots@.len() as int) =~= self.slots@);
        }
        r
    }

    /// Removes the entity a handle names, detaching it first from every
    /// dependent collaborator — island bookkeeping, attached colliders,
    /// impulse joints and multibody articulations — and then freeing the
    /// slot with its generation bumped, so the handle is dead for good.
    /// The transaction is all-or-nothing: a handle that does not resolve
    /// is a silent no-op that leaves the store and every collaborator
    /// exactly as they were — the hard fault on stale handles belongs to
    /// the mutating lookup accessors, not to removal.
    pub fn remove(
        &mut self,
        handle: FlatHandle,
        islands: &mut RawIslandManager,
        colliders: &mut RawColliderSet,
        joints: &mut RawImpulseJointSet,
        articulations: &mut RawMultibodyJointSet,
    )
        requires
            old(self).wf(),
            old(colliders).wf(),
        ensures
            final(self).wf(),
            final(self).dim == old(self).dim,
            final(self).transform_data@ == old(self).transform_data@,
            final(colliders).wf(),
            final(colliders).dim == old(colliders).dim,
            old(self).spec_contains(handle) ==> {
                &&& !final(self).spec_contains(handle)
                &&& final(self).spec_stale(handle)
                &&& final(self).spec_count() + 1 == old(self).spec_count()
                &&& final(self).slots@.len() == old(self).slots@.len()
                &&& final(self).slots@[spec_handle_index(handle)].body is None
                &&& (forall|j: int|
                    0 <= j < old(self).slots@.len() && j != spec_handle_index(handle)
                        ==> final(self).slots@[j] == old(self).slots@[j])
                &&& (spec_handle_generation(handle) < u32::MAX as int ==> final(self).slots@[spec_handle_index(handle)].generation as int == spec_handle_generation(
                    handle,
                ) + 1 && final(self).free@ == old(self).free@.push(
                    spec_handle_index(handle) as usize,
                ))
                &&& (spec_handle_generation(handle) == u32::MAX as int ==> final(self).slots@[spec_handle_index(handle)].generation == u32::MAX && final(self).free@
                    == old(self).free@)
                &&& !final(islands).spec_references(handle)
                &&& !final(colliders).spec_attached(handle)
                &&& !final(joints).spec_references(handle)
                &&& !final(articulations).spec_references(handle)
                &&& final(islands).active@ == spec_without(old(islands).active@, handle)
                &&& (forall|k: int|
                    0 <= k < old(colliders).colliders@.len() ==> final(colliders).colliders@[k]
                        == (if collider_attached(old(colliders).colliders@[k], handle) {
                        None
                    } else {
                        old(colliders).colliders@[k]
                    }))
                &&& (forall|k: int|
                    0 <= k < old(joints).joints@.len() ==> final(joints).joints@[k] == (
                    if joint_touches(old(joints).joints@[k], handle) {
                        None
                    } else {
                        old(joints).joints@[k]
                    }))
                &&& (forall|k: int|
                    0 <= k < old(articulations).joints@.len() ==> final(articulations).joints@[k]
                        == (if joint_touches(old(articulations).joints@[k], handle) {
                        None
                    } else {
                        old(articulations).joints@[k]
                    }))
                &&& (forall|h2: FlatHandle|
                    old(self).spec_contains(h2) && h2 != handle ==> final(self).spec_contains(h2)
                        && final(self).spec_lookup(h2) == old(self).spec_lookup(h2))
            },
            !old(self).spec_contains(handle) ==> {
                &&& *final(self) == *old(self)
                &&& *final(islands) == *old(islands)
                &&& *final(colliders) == *old(colliders)
                &&& *final(joints) == *old(joints)
                &&& *final(articulations) == *old(articulations)
            },
            forall|h2: FlatHandle| old(self).spec_stale(h2) ==> final(self).spec_stale(h2),
    {
        let idx32 = handle_index(handle);
        let g = handle_generation(handle);
        let idx = idx32 as usize;
        let mut is_live = false;
        if idx < self.slots.len() {
            if self.slots[idx].generation == g {
                is_live = self.slots[idx].body.is_some();
            }
        }
        if is_live {
            islands.detach(handle);
            colliders.detach_from(handle);
            joints.detach(handle);
            articulations.detach(handle);
            proof {
                lemma_count_live_at(old(self).slots@, idx as int);
                assert(!old(self).free@.contains(idx)) by {
                    if old(self).free@.contains(idx) {
                        let k = choose|k: int|
                            0 <= k < old(self).free@.len() && old(self).free@[k] == idx;
                    }
                }
            }
            let gen = self.slots[idx].generation;
            if gen < u32::MAX {
                self.slots.set(idx, Slot { generation: gen + 1, body: None });
                self.free.push(idx);
            } else {
                self.slots.set(idx, Slot { generation: gen, body: None });
            }
            proof {
                lemma_count_live_update(old(self).slots@, idx as int, self.slots@[idx as int]);
            }
            self.n_live = self.n_live - 1;
            proof {
                let i = idx as int;
                assert forall|k: int| 0 <= k < self.free@.len() implies (#[trigger] self.free@[k])
                    < self.slots@.len() && self.slots@[self.free@[k] as int].body is None by {
                    if k < old(self).free@.len() {
                        assert(self.free@[k] == old(self).free@[k]);
                    }
                }
                assert(self.free@.no_duplicates()) by {
                    assert forall|k1: int, k2: int|
                        0 <= k1 < k2 < self.free@.len() implies self.free@[k1] != self.free@[k2] by {
                        if k2 < old(self).free@.len() {
                            assert(old(self).free@[k1] != old(self).free@[k2]);
                        } else {
                            assert(self.free@[k2] == idx);
                        }
                    }
                }
                assert forall|j: int| self.spec_live(j) implies self.spec_body(j).wf(self.dim) by {
                    assert(old(self).spec_live(j));
                }
                assert forall|h2: FlatHandle|
                    old(self).spec_contains(h2) && h2 != handle implies self.spec_contains(h2)
                        && self.spec_lookup(h2) == old(self).spec_lookup(h2) by {
                    if spec_handle_index(h2) == i {
                        crate::utils::lemma_handle_round_trip(h2);
                        crate::utils::lemma_handle_round_trip(handle);
                    }
                }
                assert forall|h2: FlatHandle| old(self).spec_stale(h2) implies self.spec_stale(
                    h2,
                ) by {
                    let j = spec_handle_index(h2);
                    if j != i && !(old(self).slots@[j].generation as int > spec_handle_generation(
                        h2,
                    )) && 0 <= j < old(self).slots@.len() {
                        assert(self.slots@[j] == old(self).slots@[j]);
                        assert(!self.free@.contains(j as usize)) by {
                            if self.free@.contains(j as usize) {
                                let k = choose|k: int|
                                    0 <= k < self.free@.len() && self.free@[k] == (j as usize);
                                if k < old(self).free@.len() {
                                    assert(old(self).free@[k] == (j as usize));
                                }
                            }
                        }
                    }
                }
            }
        }
    }

    /// Refreshes the store-owned transform mirror: after the call it
    /// covers every live slot, each live entity's record sits at
    /// `slot index * stride` and equals its current state bit-for-bit,
    /// and the mirror never shrinks. Dead positions keep their previous
    /// contents; fresh growth is zero bits.
    pub fn sync_transform_data(&mut self)
        requires
            old(self).wf(),
            old(self).slots@.len() * old(self).dim.spec_stride() <= usize::MAX,
        ensures
            final(self).wf(),
            final(self).dim == old(self).dim,
            final(self).slots@ == old(self).slots@,
            final(self).free@ == old(self).free@,
            final(self).spec_count() == old(self).spec_count(),
            final(self).transform_data@.len() >= old(self).transform_data@.len(),
            final(self).transform_data@.len() == (if old(self).transform_data@.len()
                >= spec_required_len(old(self).slots@, old(self).dim.spec_stride()) {
                old(self).transform_data@.len() as int
            } else {
                spec_required_len(old(self).slots@, old(self).dim.spec_stride())
            }),
            forall|i: int|
                #[trigger] old(self).spec_live(i) ==> (i + 1) * old(self).dim.spec_stride()
                    <= final(self).transform_data@.len() && final(self).transform_data@.subrange(
                    i * old(self).dim.spec_stride(),
                    (i + 1) * old(self).dim.spec_stride(),
                ) == old(self).spec_body(i).spec_record(),
            forall|k: int|
                0 <= k < final(self).transform_data@.len() && !spec_covered(
                    old(self).slots@,
                    old(self).dim.spec_stride(),
                    k,
                ) ==> final(self).transform_data@[k] == (if k < old(self).transform_data@.len() {
                    old(self).transform_data@[k]
                } else {
                    0u32
                }),
    {
        proof {
            assert forall|i: int|
                0 <= i < self.slots@.len() && (#[trigger] self.slots@[i]).body
                    is Some implies self.slots@[i].body->0.wf(self.dim) by {
                assert(self.spec_live(i));
            }
        }
        let dim = self.dim;
        fill_transforms(&mut self.transform_data, &self.slots, dim);
    }

    /// Scalars per entity record in the store-owned mirror.
    pub fn transformBufferStride(&self) -> (r: usize)
        ensures
            r == self.dim.spec_stride(),
    {
        self.dim.stride()
    }

    /// A direct view of the store-owned mirror: valid only until the
    /// next synchronization grows the buffer, so callers re-acquire it
    /// every cycle.
    pub fn transform_view(&self) -> (r: &Vec<u32>)
        ensures
            r@ == self.transform_data@,
    {
        &self.transform_data
    }

    /// Pushes each live entity's current pose to every collider attached
    /// to it; colliders without a live parent keep their pose.
    pub fn propagateModifiedBodyPositionsToColliders(&self, colliders: &mut RawColliderSet)
        requires
            self.wf(),
            old(colliders).wf(),
            old(colliders).dim == self.dim,
        ensures
            final(colliders).wf(),
            final(colliders).dim == old(colliders).dim,
            final(colliders).colliders@.len() == old(colliders).colliders@.len(),
            forall|k: int|
                0 <= k < old(colliders).colliders@.len() ==> ((#[trigger] final(colliders).colliders@[k]) is Some <==> old(colliders).colliders@[k] is Some),
            forall|k: int|
                0 <= k < old(colliders).colliders@.len() && old(colliders).colliders@[k]
                    is Some ==> ({
                    let c = old(colliders).colliders@[k]->0;
                    let c2 = (#[trigger] final(colliders).colliders@[k])->0;
                    &&& c2.parent == c.parent
                    &&& (match c.parent {
                        Some(p) => if self.spec_contains(p) {
                            c2.translation@ == self.spec_body(spec_handle_index(p)).translation@
                                && c2.rotation@ == self.spec_body(spec_handle_index(p)).rotation@
                        } else {
                            c2 == c
                        },
                        None => c2 == c,
                    })
                }),
    {
        let mut k: usize = 0;
        let n = colliders.colliders.len();
        while k < n
            invariant
                k <= n,
                n == colliders.colliders@.len(),
                self.wf(),
                colliders.dim == self.dim,
                colliders.colliders@.len() == old(colliders).colliders@.len(),
                forall|j: int|
                    k <= j < colliders.colliders@.len() ==> colliders.colliders@[j] == old(colliders).colliders@[j],
                forall|j: int|
                    0 <= j < k ==> ((#[trigger] colliders.colliders@[j]) is Some <==> old(colliders).colliders@[j] is Some),
                forall|j: int|
                    0 <= j < k && old(colliders).colliders@[j] is Some ==> ({
                        let c = old(colliders).colliders@[j]->0;
                        let c2 = (#[trigger] colliders.colliders@[j])->0;
                        &&& c2.parent == c.parent
                        &&& (match c.parent {
                            Some(p) => if self.spec_contains(p) {
                                c2.translation@ == self.spec_body(
                                    spec_handle_index(p),
                                ).translation@ && c2.rotation@ == self.spec_body(
                                    spec_handle_index(p),
                                ).rotation@
                            } else {
                                c2 == c
                            },
                            None => c2 == c,
                        })
                    }),
                forall|j: int|
                    0 <= j < colliders.colliders@.len() && (#[trigger] colliders.colliders@[j])
                        is Some ==> colliders.colliders@[j]->0.wf(colliders.dim),
            decreases n - k,
        {
            let parent_opt: Option<FlatHandle> = match &colliders.colliders[k] {
                Some(c) => c.parent,
                None => None,
            };
            match parent_opt {
                Some(p) => {
                    match self.get(p) {
                        Some(b) => {
                            let t = copy_scalars(&b.translation);
                            let r = copy_scalars(&b.rotation);
                            colliders.colliders.set(
                                k,
                                Some(Collider { parent: Some(p), translation: t, rotation: r }),
                            );
                        },
                        None => {},
                    }
                },
                None => {},
            }
            k = k + 1;
        }
    }

    /// Generation safety: a stale handle never resolves. Together with
    /// the preservation clauses on every mutating operation, a handle
    /// held across the removal of its entity stays dead forever, even
    /// when its slot is reoccupied: the new occupant's generation
    /// differs.
    pub proof fn lemma_generation_safety(self, h: FlatHandle)
        requires
            self.spec_stale(h),
        ensures
            !self.spec_contains(h),
            self.spec_lookup(h) is None,
    {
    }
}

} // verus!

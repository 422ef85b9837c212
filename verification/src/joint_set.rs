//! The joint collaborators: impulse joints and multibody articulations,
//! each linking two bodies. On removal of a body the store detaches every
//! joint that touches it, so no link dangles.
use vstd::prelude::*;

use crate::utils::FlatHandle;

verus! {

/// A two-body link.
#[derive(Clone, Copy, PartialEq, Eq, Structural, Debug)]
pub struct Joint {
    pub body1: FlatHandle,
    pub body2: FlatHandle,
}

/// Whether a joint slot still links the given body.
pub open spec fn joint_touches(j: Option<Joint>, h: FlatHandle) -> bool {
    j is Some && (j->0.body1 == h || j->0.body2 == h)
}

/// Some live joint in the sequence links the given body.
pub open spec fn spec_joints_reference(js: Seq<Option<Joint>>, h: FlatHandle) -> bool {
    exists|k: int| 0 <= k < js.len() && joint_touches(#[trigger] js[k], h)
}

/// Removes every joint that links the given body; every other slot is
/// left exactly as it was.
fn detach_joints(joints: &mut Vec<Option<Joint>>, h: FlatHandle)
    ensures
        final(joints)@.len() == old(joints)@.len(),
        forall|k: int|
            0 <= k < old(joints)@.len() ==> final(joints)@[k] == (if joint_touches(
                old(joints)@[k],
                h,
            ) {
                None
            } else {
                old(joints)@[k]
            }),
        !spec_joints_reference(final(joints)@, h),
        forall|x: FlatHandle|
            spec_joints_reference(final(joints)@, x) ==> spec_joints_reference(old(joints)@, x)
                && x != h,
        forall|x: FlatHandle, k: int|
            0 <= k < old(joints)@.len() && #[trigger] joint_touches(old(joints)@[k], x)
                && !joint_touches(old(joints)@[k], h) ==> joint_touches(final(joints)@[k], x),
{
    let mut k: usize = 0;
    while k < joints.len()
        invariant
            k <= joints@.len(),
            joints@.len() == old(joints)@.len(),
            forall|j: int|
                0 <= j < k ==> joints@[j] == (if joint_touches(old(joints)@[j], h) {
                    None
                } else {
                    old(joints)@[j]
                }),
            forall|j: int| k <= j < joints@.len() ==> joints@[j] == old(joints)@[j],
        decreases joints@.len() - k,
    {
        let touches = match &joints[k] {
            Some(j) => j.body1 == h || j.body2 == h,
            None => false,
        };
        if touches {
            joints.set(k, None);
        }
        k = k + 1;
    }
    proof {
        assert(!spec_joints_reference(joints@, h)) by {
            if spec_joints_reference(joints@, h) {
                let j = choose|j: int| 0 <= j < joints@.len() && joint_touches(joints@[j], h);
            }
        }
        assert forall|x: FlatHandle| spec_joints_reference(joints@, x) implies spec_joints_reference(
            old(joints)@,
            x,
        ) && x != h by {
            let j = choose|j: int| 0 <= j < joints@.len() && joint_touches(#[trigger] joints@[j], x);
            assert(joint_touches(old(joints)@[j], x));
        }
    }
}

/// The impulse-joint collaborator as the store sees it.
pub struct RawImpulseJointSet {
    pub joints: Vec<Option<Joint>>,
}

impl RawImpulseJointSet {
    pub open spec fn spec_references(self, h: FlatHandle) -> bool {
        spec_joints_reference(self.joints@, h)
    }

    pub fn new() -> (r: RawImpulseJointSet)
        ensures
            r.joints@ == Seq::<Option<Joint>>::empty(),
    {
        RawImpulseJointSet { joints: Vec::new() }
    }

    /// Creates a joint linking two bodies; returns its slot.
    pub fn insert(&mut self, body1: FlatHandle, body2: FlatHandle) -> (k: usize)
        ensures
            final(self).joints@ == old(self).joints@.push(Some(Joint { body1, body2 })),
            k == old(self).joints@.len(),
            final(self).spec_references(body1),
            final(self).spec_references(body2),
    {
        let k = self.joints.len();
        self.joints.push(Some(Joint { body1, body2 }));
        proof {
            assert(joint_touches(self.joints@[k as int], body1));
            assert(joint_touches(self.joints@[k as int], body2));
        }
        k
    }

    /// Whether any live joint still links the body.
    pub fn references(&self, h: FlatHandle) -> (r: bool)
        ensures
            r == self.spec_references(h),
    {
        joints_reference(&self.joints, h)
    }

    /// Detaches the body from every joint that links it.
    pub fn detach(&mut self, h: FlatHandle)
        ensures
            final(self).joints@.len() == old(self).joints@.len(),
            forall|k: int|
                0 <= k < old(self).joints@.len() ==> final(self).joints@[k] == (if joint_touches(
                    old(self).joints@[k],
                    h,
                ) {
                    None
                } else {
                    old(self).joints@[k]
                }),
            !final(self).spec_references(h),
            forall|x: FlatHandle|
                final(self).spec_references(x) ==> old(self).spec_references(x) && x != h,
            forall|x: FlatHandle, k: int|
                0 <= k < old(self).joints@.len() && #[trigger] joint_touches(old(self).joints@[k], x)
                    && !joint_touches(old(self).joints@[k], h) ==> joint_touches(
                    final(self).joints@[k],
                    x,
                ),
    {
        detach_joints(&mut self.joints, h);
    }
}

/// The multibody-articulation collaborator as the store sees it.
pub struct RawMultibodyJointSet {
    pub joints: Vec<Option<Joint>>,
}

impl RawMultibodyJointSet {
    pub open spec fn spec_references(self, h: FlatHandle) -> bool {
        spec_joints_reference(self.joints@, h)
    }

    pub fn new() -> (r: RawMultibodyJointSet)
        ensures
            r.joints@ == Seq::<Option<Joint>>::empty(),
    {
        RawMultibodyJointSet { joints: Vec::new() }
    }

    /// Creates an articulation linking two bodies; returns its slot.
    pub fn insert(&mut self, body1: FlatHandle, body2: FlatHandle) -> (k: usize)
        ensures
            final(self).joints@ == old(self).joints@.push(Some(Joint { body1, body2 })),
            k == old(self).joints@.len(),
            final(self).spec_references(body1),
            final(self).spec_references(body2),
    {
        let k = self.joints.len();
        self.joints.push(Some(Joint { body1, body2 }));
        proof {
            assert(joint_touches(self.joints@[k as int], body1));
            assert(joint_touches(self.joints@[k as int], body2));
        }
        k
    }

    /// Whether any live articulation still links the body.
    pub fn references(&self, h: FlatHandle) -> (r: bool)
        ensures
            r == self.spec_references(h),
    {
        joints_reference(&self.joints, h)
    }

    /// Detaches the body from every articulation that links it.
    pub fn detach(&mut self, h: FlatHandle)
        ensures
            final(self).joints@.len() == old(self).joints@.len(),
            forall|k: int|
                0 <= k < old(self).joints@.len() ==> final(self).joints@[k] == (if joint_touches(
                    old(self).joints@[k],
                    h,
                ) {
                    None
                } else {
                    old(self).joints@[k]
                }),
            !final(self).spec_references(h),
            forall|x: FlatHandle|
                final(self).spec_references(x) ==> old(self).spec_references(x) && x != h,
            forall|x: FlatHandle, k: int|
                0 <= k < old(self).joints@.len() && #[trigger] joint_touches(old(self).joints@[k], x)
                    && !joint_touches(old(self).joints@[k], h) ==> joint_touches(
                    final(self).joints@[k],
                    x,
                ),
    {
        detach_joints(&mut self.joints, h);
    }
}

/// Scans a joint sequence for a link to the body.
fn joints_reference(joints: &Vec<Option<Joint>>, h: FlatHandle) -> (r: bool)
    ensures
        r == spec_joints_reference(joints@, h),
{
    let mut k: usize = 0;
    while k < joints.len()
        invariant
            k <= joints@.len(),
            forall|j: int| 0 <= j < k ==> !joint_touches(#[trigger] joints@[j], h),
        decreases joints@.len() - k,
    {
        let touches = match &joints[k] {
            Some(j) => j.body1 == h || j.body2 == h,
            None => false,
        };
        if touches {
            proof {
                assert(joint_touches(joints@[k as int], h));
            }
            return true;
        }
        k = k + 1;
    }
    proof {
        if spec_joints_reference(joints@, h) {
            let j = choose|j: int| 0 <= j < joints@.len() && joint_touches(#[trigger] joints@[j], h);
        }
    }
    false
}

} // verus!

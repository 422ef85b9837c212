use physics_interop::collider_set::{Collider, RawColliderSet};
use physics_interop::island_manager::RawIslandManager;
use physics_interop::joint_set::{RawImpulseJointSet, RawMultibodyJointSet};
use physics_interop::math::Dim;
use physics_interop::rigid_body_set::{RawRigidBodySet, RawRigidBodyType, RigidBody};
use physics_interop::utils::{flat_handle, handle_generation, handle_index};

fn body3(tx: f32, ty: f32, tz: f32) -> RigidBody {
    RigidBody {
        enabled: true,
        translation: vec![tx.to_bits(), ty.to_bits(), tz.to_bits()],
        rotation: vec![
            0.0f32.to_bits(),
            0.0f32.to_bits(),
            0.0f32.to_bits(),
            1.0f32.to_bits(),
        ],
        linvel: vec![0.0f32.to_bits(); 3],
        angvel: vec![0.0f32.to_bits(); 3],
        gravity_scale: 1.0f32.to_bits(),
        mass: 2.5f32.to_bits(),
        mass_only: true,
        center_of_mass: vec![0.0f32.to_bits(); 3],
        principal_angular_inertia: vec![0.0f32.to_bits(); 3],
        angular_inertia_frame: vec![
            0.0f32.to_bits(),
            0.0f32.to_bits(),
            0.0f32.to_bits(),
            1.0f32.to_bits(),
        ],
        translation_enabled: vec![true, true, true],
        rotation_enabled: vec![true, false, true],
        linear_damping: 0.1f32.to_bits(),
        angular_damping: 0.2f32.to_bits(),
        body_type: RawRigidBodyType::Dynamic,
        can_sleep: true,
        sleeping: false,
        soft_ccd_prediction: 0.0f32.to_bits(),
        ccd_enabled: false,
        dominance_group: -3,
        additional_solver_iterations: 4,
    }
}

fn collaborators() -> (
    RawIslandManager,
    RawColliderSet,
    RawImpulseJointSet,
    RawMultibodyJointSet,
) {
    (
        RawIslandManager::new(),
        RawColliderSet::new(Dim::Dim3),
        RawImpulseJointSet::new(),
        RawMultibodyJointSet::new(),
    )
}

#[test]
fn handle_encoding_round_trip() {
    let h = flat_handle(5, 7);
    assert_eq!(h, 5u64 + (7u64 << 32));
    assert_eq!(handle_index(h), 5);
    assert_eq!(handle_generation(h), 7);
    // every 64-bit value decodes; re-encoding gives it back
    let odd: u64 = 0xDEAD_BEEF_0123_4567;
    assert_eq!(
        flat_handle(handle_index(odd), handle_generation(odd)),
        odd
    );
    assert_eq!(flat_handle(0, 0), 0);
    assert_eq!(handle_index(u64::MAX), u32::MAX);
    assert_eq!(handle_generation(u64::MAX), u32::MAX);
}

#[test]
fn create_then_lookup_returns_equal_state() {
    let mut set = RawRigidBodySet::new(Dim::Dim3);
    let body = body3(1.5, -2.0, 4.25);
    let expected = body.clone();
    let h = set.createRigidBody(body);
    let got = set.get(h).expect("fresh handle must resolve");
    assert!(*got == expected);
    let looked = set.lookup(h);
    assert!(*looked == expected);
    assert_eq!(set.len(), 1);
}

#[test]
fn stale_handle_is_dead_even_after_slot_reuse() {
    let mut set = RawRigidBodySet::new(Dim::Dim3);
    let (mut islands, mut colliders, mut joints, mut arts) = collaborators();
    let a = set.createRigidBody(body3(1.0, 0.0, 0.0));
    assert!(set.contains(a));
    set.remove(a, &mut islands, &mut colliders, &mut joints, &mut arts);
    assert!(!set.contains(a));
    assert!(set.get(a).is_none());
    // the slot is reused, but at a newer generation
    let d = set.createRigidBody(body3(9.0, 9.0, 9.0));
    assert_eq!(handle_index(d), handle_index(a));
    assert_eq!(handle_generation(d), handle_generation(a) + 1);
    assert!(!set.contains(a));
    assert!(set.contains(d));
    assert!(set.get(a).is_none());
}

#[test]
fn removal_detaches_every_collaborator() {
    let mut set = RawRigidBodySet::new(Dim::Dim3);
    let (mut islands, mut colliders, mut joints, mut arts) = collaborators();
    let h = set.createRigidBody(body3(0.0, 1.0, 0.0));
    let other = set.createRigidBody(body3(5.0, 5.0, 5.0));

    islands.register(h);
    islands.register(other);
    colliders.insert(Collider {
        parent: Some(h),
        translation: vec![0; 3],
        rotation: vec![0; 4],
    });
    colliders.insert(Collider {
        parent: Some(other),
        translation: vec![0; 3],
        rotation: vec![0; 4],
    });
    joints.insert(h, other);
    arts.insert(other, h);
    let keeps = joints.insert(other, other);

    set.remove(h, &mut islands, &mut colliders, &mut joints, &mut arts);

    // the handle is invalid in the store AND no collaborator references it
    assert!(!set.contains(h));
    assert!(!islands.references(h));
    assert!(!colliders.is_attached(h));
    assert!(!joints.references(h));
    assert!(!arts.references(h));
    // references to other bodies through untouched entries survive
    assert!(islands.references(other));
    assert!(colliders.is_attached(other));
    assert!(joints.references(other));
    assert!(matches!(joints.joints[keeps], Some(_)));
    assert!(set.contains(other));
}

#[test]
fn removing_a_stale_handle_changes_nothing() {
    let mut set = RawRigidBodySet::new(Dim::Dim3);
    let (mut islands, mut colliders, mut joints, mut arts) = collaborators();
    let h = set.createRigidBody(body3(1.0, 2.0, 3.0));
    islands.register(h);
    set.remove(h, &mut islands, &mut colliders, &mut joints, &mut arts);
    assert_eq!(set.len(), 0);
    // a second removal with the now-stale handle is a no-op
    islands.register(h);
    set.remove(h, &mut islands, &mut colliders, &mut joints, &mut arts);
    assert_eq!(set.len(), 0);
    assert!(islands.references(h));
}

#[test]
fn count_tracks_creates_minus_removes() {
    let mut set = RawRigidBodySet::new(Dim::Dim3);
    let (mut islands, mut colliders, mut joints, mut arts) = collaborators();
    assert_eq!(set.len(), 0);
    let a = set.createRigidBody(body3(1.0, 0.0, 0.0));
    let b = set.createRigidBody(body3(2.0, 0.0, 0.0));
    assert_eq!(set.len(), 2);
    set.remove(a, &mut islands, &mut colliders, &mut joints, &mut arts);
    assert_eq!(set.len(), 1);
    let c = set.createRigidBody(body3(3.0, 0.0, 0.0));
    let d = set.createRigidBody(body3(4.0, 0.0, 0.0));
    assert_eq!(set.len(), 3);
    set.remove(b, &mut islands, &mut colliders, &mut joints, &mut arts);
    set.remove(c, &mut islands, &mut colliders, &mut joints, &mut arts);
    assert_eq!(set.len(), 1);
    set.remove(d, &mut islands, &mut colliders, &mut joints, &mut arts);
    assert_eq!(set.len(), 0);
}

#[test]
fn live_handles_enumerates_exactly_the_live_entities() {
    let mut set = RawRigidBodySet::new(Dim::Dim3);
    let (mut islands, mut colliders, mut joints, mut arts) = collaborators();
    let a = set.createRigidBody(body3(1.0, 0.0, 0.0));
    let b = set.createRigidBody(body3(2.0, 0.0, 0.0));
    let c = set.createRigidBody(body3(3.0, 0.0, 0.0));
    set.remove(b, &mut islands, &mut colliders, &mut joints, &mut arts);
    let handles = set.live_handles();
    assert_eq!(handles, vec![a, c]);
}

#[test]
fn set_body_replaces_state_in_place() {
    let mut set = RawRigidBodySet::new(Dim::Dim3);
    let h = set.createRigidBody(body3(1.0, 1.0, 1.0));
    let other = set.createRigidBody(body3(2.0, 2.0, 2.0));
    let replacement = body3(-7.0, 8.0, 0.5);
    set.set_body(h, replacement.clone());
    assert!(*set.lookup(h) == replacement);
    assert!(*set.lookup(other) == body3(2.0, 2.0, 2.0));
    assert_eq!(set.len(), 2);
}

#[test]
fn two_dimensional_bodies_have_two_dimensional_state() {
    let mut set = RawRigidBodySet::new(Dim::Dim2);
    let body = RigidBody {
        enabled: true,
        translation: vec![1.0f32.to_bits(), 2.0f32.to_bits()],
        rotation: vec![0.5f32.to_bits()],
        linvel: vec![3.0f32.to_bits(), 4.0f32.to_bits()],
        angvel: vec![6.0f32.to_bits()],
        gravity_scale: 1.0f32.to_bits(),
        mass: 1.0f32.to_bits(),
        mass_only: false,
        center_of_mass: vec![0.0f32.to_bits(); 2],
        principal_angular_inertia: vec![0.25f32.to_bits()],
        angular_inertia_frame: vec![],
        translation_enabled: vec![true, true],
        rotation_enabled: vec![true],
        linear_damping: 0.0f32.to_bits(),
        angular_damping: 0.0f32.to_bits(),
        body_type: RawRigidBodyType::KinematicVelocityBased,
        can_sleep: false,
        sleeping: false,
        soft_ccd_prediction: 0.0f32.to_bits(),
        ccd_enabled: true,
        dominance_group: 0,
        additional_solver_iterations: 0,
    };
    let expected = body.clone();
    let h = set.createRigidBody(body);
    assert!(*set.lookup(h) == expected);
    assert_eq!(set.transformBufferStride(), 6);
}

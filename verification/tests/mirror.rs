use physics_interop::collider_set::{Collider, RawColliderSet};
use physics_interop::island_manager::RawIslandManager;
use physics_interop::joint_set::{RawImpulseJointSet, RawMultibodyJointSet};
use physics_interop::math::{Dim, RawVector};
use physics_interop::point::{RawPointColliderProjection, RawPointProjection};
use physics_interop::rigid_body_set::{RawRigidBodySet, RawRigidBodyType, RigidBody};
use physics_interop::transform_buffer::RawBodyTransformBuffer;
use physics_interop::utils::flat_handle;

fn body3_full(
    t: [f32; 3],
    q: [f32; 4],
    lv: [f32; 3],
    av: [f32; 3],
) -> RigidBody {
    RigidBody {
        enabled: true,
        translation: t.iter().map(|v| v.to_bits()).collect(),
        rotation: q.iter().map(|v| v.to_bits()).collect(),
        linvel: lv.iter().map(|v| v.to_bits()).collect(),
        angvel: av.iter().map(|v| v.to_bits()).collect(),
        gravity_scale: 1.0f32.to_bits(),
        mass: 1.0f32.to_bits(),
        mass_only: true,
        center_of_mass: vec![0.0f32.to_bits(); 3],
        principal_angular_inertia: vec![0.0f32.to_bits(); 3],
        angular_inertia_frame: vec![
            0.0f32.to_bits(),
            0.0f32.to_bits(),
            0.0f32.to_bits(),
            1.0f32.to_bits(),
        ],
        translation_enabled: vec![true, true, true],
        rotation_enabled: vec![true, true, true],
        linear_damping: 0.0f32.to_bits(),
        angular_damping: 0.0f32.to_bits(),
        body_type: RawRigidBodyType::Dynamic,
        can_sleep: true,
        sleeping: false,
        soft_ccd_prediction: 0.0f32.to_bits(),
        ccd_enabled: false,
        dominance_group: 0,
        additional_solver_iterations: 0,
    }
}

fn as_floats(bits: &[u32]) -> Vec<f32> {
    bits.iter().map(|b| f32::from_bits(*b)).collect()
}

#[test]
fn stride_is_thirteen_in_three_dimensions_and_six_in_two() {
    assert_eq!(RawBodyTransformBuffer::new(Dim::Dim3).stride(), 13);
    assert_eq!(RawBodyTransformBuffer::new(Dim::Dim2).stride(), 6);
    assert_eq!(RawRigidBodySet::new(Dim::Dim3).transformBufferStride(), 13);
    assert_eq!(RawRigidBodySet::new(Dim::Dim2).transformBufferStride(), 6);
}

#[test]
fn sync_writes_the_exact_thirteen_element_record() {
    let mut set = RawRigidBodySet::new(Dim::Dim3);
    let h = set.createRigidBody(body3_full(
        [1.0, 2.0, 3.0],
        [0.0, 0.0, 0.0, 1.0],
        [0.0, 0.0, 0.0],
        [0.0, 0.0, 0.0],
    ));
    assert!(set.contains(h));
    let mut buf = RawBodyTransformBuffer::new(Dim::Dim3);
    buf.sync(&set);
    let view = buf.view_data();
    assert_eq!(view.len(), 13);
    assert_eq!(
        as_floats(view),
        vec![1.0, 2.0, 3.0, 0.0, 0.0, 0.0, 1.0, 0.0, 0.0, 0.0, 0.0, 0.0, 0.0]
    );
}

#[test]
fn sync_two_dimensional_record_layout() {
    let mut set = RawRigidBodySet::new(Dim::Dim2);
    set.createRigidBody(RigidBody {
        enabled: true,
        translation: vec![1.0f32.to_bits(), 2.0f32.to_bits()],
        rotation: vec![0.5f32.to_bits()],
        linvel: vec![3.0f32.to_bits(), 4.0f32.to_bits()],
        angvel: vec![6.0f32.to_bits()],
        gravity_scale: 1.0f32.to_bits(),
        mass: 1.0f32.to_bits(),
        mass_only: true,
        center_of_mass: vec![0.0f32.to_bits(); 2],
        principal_angular_inertia: vec![0.0f32.to_bits()],
        angular_inertia_frame: vec![],
        translation_enabled: vec![true, true],
        rotation_enabled: vec![true],
        linear_damping: 0.0f32.to_bits(),
        angular_damping: 0.0f32.to_bits(),
        body_type: RawRigidBodyType::Fixed,
        can_sleep: true,
        sleeping: false,
        soft_ccd_prediction: 0.0f32.to_bits(),
        ccd_enabled: false,
        dominance_group: 0,
        additional_solver_iterations: 0,
    });
    let mut buf = RawBodyTransformBuffer::new(Dim::Dim2);
    buf.sync(&set);
    assert_eq!(as_floats(buf.view_data()), vec![1.0, 2.0, 0.5, 3.0, 4.0, 6.0]);
}

#[test]
fn buffer_covers_every_live_slot_at_its_index() {
    let mut set = RawRigidBodySet::new(Dim::Dim3);
    let bodies = [
        body3_full([1.0, 0.0, 0.0], [0.0, 0.0, 0.0, 1.0], [0.1, 0.0, 0.0], [0.0, 0.0, 0.0]),
        body3_full([2.0, 0.0, 0.0], [0.0, 0.0, 0.0, 1.0], [0.2, 0.0, 0.0], [0.0, 0.0, 0.0]),
        body3_full([3.0, 0.0, 0.0], [0.0, 0.0, 0.0, 1.0], [0.3, 0.0, 0.0], [0.0, 0.0, 0.0]),
    ];
    for b in bodies.iter() {
        set.createRigidBody(b.clone());
    }
    let mut buf = RawBodyTransformBuffer::new(Dim::Dim3);
    buf.sync(&set);
    let view = buf.view_data();
    assert_eq!(view.len(), 39);
    for (i, b) in bodies.iter().enumerate() {
        let record = &view[i * 13..(i + 1) * 13];
        let mut expected: Vec<u32> = Vec::new();
        expected.extend_from_slice(&b.translation);
        expected.extend_from_slice(&b.rotation);
        expected.extend_from_slice(&b.linvel);
        expected.extend_from_slice(&b.angvel);
        assert_eq!(record, &expected[..]);
    }
}

#[test]
fn buffer_never_shrinks_and_dead_slots_keep_their_bytes() {
    let mut set = RawRigidBodySet::new(Dim::Dim3);
    let mut islands = RawIslandManager::new();
    let mut colliders = RawColliderSet::new(Dim::Dim3);
    let mut joints = RawImpulseJointSet::new();
    let mut arts = RawMultibodyJointSet::new();
    let _a = set.createRigidBody(body3_full(
        [1.0, 1.0, 1.0],
        [0.0, 0.0, 0.0, 1.0],
        [0.0, 0.0, 0.0],
        [0.0, 0.0, 0.0],
    ));
    let b = set.createRigidBody(body3_full(
        [2.0, 2.0, 2.0],
        [0.0, 0.0, 0.0, 1.0],
        [0.0, 0.0, 0.0],
        [0.0, 0.0, 0.0],
    ));
    let mut buf = RawBodyTransformBuffer::new(Dim::Dim3);
    buf.sync(&set);
    assert_eq!(buf.view_data().len(), 26);
    let record_b: Vec<u32> = buf.view_data()[13..26].to_vec();
    // removing the highest body does not shrink the mirror
    set.remove(b, &mut islands, &mut colliders, &mut joints, &mut arts);
    buf.sync(&set);
    assert_eq!(buf.view_data().len(), 26);
    // the dead slot's bytes persist: they are simply never addressed
    assert_eq!(&buf.view_data()[13..26], &record_b[..]);
}

#[test]
fn slot_reuse_scenario_updates_the_reused_record() {
    let mut set = RawRigidBodySet::new(Dim::Dim3);
    let mut islands = RawIslandManager::new();
    let mut colliders = RawColliderSet::new(Dim::Dim3);
    let mut joints = RawImpulseJointSet::new();
    let mut arts = RawMultibodyJointSet::new();
    let a = set.createRigidBody(body3_full(
        [1.0, 0.0, 0.0],
        [0.0, 0.0, 0.0, 1.0],
        [0.0, 0.0, 0.0],
        [0.0, 0.0, 0.0],
    ));
    let b = set.createRigidBody(body3_full(
        [2.0, 0.0, 0.0],
        [0.0, 0.0, 0.0, 1.0],
        [0.0, 0.0, 0.0],
        [0.0, 0.0, 0.0],
    ));
    let c = set.createRigidBody(body3_full(
        [3.0, 0.0, 0.0],
        [0.0, 0.0, 0.0, 1.0],
        [0.0, 0.0, 0.0],
        [0.0, 0.0, 0.0],
    ));
    assert_eq!(
        (a & 0xFFFF_FFFF, b & 0xFFFF_FFFF, c & 0xFFFF_FFFF),
        (0, 1, 2)
    );
    set.remove(b, &mut islands, &mut colliders, &mut joints, &mut arts);
    let d = set.createRigidBody(body3_full(
        [42.0, 0.0, 0.0],
        [0.0, 0.0, 0.0, 1.0],
        [0.0, 0.0, 0.0],
        [0.0, 0.0, 0.0],
    ));
    // D reuses slot 1 under an incremented generation
    assert_eq!(d & 0xFFFF_FFFF, 1);
    assert_eq!(d >> 32, (b >> 32) + 1);
    assert!(!set.contains(b));
    assert!(set.contains(d));
    let mut buf = RawBodyTransformBuffer::new(Dim::Dim3);
    buf.sync(&set);
    let view = buf.view_data();
    assert!(view.len() >= 39);
    let record1 = as_floats(&view[13..26]);
    assert_eq!(record1[0], 42.0);
}

#[test]
fn store_owned_mirror_matches_the_standalone_buffer() {
    let mut set = RawRigidBodySet::new(Dim::Dim3);
    set.createRigidBody(body3_full(
        [7.0, 8.0, 9.0],
        [0.0, 1.0, 0.0, 0.0],
        [1.0, 2.0, 3.0],
        [4.0, 5.0, 6.0],
    ));
    set.sync_transform_data();
    let mut buf = RawBodyTransformBuffer::new(Dim::Dim3);
    buf.sync(&set);
    assert_eq!(set.transform_view(), buf.view_data());
    assert_eq!(
        as_floats(set.transform_view()),
        vec![7.0, 8.0, 9.0, 0.0, 1.0, 0.0, 0.0, 1.0, 2.0, 3.0, 4.0, 5.0, 6.0]
    );
}

#[test]
fn propagate_pushes_poses_to_attached_colliders() {
    let mut set = RawRigidBodySet::new(Dim::Dim3);
    let h = set.createRigidBody(body3_full(
        [1.0, 2.0, 3.0],
        [0.0, 0.0, 1.0, 0.0],
        [0.0, 0.0, 0.0],
        [0.0, 0.0, 0.0],
    ));
    let mut colliders = RawColliderSet::new(Dim::Dim3);
    let attached = colliders.insert(Collider {
        parent: Some(h),
        translation: vec![0.0f32.to_bits(); 3],
        rotation: vec![0.0f32.to_bits(); 4],
    });
    let orphan = colliders.insert(Collider {
        parent: None,
        translation: vec![5.0f32.to_bits(); 3],
        rotation: vec![0.0f32.to_bits(); 4],
    });
    let stale_parent = colliders.insert(Collider {
        parent: Some(flat_handle(9, 9)),
        translation: vec![6.0f32.to_bits(); 3],
        rotation: vec![0.0f32.to_bits(); 4],
    });
    set.propagateModifiedBodyPositionsToColliders(&mut colliders);
    let ca = colliders.colliders[attached].as_ref().unwrap();
    assert_eq!(as_floats(&ca.translation), vec![1.0, 2.0, 3.0]);
    assert_eq!(as_floats(&ca.rotation), vec![0.0, 0.0, 1.0, 0.0]);
    let co = colliders.colliders[orphan].as_ref().unwrap();
    assert_eq!(as_floats(&co.translation), vec![5.0, 5.0, 5.0]);
    let cs = colliders.colliders[stale_parent].as_ref().unwrap();
    assert_eq!(as_floats(&cs.translation), vec![6.0, 6.0, 6.0]);
}

#[test]
fn empty_store_syncs_to_an_empty_mirror() {
    let set = RawRigidBodySet::new(Dim::Dim3);
    let mut buf = RawBodyTransformBuffer::new(Dim::Dim3);
    buf.sync(&set);
    assert_eq!(buf.view_data().len(), 0);
}

#[test]
fn point_projection_carries_its_fields() {
    let p = RawPointProjection::new(
        RawVector::new(vec![1.0f32.to_bits(), 2.0f32.to_bits(), 3.0f32.to_bits()]),
        true,
    );
    assert!(p.isInside());
    assert_eq!(as_floats(&p.point().coords), vec![1.0, 2.0, 3.0]);
}

#[test]
fn collider_projection_carries_handle_and_fields() {
    let h = flat_handle(11, 4);
    let p = RawPointColliderProjection::new(
        h,
        RawVector::new(vec![0.5f32.to_bits(), 0.0f32.to_bits(), (-1.0f32).to_bits()]),
        false,
    );
    assert!(!p.isInside());
    // the full packing comes back: index and generation both survive
    assert_eq!(p.colliderHandle(), h);
    assert_eq!(p.colliderHandle() & 0xFFFF_FFFF, 11);
    assert_eq!(p.colliderHandle() >> 32, 4);
    assert_eq!(as_floats(&p.point().coords), vec![0.5, 0.0, -1.0f32]);
}

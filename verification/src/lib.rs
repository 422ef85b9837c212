//! Interop core of a rigid-body simulation world: a generation-checked
//! entity store, a contiguous transform mirror buffer rebuilt on demand,
//! and small value types carrying point-projection results.
//!
//! Scalar kinematic quantities (coordinates, angles, velocities) are held
//! as 32-bit IEEE-754 bit patterns: this layer never does arithmetic on
//! them, it only stores and mirrors them bit-for-bit, so the host converts
//! at the boundary.
#![allow(non_snake_case)]

pub mod collider_set;
pub mod island_manager;
pub mod joint_set;
pub mod math;
pub mod point;
pub mod rigid_body_set;
pub mod transform_buffer;
pub mod utils;

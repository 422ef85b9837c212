//! Point-projection results: immutable snapshots carrying the outcome of
//! a closest-point query against a collider shape, optionally tagged with
//! the producing collider's handle. Pure value types: no behaviour beyond
//! field access.
use vstd::prelude::*;

use crate::math::{copy_scalars, RawVector};
use crate::utils::FlatHandle;

verus! {

/// An unattributed projection: the projected point and whether the query
/// origin lay inside the shape.
pub struct RawPointProjection {
    pub point: RawVector,
    pub is_inside: bool,
}

impl RawPointProjection {
    pub fn new(point: RawVector, is_inside: bool) -> (r: RawPointProjection)
        ensures
            r.point.coords@ == point.coords@,
            r.is_inside == is_inside,
    {
        RawPointProjection { point, is_inside }
    }

    /// The projected point in world coordinates.
    pub fn point(&self) -> (r: RawVector)
        ensures
            r.coords@ == self.point.coords@,
    {
        RawVector { coords: copy_scalars(&self.point.coords) }
    }

    /// Whether the query origin was inside the target shape.
    pub fn isInside(&self) -> (r: bool)
        ensures
            r == self.is_inside,
    {
        self.is_inside
    }
}

/// A collider-attributed projection: the same outcome plus the handle of
/// the collider that produced it.
pub struct RawPointColliderProjection {
    pub handle: FlatHandle,
    pub point: RawVector,
    pub is_inside: bool,
}

impl RawPointColliderProjection {
    pub fn new(handle: FlatHandle, point: RawVector, is_inside: bool) -> (r:
        RawPointColliderProjection)
        ensures
            r.handle == handle,
            r.point.coords@ == point.coords@,
            r.is_inside == is_inside,
    {
        RawPointColliderProjection { handle, point, is_inside }
    }

    /// The handle of the collider that produced the projection: the full
    /// (slot index, generation) packing, so a stale collider can never be
    /// confused with a later occupant of its slot.
    pub fn colliderHandle(&self) -> (r: FlatHandle)
        ensures
            r == self.handle,
    {
        self.handle
    }

    /// The projected point in world coordinates.
    pub fn point(&self) -> (r: RawVector)
        ensures
            r.coords@ == self.point.coords@,
    {
        RawVector { coords: copy_scalars(&self.point.coords) }
    }

    /// Whether the query origin was inside the target shape.
    pub fn isInside(&self) -> (r: bool)
        ensures
            r == self.is_inside,
    {
        self.is_inside
    }
}

} // verus!

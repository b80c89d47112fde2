//! Rays: an origin point and an (unnormalised) direction.

use vstd::prelude::*;

use crate::limits::{DIR_MAX, POINT_MAX};
use crate::vector::{sp_vsub, v3_bounded, Vector, VMAX};

verus! {

/// A ray the intersection routines accept: origin within the hit-point
/// bound, direction within the direction bound.
pub open spec fn ray_wf(r: Ray) -> bool {
    v3_bounded(r.origin@, POINT_MAX as int) && v3_bounded(r.direction@, DIR_MAX as int)
}

/// A half-line: origin plus non-negative multiples of the direction.  The
/// direction need not be normalised; the intersection formulas account for
/// its magnitude.
#[derive(Clone, Copy, Debug, PartialEq, Eq, Structural)]
pub struct Ray {
    pub origin: Vector,
    pub direction: Vector,
}

impl Ray {
    /// Constructs a ray from an origin and a direction.
    pub fn new(origin: Vector, direction: Vector) -> (r: Self)
        ensures
            r.origin == origin,
            r.direction == direction,
    {
        Self { origin, direction }
    }

    /// Constructs the ray through `point` that points away from the camera.
    pub fn towards_camera(point: Vector, camera: Vector) -> (r: Self)
        requires
            v3_bounded(point@, VMAX as int),
            v3_bounded(camera@, VMAX as int),
        ensures
            r.origin == point,
            r.direction@ == sp_vsub(point@, camera@),
    {
        Self { origin: point, direction: point.sub(&camera) }
    }
}

} // verus!

//! Machine bounds on scene data.
//!
//! The 128-bit fixed-point arithmetic of the kernel never overflows as long
//! as scene values stay inside these bounds; every well-formedness predicate
//! of the crate is stated in terms of them.  At `SCALE = 2^16`, a coordinate
//! bound of `2^26` units admits world coordinates up to `1024`.

use vstd::prelude::*;

verus! {

/// Bound on each coordinate of scene geometry (shape and light centres,
/// plane points, viewport corners, the camera) and on radii.
pub const COORD_MAX: i128 = 0x4000000;

/// Bound on each coordinate of a ray origin; hit points are kept inside it.
pub const POINT_MAX: i128 = 0x8000000;

/// Bound on each coordinate of a ray direction.
pub const DIR_MAX: i128 = 0x10000000;

/// Bound on each channel of the scene's colour data (material constants,
/// light intensities, ambient light).
pub const CHAN_MAX: i128 = 0x1000000;

} // verus!

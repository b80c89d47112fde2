//! Per-surface reflectance parameters for local illumination.

use vstd::prelude::*;

use crate::colour::{c3_bounded, Colour};
use crate::fx::SCALE;
use crate::limits::CHAN_MAX;

verus! {

/// A material a well-formed scene may hold: colour constants within the
/// channel bound, reflectiveness a fraction in `[0, SCALE]`.
pub open spec fn material_wf(m: Material) -> bool {
    &&& c3_bounded(m.ambient_constant@, CHAN_MAX as int)
    &&& c3_bounded(m.diffuse_constant@, CHAN_MAX as int)
    &&& c3_bounded(m.specular_constant@, CHAN_MAX as int)
    &&& 0 <= m.reflectiveness <= SCALE
}

/// Reflectance coefficients of a surface: colour constants for the ambient,
/// diffuse and specular terms, a non-negative integer Phong exponent, and the
/// fraction (in `[0, SCALE]`) of the mirror-reflected colour added per bounce.
#[derive(Clone, Copy, Debug, PartialEq, Eq, Structural)]
pub struct Material {
    pub ambient_constant: Colour,
    pub diffuse_constant: Colour,
    pub specular_constant: Colour,
    pub shininess: u32,
    pub reflectiveness: i128,
}

impl Material {
    /// Constructs a material from its constants.
    pub fn new(
        ambient_constant: Colour,
        diffuse_constant: Colour,
        specular_constant: Colour,
        shininess: u32,
        reflectiveness: i128,
    ) -> (m: Self)
        ensures
            m.ambient_constant == ambient_constant,
            m.diffuse_constant == diffuse_constant,
            m.specular_constant == specular_constant,
            m.shininess == shininess,
            m.reflectiveness == reflectiveness,
    {
        Self { ambient_constant, diffuse_constant, specular_constant, shininess, reflectiveness }
    }
}

} // verus!

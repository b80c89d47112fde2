//! Spherical area lights and uniform sampling inside their volume.
//!
//! Soft shadows need points drawn uniformly inside a light's sphere.  The
//! draw is by rejection: sample the enclosing cube until a point falls inside
//! the sphere.  Acceptance is checked on exact squared distances.  The retry
//! loop is capped at a generous bound; if every draw of a non-degenerate
//! light were rejected (the chance is astronomically small, as each attempt
//! accepts with probability about one half), the light's centre is returned,
//! which lies inside the volume trivially.

use vstd::prelude::*;

use crate::colour::{c3_bounded, Colour};
use crate::fx::lemma_abs_mul;
use crate::limits::{CHAN_MAX, COORD_MAX, POINT_MAX};
use crate::vector::{sp_magsq, sp_vsub, v3_bounded, Vector, V3};

verus! {

/// A finite spherical emitter: centre, positive radius, and the diffuse and
/// specular intensities it contributes.
#[derive(Clone, Copy, Debug)]
pub struct Light {
    pub centre: Vector,
    pub radius: i128,
    pub diffuse_intensity: Colour,
    pub specular_intensity: Colour,
}

/// A light a well-formed scene may hold.
pub open spec fn light_wf(l: Light) -> bool {
    &&& v3_bounded(l.centre@, COORD_MAX as int)
    &&& 0 < l.radius <= COORD_MAX
    &&& c3_bounded(l.diffuse_intensity@, CHAN_MAX as int)
    &&& c3_bounded(l.specular_intensity@, CHAN_MAX as int)
}

/// `p` lies inside the spherical volume: squared distance to the centre is
/// at most the squared radius.
pub open spec fn sp_in_light(centre: V3, radius: int, p: V3) -> bool {
    sp_magsq(sp_vsub(centre, p)) <= radius * radius
}

/// Relies on `rand::Rng::gen_range` over `lo..hi`: a draw from the half-open
/// range, which is non-empty by the precondition.
#[verifier::external_body]
fn random_scalar(lo: i128, hi: i128) -> (r: i128)
    requires
        lo < hi,
    ensures
        lo <= r < hi,
{
    rand::Rng::gen_range(&mut rand::thread_rng(), lo..hi)
}

/// Cap on rejection-sampling attempts before falling back to the centre.
const SAMPLE_ATTEMPTS: u32 = 10000;

impl Light {
    /// Whether a point lies within the light's volume.
    fn point_in_light(&self, vector: &Vector) -> (r: bool)
        requires
            light_wf(*self),
            v3_bounded(vector@, POINT_MAX as int),
        ensures
            r == sp_in_light(self.centre@, self.radius as int, vector@),
    {
        let dx: i128 = self.centre.x - vector.x;
        let dy: i128 = self.centre.y - vector.y;
        let dz: i128 = self.centre.z - vector.z;
        proof {
            let m: int = 0x10000000;
            lemma_abs_mul(dx as int, dx as int, m, m);
            lemma_abs_mul(dy as int, dy as int, m, m);
            lemma_abs_mul(dz as int, dz as int, m, m);
            lemma_abs_mul(self.radius as int, self.radius as int, m, m);
        }
        dx * dx + dy * dy + dz * dz <= self.radius * self.radius
    }

    /// Generates a random point within the radius of the light: a uniform
    /// draw from the enclosing cube, accepted once it falls inside the
    /// sphere.  Every returned point lies within the light's volume.
    pub fn random_in_light(&self) -> (p: Vector)
        requires
            light_wf(*self),
        ensures
            sp_in_light(self.centre@, self.radius as int, p@),
            v3_bounded(p@, POINT_MAX as int),
    {
        let mut attempts: u32 = 0;
        while attempts < SAMPLE_ATTEMPTS
            invariant
                light_wf(*self),
            decreases SAMPLE_ATTEMPTS - attempts,
        {
            let x = random_scalar(-self.radius, self.radius);
            let y = random_scalar(-self.radius, self.radius);
            let z = random_scalar(-self.radius, self.radius);
            let candidate = Vector {
                x: self.centre.x + x,
                y: self.centre.y + y,
                z: self.centre.z + z,
            };
            if self.point_in_light(&candidate) {
                return candidate;
            }
            attempts = attempts + 1;
        }
        proof {
            let c = self.centre@;
            assert(sp_magsq(sp_vsub(c, c)) == 0);
            assert(self.radius as int * self.radius as int > 0) by (nonlinear_arith)
                requires
                    self.radius as int > 0,
            ;
        }
        self.centre
    }
}

} // verus!

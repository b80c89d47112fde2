//! Plane primitive and its ray intersection test.
//!
//! A plane is given by three points; its normal is the cross product of two
//! edge vectors picked by index pairs.  The normal is a pure function of the
//! points, so it is recomputed on demand: memoising it is not observable and
//! needs no shared state.

use vstd::prelude::*;

use crate::fx::{lemma_abs_mul, lemma_tdiv_abs, tdiv, tdiv_i128, SCALE};
use crate::limits::{COORD_MAX, DIR_MAX};
use crate::material::{material_wf, Material};
use crate::ray::{ray_wf, Ray};
use crate::vector::{sp_normalise, sp_vsub, v3_bounded, Vector, V3};

verus! {

/// A plane through three points, with a surface material.
#[derive(Clone, Copy, Debug)]
pub struct Plane {
    pub points: [Vector; 3],
    pub material: Material,
}

/// Structural equality of planes: the same three points and material.
pub open spec fn sp_plane_eq(a: Plane, b: Plane) -> bool {
    &&& a.points[0] == b.points[0]
    &&& a.points[1] == b.points[1]
    &&& a.points[2] == b.points[2]
    &&& a.material == b.material
}

impl PartialEq for Plane {
    /// Planes are equal when their defining points and material are.
    fn eq(&self, other: &Self) -> (r: bool) {
        self.points[0] == other.points[0] && self.points[1] == other.points[1] && self.points[2]
            == other.points[2] && self.material == other.material
    }
}

impl vstd::std_specs::cmp::PartialEqSpecImpl for Plane {
    open spec fn obeys_eq_spec() -> bool {
        true
    }

    open spec fn eq_spec(&self, other: &Plane) -> bool {
        sp_plane_eq(*self, *other)
    }
}

/// A plane a well-formed scene may hold.
pub open spec fn plane_wf(p: Plane) -> bool {
    &&& v3_bounded(p.points[0]@, COORD_MAX as int)
    &&& v3_bounded(p.points[1]@, COORD_MAX as int)
    &&& v3_bounded(p.points[2]@, COORD_MAX as int)
    &&& material_wf(p.material)
}

/// The (unnormalised) plane normal derived from the edge vectors picked by
/// the index pairs `(i0, j0)` and `(i1, j1)`; raw components, scale
/// `SCALE * SCALE`.
pub open spec fn sp_plane_normal(p: Plane, i0: int, j0: int, i1: int, j1: int) -> V3 {
    let a = sp_vsub(p.points[i0]@, p.points[j0]@);
    let b = sp_vsub(p.points[i1]@, p.points[j1]@);
    V3 {
        x: a.z * b.y - a.y * b.z,
        y: a.x * b.z - a.z * b.x,
        z: a.y * b.x - a.x * b.y,
    }
}

/// The parametric distance of the forward intersection of a ray with a
/// plane, if any: a ray parallel to the plane (including one with a zero or
/// degenerate normal) hits nothing; a hit at distance zero counts.
pub open spec fn sp_plane_intersect(p: Plane, o: V3, d: V3) -> Option<int> {
    let n = sp_normalise(sp_plane_normal(p, 0, 1, 1, 2));
    let bottom = n.x * d.x + n.y * d.y + n.z * d.z;
    if bottom == 0 {
        Option::None
    } else {
        let top = n.x * (p.points[0]@.x - o.x) + n.y * (p.points[0]@.y - o.y) + n.z * (
        p.points[0]@.z - o.z);
        let t = tdiv(top * SCALE as int, bottom);
        if t >= 0 {
            Option::Some(t)
        } else {
            Option::None
        }
    }
}

/// Bound on each raw component of a derived plane normal.
pub const NORMAL_RAW_MAX: i128 = 0x200000000000000;

impl Plane {
    /// The (unnormalised) plane normal from the edge vectors picked by the
    /// given index pairs.
    pub fn normal(&self, pairs: [(usize, usize); 2]) -> (n: Vector)
        requires
            plane_wf(*self),
            pairs[0].0 < 3,
            pairs[0].1 < 3,
            pairs[1].0 < 3,
            pairs[1].1 < 3,
        ensures
            n@ == sp_plane_normal(
                *self,
                pairs[0].0 as int,
                pairs[0].1 as int,
                pairs[1].0 as int,
                pairs[1].1 as int,
            ),
            v3_bounded(n@, NORMAL_RAW_MAX as int),
    {
        let a = self.points[pairs[0].0].sub(&self.points[pairs[0].1]);
        let b = self.points[pairs[1].0].sub(&self.points[pairs[1].1]);
        proof {
            let m: int = 0x10000000;
            lemma_abs_mul(a.z as int, b.y as int, m, m);
            lemma_abs_mul(a.y as int, b.z as int, m, m);
            lemma_abs_mul(a.x as int, b.z as int, m, m);
            lemma_abs_mul(a.z as int, b.x as int, m, m);
            lemma_abs_mul(a.y as int, b.x as int, m, m);
            lemma_abs_mul(a.x as int, b.y as int, m, m);
        }
        Vector {
            x: a.z * b.y - a.y * b.z,
            y: a.x * b.z - a.z * b.x,
            z: a.y * b.x - a.x * b.y,
        }
    }

    /// Returns the non-negative parametric distance (if any) of the
    /// ray-plane intersection.
    pub fn ray_intersect(&self, ray: &Ray) -> (res: Option<i128>)
        requires
            plane_wf(*self),
            ray_wf(*ray),
        ensures
            res is Some <==> sp_plane_intersect(*self, ray.origin@, ray.direction@) is Some,
            res matches Some(t) ==> sp_plane_intersect(*self, ray.origin@, ray.direction@)
                == Option::Some(t as int) && 0 <= t <= 0x4000000000000000i128,
    {
        let normal = self.normal([(0, 1), (1, 2)]).normalise();
        let d = &ray.direction;
        proof {
            lemma_abs_mul(normal.x as int, d.x as int, SCALE as int, DIR_MAX as int);
            lemma_abs_mul(normal.y as int, d.y as int, SCALE as int, DIR_MAX as int);
            lemma_abs_mul(normal.z as int, d.z as int, SCALE as int, DIR_MAX as int);
        }
        let bottom: i128 = normal.x * d.x + normal.y * d.y + normal.z * d.z;
        if bottom == 0 {
            None
        } else {
            let wx: i128 = self.points[0].x - ray.origin.x;
            let wy: i128 = self.points[0].y - ray.origin.y;
            let wz: i128 = self.points[0].z - ray.origin.z;
            proof {
                let mw: int = 0x10000000;
                lemma_abs_mul(normal.x as int, wx as int, SCALE as int, mw);
                lemma_abs_mul(normal.y as int, wy as int, SCALE as int, mw);
                lemma_abs_mul(normal.z as int, wz as int, SCALE as int, mw);
            }
            let top: i128 = normal.x * wx + normal.y * wy + normal.z * wz;
            proof {
                lemma_abs_mul(top as int, SCALE as int, 0x400000000000, 0x10000);
                lemma_tdiv_abs(top as int * SCALE as int, bottom as int);
            }
            let t: i128 = tdiv_i128(top * SCALE, bottom);
            if t >= 0 {
                Some(t)
            } else {
                None
            }
        }
    }
}

} // verus!

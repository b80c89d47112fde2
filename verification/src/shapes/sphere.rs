//! Sphere primitive and its ray intersection test.
//!
//! The quadratic `|O + tD - C|^2 = r^2` is solved over exact integers: with
//! components at scale `SCALE`, the coefficients `a`, `b`, `c` carry scale
//! `SCALE^2` and the discriminant `SCALE^4`, so the only roundings are the
//! floor square root of the discriminant and the final truncating division
//! that produces each root.  A zero-magnitude direction is degenerate and
//! intersects nothing.

use vstd::prelude::*;

use crate::fx::{
    abs_int, is_sqrt_floor, isqrt_i128, lemma_abs_mul, lemma_sqrt_floor_exists,
    lemma_sqrt_floor_is, lemma_tdiv_abs, lemma_tdiv_sign, sqrt_floor, tdiv, tdiv_i128, SCALE,
};
use crate::limits::COORD_MAX;
use crate::material::{material_wf, Material};
use crate::ray::{ray_wf, Ray};
use crate::vector::{sp_magsq, sp_vcross, sp_vsub, v3_bounded, Vector, V3};

verus! {

/// A sphere: centre, positive radius, and surface material.
#[derive(Clone, Copy, Debug, PartialEq, Eq, Structural)]
pub struct Sphere {
    pub centre: Vector,
    pub radius: i128,
    pub material: Material,
}

/// A sphere a well-formed scene may hold.
pub open spec fn sphere_wf(s: Sphere) -> bool {
    &&& v3_bounded(s.centre@, COORD_MAX as int)
    &&& 0 < s.radius <= COORD_MAX
    &&& material_wf(s.material)
}

/// Quadratic coefficient `a = |D|^2` (raw, scale `SCALE^2`).
pub open spec fn sp_sph_a(d: V3) -> int {
    sp_magsq(d)
}

/// Quadratic coefficient `b = 2 (O - C) . D` (raw, scale `SCALE^2`).
pub open spec fn sp_sph_b(oc: V3, d: V3) -> int {
    2 * (oc.x * d.x + oc.y * d.y + oc.z * d.z)
}

/// Quadratic coefficient `c = |O - C|^2 - r^2` (raw, scale `SCALE^2`).
pub open spec fn sp_sph_c(oc: V3, radius: int) -> int {
    sp_magsq(oc) - radius * radius
}

/// Discriminant `b^2 - 4 a c` (raw, scale `SCALE^4`).
pub open spec fn sp_sph_disc(centre: V3, radius: int, o: V3, d: V3) -> int {
    let oc = sp_vsub(o, centre);
    let a = sp_sph_a(d);
    let b = sp_sph_b(oc, d);
    let c = sp_sph_c(oc, radius);
    b * b - 4 * a * c
}

/// The parametric distance of the nearest forward intersection of a ray with
/// a sphere, if any: no real roots or both roots behind the origin give
/// nothing, otherwise the least non-negative root.
pub open spec fn sp_sphere_intersect(centre: V3, radius: int, o: V3, d: V3) -> Option<int> {
    let oc = sp_vsub(o, centre);
    let a = sp_sph_a(d);
    let b = sp_sph_b(oc, d);
    let disc = sp_sph_disc(centre, radius, o, d);
    if a == 0 || disc < 0 {
        Option::None
    } else {
        let sq = sqrt_floor(disc);
        let t1 = tdiv((-b + sq) * SCALE as int, 2 * a);
        let t2 = tdiv((-b - sq) * SCALE as int, 2 * a);
        if t1 < 0 && t2 < 0 {
            Option::None
        } else if t1 >= 0 && t2 >= 0 {
            Option::Some(if t1 <= t2 { t1 } else { t2 })
        } else {
            Option::Some(if t1 >= t2 { t1 } else { t2 })
        }
    }
}

/// Bound on the magnitude of any root the intersection test returns.
pub const T_ABS_MAX: i128 = 0x100000000000000000000;

impl Sphere {
    /// Returns the minimum non-negative parametric distance (if any) of the
    /// ray-sphere intersection.
    pub fn ray_intersect(&self, ray: &Ray) -> (res: Option<i128>)
        requires
            sphere_wf(*self),
            ray_wf(*ray),
        ensures
            res is Some <==> sp_sphere_intersect(
                self.centre@,
                self.radius as int,
                ray.origin@,
                ray.direction@,
            ) is Some,
            res matches Some(t) ==> sp_sphere_intersect(
                self.centre@,
                self.radius as int,
                ray.origin@,
                ray.direction@,
            ) == Option::Some(t as int) && abs_int(t as int) <= T_ABS_MAX as int,
    {
        let o = &ray.origin;
        let d = &ray.direction;
        let ocx: i128 = o.x - self.centre.x;
        let ocy: i128 = o.y - self.centre.y;
        let ocz: i128 = o.z - self.centre.z;
        proof {
            let m: int = 0x20000000;
            lemma_abs_mul(d.x as int, d.x as int, m, m);
            lemma_abs_mul(d.y as int, d.y as int, m, m);
            lemma_abs_mul(d.z as int, d.z as int, m, m);
            lemma_abs_mul(ocx as int, d.x as int, m, m);
            lemma_abs_mul(ocy as int, d.y as int, m, m);
            lemma_abs_mul(ocz as int, d.z as int, m, m);
            lemma_abs_mul(ocx as int, ocx as int, m, m);
            lemma_abs_mul(ocy as int, ocy as int, m, m);
            lemma_abs_mul(ocz as int, ocz as int, m, m);
            lemma_abs_mul(self.radius as int, self.radius as int, m, m);
        }
        let a: i128 = d.x * d.x + d.y * d.y + d.z * d.z;
        let b: i128 = 2 * (ocx * d.x + ocy * d.y + ocz * d.z);
        let c: i128 = (ocx * ocx + ocy * ocy + ocz * ocz) - self.radius * self.radius;
        proof {
            lemma_abs_mul(b as int, b as int, 0x2000000000000000, 0x2000000000000000);
            lemma_abs_mul(4 * a as int, c as int, 0x4000000000000000, 0x1000000000000000);
        }
        let disc: i128 = b * b - 4 * a * c;
        if a == 0 {
            return None;
        }
        if disc < 0 {
            return None;
        }
        let sq: i128 = isqrt_i128(disc);
        proof {
            assert(sq <= 0x4000000000000000i128) by (nonlinear_arith)
                requires
                    sq >= 0,
                    sq * sq <= disc,
                    disc < 0x10000000000000000000000000000000i128,
            ;
            assert(a > 0) by {
                assert(d.x as int * d.x as int >= 0) by (nonlinear_arith);
                assert(d.y as int * d.y as int >= 0) by (nonlinear_arith);
                assert(d.z as int * d.z as int >= 0) by (nonlinear_arith);
            }
            lemma_abs_mul(
                -b as int + sq as int,
                SCALE as int,
                0x8000000000000000,
                0x10000,
            );
            lemma_abs_mul(
                -b as int - sq as int,
                SCALE as int,
                0x8000000000000000,
                0x10000,
            );
            lemma_tdiv_abs((-b + sq) as int * SCALE as int, 2 * a as int);
            lemma_tdiv_abs((-b - sq) as int * SCALE as int, 2 * a as int);
        }
        let t1: i128 = tdiv_i128((-b + sq) * SCALE, 2 * a);
        let t2: i128 = tdiv_i128((-b - sq) * SCALE, 2 * a);
        if t1 < 0 && t2 < 0 {
            None
        } else if t1 >= 0 && t2 >= 0 {
            Some(if t1 <= t2 { t1 } else { t2 })
        } else {
            Some(if t1 >= t2 { t1 } else { t2 })
        }
    }
}

/// A ray pointed directly at a sphere from outside hits it at the centre
/// distance minus the radius, exactly: for a unit direction `d` with the
/// centre lying exactly `q` along the ray (`(centre - o) * SCALE == q * d`
/// componentwise) and `q > radius`, the nearest root is `q - radius`.
pub proof fn lemma_head_on_hit(centre: V3, radius: int, o: V3, d: V3, q: int)
    requires
        sp_magsq(d) == SCALE as int * SCALE as int,
        (centre.x - o.x) * SCALE as int == q * d.x,
        (centre.y - o.y) * SCALE as int == q * d.y,
        (centre.z - o.z) * SCALE as int == q * d.z,
        q > radius > 0,
    ensures
        sp_sphere_intersect(centre, radius, o, d) == Option::Some(q - radius),
{
    let sc = SCALE as int;
    let oc = sp_vsub(o, centre);
    let a = sp_sph_a(d);
    let b = sp_sph_b(oc, d);
    let c = sp_sph_c(oc, radius);
    assert(oc.x * sc == -(q * d.x));
    assert(oc.y * sc == -(q * d.y));
    assert(oc.z * sc == -(q * d.z));
    assert((oc.x * d.x) * sc == -(q * (d.x * d.x))) by (nonlinear_arith)
        requires
            oc.x * sc == -(q * d.x),
    ;
    assert((oc.y * d.y) * sc == -(q * (d.y * d.y))) by (nonlinear_arith)
        requires
            oc.y * sc == -(q * d.y),
    ;
    assert((oc.z * d.z) * sc == -(q * (d.z * d.z))) by (nonlinear_arith)
        requires
            oc.z * sc == -(q * d.z),
    ;
    assert(b * sc == -2 * q * (sc * sc)) by (nonlinear_arith)
        requires
            b == 2 * (oc.x * d.x + oc.y * d.y + oc.z * d.z),
            (oc.x * d.x) * sc == -(q * (d.x * d.x)),
            (oc.y * d.y) * sc == -(q * (d.y * d.y)),
            (oc.z * d.z) * sc == -(q * (d.z * d.z)),
            d.x * d.x + d.y * d.y + d.z * d.z == sc * sc,
    ;
    assert(b == -2 * q * sc) by (nonlinear_arith)
        requires
            b * sc == -2 * q * (sc * sc),
            sc > 0,
    ;
    assert((oc.x * oc.x) * (sc * sc) == (q * q) * (d.x * d.x)) by (nonlinear_arith)
        requires
            oc.x * sc == -(q * d.x),
    ;
    assert((oc.y * oc.y) * (sc * sc) == (q * q) * (d.y * d.y)) by (nonlinear_arith)
        requires
            oc.y * sc == -(q * d.y),
    ;
    assert((oc.z * oc.z) * (sc * sc) == (q * q) * (d.z * d.z)) by (nonlinear_arith)
        requires
            oc.z * sc == -(q * d.z),
    ;
    assert(c * (sc * sc) == (oc.x * oc.x) * (sc * sc) + (oc.y * oc.y) * (sc * sc) + (oc.z * oc.z)
        * (sc * sc) - (radius * radius) * (sc * sc)) by (nonlinear_arith)
        requires
            c == oc.x * oc.x + oc.y * oc.y + oc.z * oc.z - radius * radius,
    ;
    assert((q * q) * (d.x * d.x) + (q * q) * (d.y * d.y) + (q * q) * (d.z * d.z) == (q * q) * (sc
        * sc)) by (nonlinear_arith)
        requires
            d.x * d.x + d.y * d.y + d.z * d.z == sc * sc,
    ;
    assert((q * q - radius * radius) * (sc * sc) == (q * q) * (sc * sc) - (radius * radius) * (sc
        * sc)) by (nonlinear_arith);
    assert(c * (sc * sc) == (q * q - radius * radius) * (sc * sc));
    assert(c == q * q - radius * radius) by (nonlinear_arith)
        requires
            c * (sc * sc) == (q * q - radius * radius) * (sc * sc),
            sc > 0,
    ;
    let disc = sp_sph_disc(centre, radius, o, d);
    assert(disc == 4 * (sc * sc) * (radius * radius)) by (nonlinear_arith)
        requires
            disc == b * b - 4 * a * c,
            b == -2 * q * sc,
            a == sc * sc,
            c == q * q - radius * radius,
    ;
    let root = 2 * sc * radius;
    assert(is_sqrt_floor(disc, root)) by (nonlinear_arith)
        requires
            disc == 4 * (sc * sc) * (radius * radius),
            root == 2 * sc * radius,
            sc > 0,
            radius > 0,
    ;
    lemma_sqrt_floor_is(disc, root);
    assert((-b + root) * sc == (q + radius) * (2 * a)) by (nonlinear_arith)
        requires
            b == -2 * q * sc,
            root == 2 * sc * radius,
            a == sc * sc,
    ;
    assert((-b - root) * sc == (q - radius) * (2 * a)) by (nonlinear_arith)
        requires
            b == -2 * q * sc,
            root == 2 * sc * radius,
            a == sc * sc,
    ;
    lemma_tdiv_exact_multiple(q + radius, 2 * a);
    lemma_tdiv_exact_multiple(q - radius, 2 * a);
}

/// Truncating division recovers the cofactor of an exact multiple.
proof fn lemma_tdiv_exact_multiple(k: int, m: int)
    requires
        k >= 0,
        m > 0,
    ensures
        tdiv(k * m, m) == k,
{
    assert(k * m >= 0) by (nonlinear_arith)
        requires
            k >= 0,
            m > 0,
    ;
    assert(abs_int(k * m) == k * m);
    vstd::arithmetic::div_mod::lemma_div_by_multiple(k, m);
}

/// A ray cast from strictly inside a sphere intersects it at exactly one
/// non-negative parametric distance: the intersection is a hit, its distance
/// is non-negative, and the other root of the quadratic is not positive.
pub proof fn lemma_inside_sphere_hits(centre: V3, radius: int, o: V3, d: V3)
    requires
        sp_magsq(d) > 0,
        sp_magsq(sp_vsub(o, centre)) < radius * radius,
    ensures
        sp_sphere_intersect(centre, radius, o, d) matches Some(t) && t >= 0,
        ({
            let oc = sp_vsub(o, centre);
            let a = sp_sph_a(d);
            let b = sp_sph_b(oc, d);
            let sq = sqrt_floor(sp_sph_disc(centre, radius, o, d));
            tdiv((-b - sq) * SCALE as int, 2 * a) <= 0
        }),
{
    let oc = sp_vsub(o, centre);
    let a = sp_sph_a(d);
    let b = sp_sph_b(oc, d);
    let c = sp_sph_c(oc, radius);
    let disc = sp_sph_disc(centre, radius, o, d);
    assert(c < 0);
    assert(4 * a * c < 0) by (nonlinear_arith)
        requires
            a > 0,
            c < 0,
    ;
    assert(b * b >= 0) by (nonlinear_arith);
    assert(disc > b * b);
    lemma_sqrt_floor_exists(disc);
    let sq = sqrt_floor(disc);
    assert(abs_int(b) <= sq) by (nonlinear_arith)
        requires
            is_sqrt_floor(disc, sq),
            b * b < disc,
    ;
    assert((-b + sq) * SCALE as int >= 0) by (nonlinear_arith)
        requires
            -b + sq >= 0,
            SCALE as int > 0,
    ;
    assert((-b - sq) * SCALE as int <= 0) by (nonlinear_arith)
        requires
            -b - sq <= 0,
            SCALE as int > 0,
    ;
    lemma_tdiv_sign((-b + sq) * SCALE as int, 2 * a);
    lemma_tdiv_sign((-b - sq) * SCALE as int, 2 * a);
}

/// The dot product of two triples (raw, scale `SCALE^2`).
spec fn raw_dot(a: V3, b: V3) -> int {
    a.x * b.x + a.y * b.y + a.z * b.z
}

/// Lagrange's identity relating the dot and cross products.
/// Product of two trinomials, expanded.
proof fn lemma_tri_prod(x1: int, x2: int, x3: int, y1: int, y2: int, y3: int)
    ensures
        (x1 + x2 + x3) * (y1 + y2 + y3) == x1 * y1 + x1 * y2 + x1 * y3 + x2 * y1 + x2 * y2 + x2
            * y3 + x3 * y1 + x3 * y2 + x3 * y3,
{
    assert((x1 + x2 + x3) * (y1 + y2 + y3) == x1 * y1 + x1 * y2 + x1 * y3 + x2 * y1 + x2 * y2 + x2
        * y3 + x3 * y1 + x3 * y2 + x3 * y3) by (nonlinear_arith);
}

/// Square of a difference, expanded.
proof fn lemma_sub_sq(u: int, v: int)
    ensures
        (u - v) * (u - v) == u * u - 2 * (u * v) + v * v,
{
    assert((u - v) * (u - v) == u * u - 2 * (u * v) + v * v) by (nonlinear_arith);
}

/// Regrouping a product of two products.
proof fn lemma_sq_swap(p: int, q: int, r: int, s: int)
    ensures
        (p * q) * (r * s) == (p * r) * (q * s),
        (p * q) * (r * s) == (p * s) * (r * q),
{
    assert((p * q) * (r * s) == (p * r) * (q * s)) by (nonlinear_arith);
    assert((p * q) * (r * s) == (p * s) * (r * q)) by (nonlinear_arith);
}

/// Lagrange's identity relating the dot and cross products.
proof fn lemma_lagrange(a: V3, b: V3)
    ensures
        sp_magsq(a) * sp_magsq(b) - raw_dot(a, b) * raw_dot(a, b) == sp_magsq(sp_vcross(a, b)),
{
    let ax = a.x;
    let ay = a.y;
    let az = a.z;
    let bx = b.x;
    let by0 = b.y;
    let bz = b.z;
    // the nine products of the squared-component sums
    lemma_tri_prod(ax * ax, ay * ay, az * az, bx * bx, by0 * by0, bz * bz);
    // the squared dot product
    lemma_tri_prod(ax * bx, ay * by0, az * bz, ax * bx, ay * by0, az * bz);
    // the three squared cross-product components
    lemma_sub_sq(ay * bz, az * by0);
    lemma_sub_sq(az * bx, ax * bz);
    lemma_sub_sq(ax * by0, ay * bx);
    // regroup diagonal terms: (ai*ai)*(bj*bj) == (ai*bj)*(ai*bj)
    lemma_sq_swap(ax, ax, bx, bx);
    lemma_sq_swap(ax, ax, by0, by0);
    lemma_sq_swap(ax, ax, bz, bz);
    lemma_sq_swap(ay, ay, bx, bx);
    lemma_sq_swap(ay, ay, by0, by0);
    lemma_sq_swap(ay, ay, bz, bz);
    lemma_sq_swap(az, az, bx, bx);
    lemma_sq_swap(az, az, by0, by0);
    lemma_sq_swap(az, az, bz, bz);
    // regroup the mixed terms of the squared dot product
    lemma_sq_swap(ax, bx, ay, by0);
    lemma_sq_swap(ax, bx, az, bz);
    lemma_sq_swap(ay, by0, az, bz);
    // regroup the mixed terms of the squared cross components
    lemma_sq_swap(ay, bz, az, by0);
    lemma_sq_swap(az, bx, ax, bz);
    lemma_sq_swap(ax, by0, ay, bx);
}

/// A ray whose perpendicular offset from a sphere's centre exceeds the
/// radius misses the sphere: if `|(O - C) x D|^2 > r^2 |D|^2`, the
/// discriminant is negative and the intersection returns nothing.
pub proof fn lemma_perpendicular_miss(centre: V3, radius: int, o: V3, d: V3)
    requires
        sp_magsq(d) > 0,
        sp_magsq(sp_vcross(sp_vsub(o, centre), d)) > radius * radius * sp_magsq(d),
    ensures
        sp_sphere_intersect(centre, radius, o, d) is None,
{
    let oc = sp_vsub(o, centre);
    let a = sp_sph_a(d);
    let b = sp_sph_b(oc, d);
    let c = sp_sph_c(oc, radius);
    let s = raw_dot(oc, d);
    let cr = sp_magsq(sp_vcross(oc, d));
    lemma_lagrange(oc, d);
    assert(b * b - 4 * a * c == 4 * ((s * s - a * sp_magsq(oc)) + a * (radius * radius)))
        by (nonlinear_arith)
        requires
            b == 2 * s,
            c == sp_magsq(oc) - radius * radius,
    ;
    assert(s * s - a * sp_magsq(oc) == -cr) by (nonlinear_arith)
        requires
            a == sp_magsq(d),
            sp_magsq(oc) * sp_magsq(d) - s * s == cr,
    ;
    assert(a * (radius * radius) < cr) by (nonlinear_arith)
        requires
            a == sp_magsq(d),
            radius * radius * sp_magsq(d) < cr,
    ;
    assert(sp_sph_disc(centre, radius, o, d) < 0);
}

} // verus!

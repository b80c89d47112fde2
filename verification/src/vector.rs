//! Three-component vectors over fixed-point scalars.
//!
//! The view of a `Vector` is a `V3`, a triple of unbounded integers; every
//! operation's contract states the result exactly over that view.  The one
//! total-function policy of the kernel lives here: normalising the zero
//! vector yields the zero vector (rather than a meaningless quotient), and
//! every place that consumes a normalised vector treats the zero result as
//! "no direction".

use vstd::prelude::*;

use crate::fx::{
    abs_int, is_sqrt_floor, isqrt_i128, lemma_tdiv_abs, sqrt_floor, tdiv, tdiv_i128, SCALE,
};

verus! {

/// Mathematical view of a vector: an unbounded integer triple.
pub ghost struct V3 {
    pub x: int,
    pub y: int,
    pub z: int,
}

/// Every component of `a` has magnitude at most `b`.
pub open spec fn v3_bounded(a: V3, b: int) -> bool {
    abs_int(a.x) <= b && abs_int(a.y) <= b && abs_int(a.z) <= b
}

/// Componentwise sum.
pub open spec fn sp_vadd(a: V3, b: V3) -> V3 {
    V3 { x: a.x + b.x, y: a.y + b.y, z: a.z + b.z }
}

/// Componentwise difference.
pub open spec fn sp_vsub(a: V3, b: V3) -> V3 {
    V3 { x: a.x - b.x, y: a.y - b.y, z: a.z - b.z }
}

/// Scaling by a fixed-point scalar.
pub open spec fn sp_vmul(a: V3, s: int) -> V3 {
    V3 {
        x: tdiv(a.x * s, SCALE as int),
        y: tdiv(a.y * s, SCALE as int),
        z: tdiv(a.z * s, SCALE as int),
    }
}

/// Division by a fixed-point scalar.
pub open spec fn sp_vdiv(a: V3, s: int) -> V3
    recommends
        s != 0,
{
    V3 {
        x: tdiv(a.x * SCALE as int, s),
        y: tdiv(a.y * SCALE as int, s),
        z: tdiv(a.z * SCALE as int, s),
    }
}

/// Dot product, a fixed-point scalar.
pub open spec fn sp_dot(a: V3, b: V3) -> int {
    tdiv(a.x * b.x + a.y * b.y + a.z * b.z, SCALE as int)
}

/// Cross product over raw components (scale `SCALE * SCALE`).
pub open spec fn sp_vcross(a: V3, b: V3) -> V3 {
    V3 {
        x: a.y * b.z - a.z * b.y,
        y: a.z * b.x - a.x * b.z,
        z: a.x * b.y - a.y * b.x,
    }
}

/// Sum of the squared components (scale `SCALE * SCALE`).
pub open spec fn sp_magsq(a: V3) -> int {
    a.x * a.x + a.y * a.y + a.z * a.z
}

/// Magnitude: the floor square root of the squared component sum.
pub open spec fn sp_mag(a: V3) -> int {
    sqrt_floor(sp_magsq(a))
}

/// Normalisation; the zero vector maps to itself.
pub open spec fn sp_normalise(a: V3) -> V3 {
    if sp_mag(a) == 0 {
        V3 { x: 0, y: 0, z: 0 }
    } else {
        sp_vdiv(a, sp_mag(a))
    }
}

/// Linear interpolation, computed as `a * (1 - t) + b * t`.
pub open spec fn sp_lerp(a: V3, b: V3, t: int) -> V3 {
    sp_vadd(sp_vmul(a, SCALE as int - t), sp_vmul(b, t))
}

/// Bound on each vector component accepted by the executable operations;
/// far above anything a well-formed scene produces.
pub const VMAX: i128 = 0x2000000000000000;

#[derive(Clone, Copy, Debug, PartialEq, Eq, Structural)]
pub struct Vector {
    pub x: i128,
    pub y: i128,
    pub z: i128,
}

impl View for Vector {
    type V = V3;

    open spec fn view(&self) -> V3 {
        V3 { x: self.x as int, y: self.y as int, z: self.z as int }
    }
}

/// The squares of an in-bound vector's components sum to a safe argument
/// for the integer square root.
proof fn lemma_magsq_bounds(a: V3)
    requires
        v3_bounded(a, VMAX as int),
    ensures
        0 <= sp_magsq(a),
        sp_magsq(a) <= 3 * (VMAX as int) * (VMAX as int),
        a.x * a.x <= sp_magsq(a),
        a.y * a.y <= sp_magsq(a),
        a.z * a.z <= sp_magsq(a),
{
    assert(0 <= a.x * a.x <= VMAX as int * VMAX as int) by (nonlinear_arith)
        requires
            abs_int(a.x) <= VMAX as int,
    ;
    assert(0 <= a.y * a.y <= VMAX as int * VMAX as int) by (nonlinear_arith)
        requires
            abs_int(a.y) <= VMAX as int,
    ;
    assert(0 <= a.z * a.z <= VMAX as int * VMAX as int) by (nonlinear_arith)
        requires
            abs_int(a.z) <= VMAX as int,
    ;
}

impl Vector {
    /// Constructs a vector from the given values.
    pub fn new(x: i128, y: i128, z: i128) -> (r: Self)
        ensures
            r@ == (V3 { x: x as int, y: y as int, z: z as int }),
    {
        Self { x, y, z }
    }

    /// Componentwise sum.
    pub fn add(&self, rhs: &Vector) -> (r: Vector)
        requires
            v3_bounded(self@, VMAX as int),
            v3_bounded(rhs@, VMAX as int),
        ensures
            r@ == sp_vadd(self@, rhs@),
    {
        Vector { x: self.x + rhs.x, y: self.y + rhs.y, z: self.z + rhs.z }
    }

    /// Componentwise difference.
    pub fn sub(&self, rhs: &Vector) -> (r: Vector)
        requires
            v3_bounded(self@, VMAX as int),
            v3_bounded(rhs@, VMAX as int),
        ensures
            r@ == sp_vsub(self@, rhs@),
    {
        Vector { x: self.x - rhs.x, y: self.y - rhs.y, z: self.z - rhs.z }
    }

    /// Scaling by a fixed-point scalar.
    pub fn mul(&self, rhs: i128) -> (r: Vector)
        requires
            v3_bounded(self@, VMAX as int),
            abs_int(rhs as int) <= VMAX as int,
        ensures
            r@ == sp_vmul(self@, rhs as int),
    {
        proof {
            lemma_mul_abs_bounded(self.x as int, rhs as int, VMAX as int);
            lemma_mul_abs_bounded(self.y as int, rhs as int, VMAX as int);
            lemma_mul_abs_bounded(self.z as int, rhs as int, VMAX as int);
        }
        Vector {
            x: tdiv_i128(self.x * rhs, SCALE),
            y: tdiv_i128(self.y * rhs, SCALE),
            z: tdiv_i128(self.z * rhs, SCALE),
        }
    }

    /// Division by a fixed-point scalar.
    pub fn div(&self, rhs: i128) -> (r: Vector)
        requires
            rhs != 0,
            v3_bounded(self@, VMAX as int),
        ensures
            r@ == sp_vdiv(self@, rhs as int),
    {
        proof {
            lemma_mul_abs_bounded(self.x as int, SCALE as int, VMAX as int);
            lemma_mul_abs_bounded(self.y as int, SCALE as int, VMAX as int);
            lemma_mul_abs_bounded(self.z as int, SCALE as int, VMAX as int);
        }
        Vector {
            x: tdiv_i128(self.x * SCALE, rhs),
            y: tdiv_i128(self.y * SCALE, rhs),
            z: tdiv_i128(self.z * SCALE, rhs),
        }
    }

    /// Dot product.
    pub fn dot(&self, rhs: &Vector) -> (r: i128)
        requires
            v3_bounded(self@, VMAX as int),
            v3_bounded(rhs@, VMAX as int),
        ensures
            r == sp_dot(self@, rhs@),
    {
        proof {
            lemma_mul_abs_bounded(self.x as int, rhs.x as int, VMAX as int);
            lemma_mul_abs_bounded(self.y as int, rhs.y as int, VMAX as int);
            lemma_mul_abs_bounded(self.z as int, rhs.z as int, VMAX as int);
        }
        tdiv_i128(self.x * rhs.x + self.y * rhs.y + self.z * rhs.z, SCALE)
    }

    /// Linearly interpolates between two vectors, as `self * (1 - t) + other * t`.
    pub fn lerp(&self, other: &Vector, amount: i128) -> (r: Vector)
        requires
            v3_bounded(self@, VMAX as int),
            v3_bounded(other@, VMAX as int),
            abs_int(amount as int) <= VMAX as int,
            abs_int(SCALE as int - amount) <= VMAX as int,
        ensures
            r@ == sp_lerp(self@, other@, amount as int),
    {
        let s1: i128 = SCALE - amount;
        proof {
            lemma_mul_abs_bounded(self.x as int, s1 as int, VMAX as int);
            lemma_mul_abs_bounded(self.y as int, s1 as int, VMAX as int);
            lemma_mul_abs_bounded(self.z as int, s1 as int, VMAX as int);
            lemma_mul_abs_bounded(other.x as int, amount as int, VMAX as int);
            lemma_mul_abs_bounded(other.y as int, amount as int, VMAX as int);
            lemma_mul_abs_bounded(other.z as int, amount as int, VMAX as int);
            lemma_tdiv_abs(self.x as int * s1 as int, SCALE as int);
            lemma_tdiv_abs(self.y as int * s1 as int, SCALE as int);
            lemma_tdiv_abs(self.z as int * s1 as int, SCALE as int);
            lemma_tdiv_abs(other.x as int * amount as int, SCALE as int);
            lemma_tdiv_abs(other.y as int * amount as int, SCALE as int);
            lemma_tdiv_abs(other.z as int * amount as int, SCALE as int);
        }
        let x1: i128 = tdiv_i128(self.x * s1, SCALE);
        let y1: i128 = tdiv_i128(self.y * s1, SCALE);
        let z1: i128 = tdiv_i128(self.z * s1, SCALE);
        let x2: i128 = tdiv_i128(other.x * amount, SCALE);
        let y2: i128 = tdiv_i128(other.y * amount, SCALE);
        let z2: i128 = tdiv_i128(other.z * amount, SCALE);
        Vector { x: x1 + x2, y: y1 + y2, z: z1 + z2 }
    }

    /// Calculates the magnitude of the vector.
    pub fn magnitude(&self) -> (r: i128)
        requires
            v3_bounded(self@, VMAX as int),
        ensures
            r == sp_mag(self@),
            is_sqrt_floor(sp_magsq(self@), r as int),
    {
        proof {
            lemma_magsq_bounds(self@);
        }
        let sq: i128 = self.x * self.x + self.y * self.y + self.z * self.z;
        isqrt_i128(sq)
    }

    /// Normalises a vector so that it points in the same direction but has
    /// unit magnitude; the zero vector is returned unchanged.
    pub fn normalise(&self) -> (r: Vector)
        requires
            v3_bounded(self@, VMAX as int),
        ensures
            r@ == sp_normalise(self@),
            v3_bounded(r@, SCALE as int),
    {
        let m = self.magnitude();
        if m == 0 {
            Vector { x: 0, y: 0, z: 0 }
        } else {
            proof {
                lemma_magsq_bounds(self@);
                lemma_normalised_component(self.x as int, sp_magsq(self@), m as int);
                lemma_normalised_component(self.y as int, sp_magsq(self@), m as int);
                lemma_normalised_component(self.z as int, sp_magsq(self@), m as int);
            }
            self.div(m)
        }
    }
}

/// A normalised vector has every component within one unit, whatever the
/// input: each scaled component is divided by a floor square root that is at
/// least the component's own magnitude.  (That its magnitude is one unit up
/// to rounding is a numerical fact the test suite exercises; this is the
/// exactly-stated part.)
pub proof fn lemma_normalise_within_unit(a: V3)
    ensures
        v3_bounded(sp_normalise(a), SCALE as int),
{
    assert(a.x * a.x >= 0) by (nonlinear_arith);
    assert(a.y * a.y >= 0) by (nonlinear_arith);
    assert(a.z * a.z >= 0) by (nonlinear_arith);
    crate::fx::lemma_sqrt_floor_exists(sp_magsq(a));
    let m = sp_mag(a);
    if m != 0 {
        lemma_normalised_component(a.x, sp_magsq(a), m);
        lemma_normalised_component(a.y, sp_magsq(a), m);
        lemma_normalised_component(a.z, sp_magsq(a), m);
    }
}

/// Bound on the magnitude of a product of bounded factors.
proof fn lemma_mul_abs_bounded(a: int, b: int, m: int)
    requires
        abs_int(a) <= m,
        abs_int(b) <= m,
        0 <= m,
    ensures
        abs_int(a * b) <= m * m,
{
    assert(abs_int(a * b) <= m * m) by (nonlinear_arith)
        requires
            abs_int(a) <= m,
            abs_int(b) <= m,
            0 <= m,
    ;
}

/// Component bound on a scaled vector.
pub proof fn lemma_vmul_bounded(a: V3, s: int, ma: int, ms: int, mc: int)
    requires
        v3_bounded(a, ma),
        abs_int(s) <= ms,
        0 <= ma,
        0 <= ms,
        0 <= mc,
        ma * ms <= mc * SCALE as int,
    ensures
        v3_bounded(sp_vmul(a, s), mc),
{
    crate::fx::lemma_abs_mul(a.x, s, ma, ms);
    crate::fx::lemma_abs_mul(a.y, s, ma, ms);
    crate::fx::lemma_abs_mul(a.z, s, ma, ms);
    crate::fx::lemma_tdiv_mul_bound(a.x * s, mc, SCALE as int);
    crate::fx::lemma_tdiv_mul_bound(a.y * s, mc, SCALE as int);
    crate::fx::lemma_tdiv_mul_bound(a.z * s, mc, SCALE as int);
}

/// Floor division distributes superadditively: the sum of two non-negative
/// quotients is at most the quotient of the sum.
proof fn lemma_div_superadd(p: int, q: int, d: int)
    requires
        p >= 0,
        q >= 0,
        d >= 1,
    ensures
        p / d + q / d <= (p + q) / d,
{
    vstd::arithmetic::div_mod::lemma_fundamental_div_mod(p, d);
    vstd::arithmetic::div_mod::lemma_fundamental_div_mod(q, d);
    vstd::arithmetic::div_mod::lemma_mod_bound(p, d);
    vstd::arithmetic::div_mod::lemma_mod_bound(q, d);
    vstd::arithmetic::div_mod::lemma_div_pos_is_pos(p, d);
    vstd::arithmetic::div_mod::lemma_div_pos_is_pos(q, d);
    let k = p / d + q / d;
    assert(d * k <= p + q) by (nonlinear_arith)
        requires
            d * (p / d) + p % d == p,
            d * (q / d) + q % d == q,
            p % d >= 0,
            q % d >= 0,
            k == p / d + q / d,
    ;
    vstd::arithmetic::div_mod::lemma_div_multiples_vanish(k, d);
    vstd::arithmetic::div_mod::lemma_div_is_ordered(d * k, p + q, d);
}

/// Interpolating between two bounded vectors with a weight inside one unit
/// stays within the bound.
pub proof fn lemma_lerp_unit_bounded(a: V3, b: V3, t: int, ma: int)
    requires
        v3_bounded(a, ma),
        v3_bounded(b, ma),
        0 <= t <= SCALE as int,
        0 <= ma,
    ensures
        v3_bounded(sp_lerp(a, b, t), ma),
{
    lemma_lerp_unit_bounded_comp(a.x, b.x, t, ma);
    lemma_lerp_unit_bounded_comp(a.y, b.y, t, ma);
    lemma_lerp_unit_bounded_comp(a.z, b.z, t, ma);
}

proof fn lemma_lerp_unit_bounded_comp(av: int, bv: int, t: int, ma: int)
    requires
        abs_int(av) <= ma,
        abs_int(bv) <= ma,
        0 <= t <= SCALE as int,
        0 <= ma,
    ensures
        abs_int(tdiv(av * (SCALE as int - t), SCALE as int) + tdiv(bv * t, SCALE as int)) <= ma,
{
    let sc = SCALE as int;
    assert(abs_int(av * (sc - t)) <= ma * (sc - t)) by (nonlinear_arith)
        requires
            abs_int(av) <= ma,
            0 <= sc - t,
    ;
    assert(abs_int(bv * t) <= ma * t) by (nonlinear_arith)
        requires
            abs_int(bv) <= ma,
            0 <= t,
    ;
    crate::fx::lemma_tdiv_abs(av * (sc - t), sc);
    crate::fx::lemma_tdiv_abs(bv * t, sc);
    vstd::arithmetic::div_mod::lemma_div_is_ordered(abs_int(av * (sc - t)), ma * (sc - t), sc);
    vstd::arithmetic::div_mod::lemma_div_is_ordered(abs_int(bv * t), ma * t, sc);
    lemma_div_superadd(ma * (sc - t), ma * t, sc);
    assert(ma * (sc - t) + ma * t == ma * sc) by (nonlinear_arith);
    assert((ma * sc) / sc == ma) by {
        vstd::arithmetic::div_mod::lemma_div_multiples_vanish(ma, sc);
        assert(ma * sc == sc * ma) by (nonlinear_arith);
    }
}

/// Bound on a dot product of bounded vectors.
pub proof fn lemma_dot_bounded(a: V3, b: V3, ma: int, mb: int, mc: int)
    requires
        v3_bounded(a, ma),
        v3_bounded(b, mb),
        0 <= ma,
        0 <= mb,
        0 <= mc,
        3 * (ma * mb) <= mc * SCALE as int,
    ensures
        abs_int(sp_dot(a, b)) <= mc,
{
    crate::fx::lemma_abs_mul(a.x, b.x, ma, mb);
    crate::fx::lemma_abs_mul(a.y, b.y, ma, mb);
    crate::fx::lemma_abs_mul(a.z, b.z, ma, mb);
    crate::fx::lemma_tdiv_mul_bound(a.x * b.x + a.y * b.y + a.z * b.z, mc, SCALE as int);
}

/// A component of a normalised vector has magnitude at most `SCALE`.
proof fn lemma_normalised_component(a: int, sq: int, m: int)
    requires
        a * a <= sq,
        is_sqrt_floor(sq, m),
        m >= 1,
    ensures
        abs_int(tdiv(a * SCALE as int, m)) <= SCALE as int,
{
    assert(abs_int(a) <= m) by (nonlinear_arith)
        requires
            a * a <= sq,
            sq < (m + 1) * (m + 1),
            m >= 0,
    ;
    assert(abs_int(a * SCALE as int) <= SCALE as int * m) by (nonlinear_arith)
        requires
            abs_int(a) <= m,
    ;
    crate::fx::lemma_tdiv_mul_bound(a * SCALE as int, SCALE as int, m);
}

} // verus!

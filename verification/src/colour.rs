//! Additive RGB colours over fixed-point scalars.
//!
//! Channels are not confined to the displayable range: multi-light summation
//! accumulates unclamped, and only the final pixel emission clamps each
//! channel into `[0, SCALE]` (the fixed-point image of `[0, 1]`).

use vstd::prelude::*;

use crate::fx::{abs_int, tdiv, tdiv_i128, SCALE};

verus! {

/// Mathematical view of a colour: an unbounded integer triple.
pub ghost struct C3 {
    pub r: int,
    pub g: int,
    pub b: int,
}

/// Every channel of `a` has magnitude at most `b`.
pub open spec fn c3_bounded(a: C3, b: int) -> bool {
    abs_int(a.r) <= b && abs_int(a.g) <= b && abs_int(a.b) <= b
}

/// Channelwise sum.
pub open spec fn sp_cadd(a: C3, b: C3) -> C3 {
    C3 { r: a.r + b.r, g: a.g + b.g, b: a.b + b.b }
}

/// Channelwise product of two colours.
pub open spec fn sp_cmul(a: C3, b: C3) -> C3 {
    C3 {
        r: tdiv(a.r * b.r, SCALE as int),
        g: tdiv(a.g * b.g, SCALE as int),
        b: tdiv(a.b * b.b, SCALE as int),
    }
}

/// Scaling by a fixed-point scalar.
pub open spec fn sp_cscale(a: C3, s: int) -> C3 {
    C3 {
        r: tdiv(a.r * s, SCALE as int),
        g: tdiv(a.g * s, SCALE as int),
        b: tdiv(a.b * s, SCALE as int),
    }
}

/// One channel clamped into `[0, SCALE]`.
pub open spec fn sp_clamp1(v: int) -> int {
    if v < 0 {
        0
    } else if v > SCALE as int {
        SCALE as int
    } else {
        v
    }
}

/// Every channel clamped into `[0, SCALE]`.
pub open spec fn sp_clamp(a: C3) -> C3 {
    C3 { r: sp_clamp1(a.r), g: sp_clamp1(a.g), b: sp_clamp1(a.b) }
}

/// Channel bound accepted by the channelwise product.
pub const CMUL_MAX: i128 = 0x4000000000000000;

/// Channel bound accepted by the channelwise sum.
pub const CADD_MAX: i128 = 0x20000000000000000000000000000000;

/// Channel bound accepted by scaling, together with `CSCALE_SMAX` on the scalar.
pub const CSCALE_MAX: i128 = 0x40000000000000000000000;

/// Scalar bound accepted by scaling.
pub const CSCALE_SMAX: i128 = 0x400000000;

#[derive(Clone, Copy, Debug, PartialEq, Eq, Structural)]
pub struct Colour {
    r: i128,
    g: i128,
    b: i128,
}

impl View for Colour {
    type V = C3;

    closed spec fn view(&self) -> C3 {
        C3 { r: self.r as int, g: self.g as int, b: self.b as int }
    }
}

impl Colour {
    /// Constructs a colour from the given channel values.
    pub fn new(r: i128, g: i128, b: i128) -> (c: Self)
        ensures
            c@ == (C3 { r: r as int, g: g as int, b: b as int }),
    {
        Self { r, g, b }
    }

    /// Gets the inner channel values as an array of scalars.
    pub fn to_inner(self) -> (a: [i128; 3])
        ensures
            a[0] == self@.r,
            a[1] == self@.g,
            a[2] == self@.b,
    {
        [self.r, self.g, self.b]
    }

    /// Clamps each channel into `[0, SCALE]`, the displayable range.
    pub fn clamp(&self) -> (c: Self)
        ensures
            c@ == sp_clamp(self@),
            0 <= c@.r <= SCALE as int,
            0 <= c@.g <= SCALE as int,
            0 <= c@.b <= SCALE as int,
    {
        Self {
            r: clamp1(self.r),
            g: clamp1(self.g),
            b: clamp1(self.b),
        }
    }

    /// Channelwise sum.
    pub fn add(&self, rhs: &Colour) -> (c: Colour)
        requires
            c3_bounded(self@, CADD_MAX as int),
            c3_bounded(rhs@, CADD_MAX as int),
        ensures
            c@ == sp_cadd(self@, rhs@),
    {
        Colour { r: self.r + rhs.r, g: self.g + rhs.g, b: self.b + rhs.b }
    }

    /// Channelwise sum in place.
    pub fn add_assign(&mut self, rhs: &Colour)
        requires
            c3_bounded(old(self)@, CADD_MAX as int),
            c3_bounded(rhs@, CADD_MAX as int),
        ensures
            final(self)@ == sp_cadd(old(self)@, rhs@),
    {
        self.r = self.r + rhs.r;
        self.g = self.g + rhs.g;
        self.b = self.b + rhs.b;
    }

    /// Channelwise product of two colours.
    pub fn mul(&self, rhs: &Colour) -> (c: Colour)
        requires
            c3_bounded(self@, CMUL_MAX as int),
            c3_bounded(rhs@, CMUL_MAX as int),
        ensures
            c@ == sp_cmul(self@, rhs@),
    {
        proof {
            lemma_chan_mul_bounded(self.r as int, rhs.r as int, CMUL_MAX as int);
            lemma_chan_mul_bounded(self.g as int, rhs.g as int, CMUL_MAX as int);
            lemma_chan_mul_bounded(self.b as int, rhs.b as int, CMUL_MAX as int);
        }
        Colour {
            r: tdiv_i128(self.r * rhs.r, SCALE),
            g: tdiv_i128(self.g * rhs.g, SCALE),
            b: tdiv_i128(self.b * rhs.b, SCALE),
        }
    }

    /// Scaling by a fixed-point scalar.
    pub fn scale(&self, s: i128) -> (c: Colour)
        requires
            c3_bounded(self@, CSCALE_MAX as int),
            abs_int(s as int) <= CSCALE_SMAX as int,
        ensures
            c@ == sp_cscale(self@, s as int),
    {
        proof {
            lemma_chan_scale_bounded(self.r as int, s as int);
            lemma_chan_scale_bounded(self.g as int, s as int);
            lemma_chan_scale_bounded(self.b as int, s as int);
        }
        Colour {
            r: tdiv_i128(self.r * s, SCALE),
            g: tdiv_i128(self.g * s, SCALE),
            b: tdiv_i128(self.b * s, SCALE),
        }
    }
}

/// Channelwise truncating division by a positive count (used to average
/// accumulated subpixel colours; the divisor is a plain integer, not a
/// fixed-point scalar).
pub open spec fn sp_cdivi(a: C3, n: int) -> C3
    recommends
        n > 0,
{
    C3 { r: tdiv(a.r, n), g: tdiv(a.g, n), b: tdiv(a.b, n) }
}

impl Colour {
    /// Channelwise division by a positive count.
    pub fn div(&self, n: i128) -> (c: Colour)
        requires
            n > 0,
            c3_bounded(self@, CADD_MAX as int),
        ensures
            c@ == sp_cdivi(self@, n as int),
    {
        Colour {
            r: tdiv_i128(self.r, n),
            g: tdiv_i128(self.g, n),
            b: tdiv_i128(self.b, n),
        }
    }
}

/// One channel clamped into `[0, SCALE]`.
fn clamp1(v: i128) -> (r: i128)
    ensures
        r == sp_clamp1(v as int),
{
    if v < 0 {
        0
    } else if v > SCALE {
        SCALE
    } else {
        v
    }
}

/// Clamping is idempotent: a clamped colour has every channel in
/// `[0, SCALE]` already, so clamping it again changes nothing.
pub proof fn lemma_clamp_idempotent(a: C3)
    ensures
        sp_clamp(sp_clamp(a)) == sp_clamp(a),
        0 <= sp_clamp(a).r <= SCALE as int,
        0 <= sp_clamp(a).g <= SCALE as int,
        0 <= sp_clamp(a).b <= SCALE as int,
{
}

/// Channel bound on a channelwise product.
pub proof fn lemma_cmul_bounded(a: C3, b: C3, ma: int, mb: int, mc: int)
    requires
        c3_bounded(a, ma),
        c3_bounded(b, mb),
        0 <= ma,
        0 <= mb,
        0 <= mc,
        ma * mb <= mc * SCALE as int,
    ensures
        c3_bounded(sp_cmul(a, b), mc),
{
    crate::fx::lemma_abs_mul(a.r, b.r, ma, mb);
    crate::fx::lemma_abs_mul(a.g, b.g, ma, mb);
    crate::fx::lemma_abs_mul(a.b, b.b, ma, mb);
    crate::fx::lemma_tdiv_mul_bound(a.r * b.r, mc, SCALE as int);
    crate::fx::lemma_tdiv_mul_bound(a.g * b.g, mc, SCALE as int);
    crate::fx::lemma_tdiv_mul_bound(a.b * b.b, mc, SCALE as int);
}

/// Channel bound on a scaled colour.
pub proof fn lemma_cscale_bounded(a: C3, s: int, ma: int, ms: int, mc: int)
    requires
        c3_bounded(a, ma),
        abs_int(s) <= ms,
        0 <= ma,
        0 <= ms,
        0 <= mc,
        ma * ms <= mc * SCALE as int,
    ensures
        c3_bounded(sp_cscale(a, s), mc),
{
    crate::fx::lemma_abs_mul(a.r, s, ma, ms);
    crate::fx::lemma_abs_mul(a.g, s, ma, ms);
    crate::fx::lemma_abs_mul(a.b, s, ma, ms);
    crate::fx::lemma_tdiv_mul_bound(a.r * s, mc, SCALE as int);
    crate::fx::lemma_tdiv_mul_bound(a.g * s, mc, SCALE as int);
    crate::fx::lemma_tdiv_mul_bound(a.b * s, mc, SCALE as int);
}

proof fn lemma_chan_mul_bounded(a: int, b: int, m: int)
    requires
        abs_int(a) <= m,
        abs_int(b) <= m,
        0 <= m,
    ensures
        abs_int(a * b) <= m * m,
{
    assert(abs_int(a * b) <= m * m) by (nonlinear_arith)
        requires
            abs_int(a) <= m,
            abs_int(b) <= m,
            0 <= m,
    ;
}

proof fn lemma_chan_scale_bounded(a: int, s: int)
    requires
        abs_int(a) <= CSCALE_MAX as int,
        abs_int(s) <= CSCALE_SMAX as int,
    ensures
        abs_int(a * s) <= CSCALE_MAX as int * CSCALE_SMAX as int,
{
    assert(abs_int(a * s) <= CSCALE_MAX as int * CSCALE_SMAX as int) by (nonlinear_arith)
        requires
            abs_int(a) <= CSCALE_MAX as int,
            abs_int(s) <= CSCALE_SMAX as int,
    ;
}

} // verus!

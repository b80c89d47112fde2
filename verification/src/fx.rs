//! Fixed-point scalar arithmetic.
//!
//! A scalar value `v: i128` stands for the real number `v / SCALE`.  The two
//! rounding primitives of the kernel live here: truncating (round toward
//! zero) division, which is how every fixed-point quotient is taken, and the
//! floor integer square root, which backs vector magnitudes and the sphere
//! intersection discriminant.

use vstd::prelude::*;

verus! {

/// Number of fixed-point units per whole unit: a scalar `v` stands for the
/// real number `v / SCALE`.
pub const SCALE: i128 = 65536;

/// Largest argument `isqrt_i128` accepts; every square-root taken by the
/// kernel stays far below it.
pub const ISQRT_MAX: i128 = 0x40000000000000000000000000000000;

/// Magnitude of an integer.
pub open spec fn abs_int(a: int) -> int {
    if a >= 0 {
        a
    } else {
        -a
    }
}

/// Truncating (round toward zero) division: the rounding of every
/// fixed-point quotient in this crate.
pub open spec fn tdiv(a: int, b: int) -> int
    recommends
        b != 0,
{
    if (a >= 0) == (b >= 0) {
        abs_int(a) / abs_int(b)
    } else {
        -(abs_int(a) / abs_int(b))
    }
}

/// `r` is the floor of the square root of `n`.
pub open spec fn is_sqrt_floor(n: int, r: int) -> bool {
    r >= 0 && r * r <= n && n < (r + 1) * (r + 1)
}

/// The floor of the square root of a non-negative integer.
pub open spec fn sqrt_floor(n: int) -> int
    recommends
        n >= 0,
{
    choose|r: int| is_sqrt_floor(n, r)
}

/// At most one integer is the floor square root of `n`.
proof fn lemma_sqrt_floor_unique(n: int, r1: int, r2: int)
    requires
        is_sqrt_floor(n, r1),
        is_sqrt_floor(n, r2),
    ensures
        r1 == r2,
{
    if r1 < r2 {
        assert((r1 + 1) * (r1 + 1) <= r2 * r2) by (nonlinear_arith)
            requires
                0 <= r1 + 1 <= r2,
        ;
    }
    if r2 < r1 {
        assert((r2 + 1) * (r2 + 1) <= r1 * r1) by (nonlinear_arith)
            requires
                0 <= r2 + 1 <= r1,
        ;
    }
}

/// Any witness of `is_sqrt_floor` is the `sqrt_floor`.
pub proof fn lemma_sqrt_floor_is(n: int, r: int)
    requires
        is_sqrt_floor(n, r),
    ensures
        sqrt_floor(n) == r,
{
    let c = choose|c: int| is_sqrt_floor(n, c);
    lemma_sqrt_floor_unique(n, c, r);
}

/// The magnitude of a truncating quotient is the quotient of the magnitudes.
pub proof fn lemma_tdiv_abs(a: int, b: int)
    requires
        b != 0,
    ensures
        abs_int(tdiv(a, b)) == abs_int(a) / abs_int(b),
        0 <= abs_int(a) / abs_int(b) <= abs_int(a),
{
    vstd::arithmetic::div_mod::lemma_div_pos_is_pos(abs_int(a), abs_int(b));
    vstd::arithmetic::div_mod::lemma_div_nonincreasing(abs_int(a), abs_int(b));
}

/// A truncating quotient of a bounded dividend is bounded.
pub proof fn lemma_tdiv_abs_mono(a: int, c: int, b: int)
    requires
        b >= 1,
        abs_int(a) <= c,
    ensures
        abs_int(tdiv(a, b)) <= c / b,
        abs_int(tdiv(a, b)) <= c,
{
    lemma_tdiv_abs(a, b);
    vstd::arithmetic::div_mod::lemma_div_is_ordered(abs_int(a), c, b);
    vstd::arithmetic::div_mod::lemma_div_nonincreasing(c, b);
}

/// Dividing a bound that is a multiple of the divisor gives the cofactor:
/// `|tdiv(a, b)| <= c` when `|a| <= c * b`.
pub proof fn lemma_tdiv_mul_bound(a: int, c: int, b: int)
    requires
        b >= 1,
        c >= 0,
        abs_int(a) <= c * b,
    ensures
        abs_int(tdiv(a, b)) <= c,
{
    lemma_tdiv_abs_mono(a, c * b, b);
    vstd::arithmetic::div_mod::lemma_div_multiples_vanish(c, b);
    assert(c * b == b * c) by (nonlinear_arith);
}

/// Bound on the magnitude of a product from bounds on the factors.
pub proof fn lemma_abs_mul(a: int, b: int, ma: int, mb: int)
    requires
        abs_int(a) <= ma,
        abs_int(b) <= mb,
        0 <= ma,
        0 <= mb,
    ensures
        abs_int(a * b) <= ma * mb,
{
    assert(abs_int(a * b) <= ma * mb) by (nonlinear_arith)
        requires
            abs_int(a) <= ma,
            abs_int(b) <= mb,
            0 <= ma,
            0 <= mb,
    ;
}

/// A truncating quotient has the sign of its dividend (positive divisor).
pub proof fn lemma_tdiv_sign(a: int, b: int)
    requires
        b > 0,
    ensures
        a >= 0 ==> tdiv(a, b) >= 0,
        a <= 0 ==> tdiv(a, b) <= 0,
{
    vstd::arithmetic::div_mod::lemma_div_pos_is_pos(abs_int(a), b);
}

/// Every non-negative integer has a floor square root.
pub proof fn lemma_sqrt_floor_exists(n: int)
    requires
        n >= 0,
    ensures
        is_sqrt_floor(n, sqrt_floor(n)),
    decreases n,
{
    if n == 0 {
        assert(is_sqrt_floor(0, 0));
    } else {
        lemma_sqrt_floor_exists(n - 1);
        let r = sqrt_floor(n - 1);
        if (r + 1) * (r + 1) <= n {
            assert((r + 1) * (r + 1) > n - 1);
            assert((r + 1) * (r + 1) == n);
            assert((r + 2) * (r + 2) > n) by (nonlinear_arith)
                requires
                    r >= 0,
                    (r + 1) * (r + 1) == n,
            ;
            assert(is_sqrt_floor(n, r + 1));
        } else {
            assert(is_sqrt_floor(n, r));
        }
    }
}

/// Truncating division of two scalars.
pub fn tdiv_i128(a: i128, b: i128) -> (r: i128)
    requires
        b != 0,
        !(a == i128::MIN && b == -1),
    ensures
        r == tdiv(a as int, b as int),
{
    proof {
        let x = a as int;
        let d = b as int;
        let q = abs_int(x) / abs_int(d);
        assert(0 <= q <= abs_int(x)) by (nonlinear_arith)
            requires
                abs_int(x) >= 0,
                abs_int(d) >= 1,
                q == abs_int(x) / abs_int(d),
        ;
        if a == i128::MIN && b != 1 {
            assert(q <= abs_int(x) / 2) by (nonlinear_arith)
                requires
                    abs_int(x) >= 0,
                    abs_int(d) >= 2,
                    q == abs_int(x) / abs_int(d),
            ;
        }
        // relate the shape used by `checked_div`'s contract to `tdiv`
        if x > 0 && d > 0 {
            assert(tdiv(x, d) == x / d);
        } else if x < 0 && d < 0 {
            assert(tdiv(x, d) == (x * -1) / (d * -1));
        } else if x < 0 && d > 0 {
            assert(tdiv(x, d) == ((x * -1) / d) * -1);
        } else if x > 0 && d < 0 {
            assert(tdiv(x, d) == (x / (d * -1)) * -1);
        } else {
            assert(x == 0 && tdiv(x, d) == 0);
        }
    }
    match a.checked_div(b) {
        Some(q) => q,
        None => {
            proof {
                assert(false);
            }
            0
        },
    }
}

/// Fixed-point power with a non-negative integer exponent, by repeated
/// multiplication starting from one unit.
pub open spec fn sp_powfix(base: int, e: nat) -> int
    decreases e,
{
    if e == 0 {
        SCALE as int
    } else {
        tdiv(sp_powfix(base, (e - 1) as nat) * base, SCALE as int)
    }
}

/// Fixed-point power of a base in `[0, SCALE]`; the result stays in
/// `[0, SCALE]`.
pub fn pow_fix(base: i128, e: u32) -> (r: i128)
    requires
        0 <= base <= SCALE,
    ensures
        r == sp_powfix(base as int, e as nat),
        0 <= r <= SCALE,
{
    let mut r: i128 = SCALE;
    let mut i: u32 = 0;
    while i < e
        invariant
            0 <= base <= SCALE,
            i <= e,
            r == sp_powfix(base as int, i as nat),
            0 <= r <= SCALE,
        decreases e - i,
    {
        proof {
            lemma_abs_mul(r as int, base as int, SCALE as int, SCALE as int);
            lemma_tdiv_mul_bound(r as int * base as int, SCALE as int, SCALE as int);
            assert(r as int * base as int >= 0) by (nonlinear_arith)
                requires
                    r >= 0,
                    base >= 0,
            ;
            lemma_tdiv_sign(r as int * base as int, SCALE as int);
        }
        r = tdiv_i128(r * base, SCALE);
        i = i + 1;
    }
    r
}

/// Floor square root of a non-negative scalar, by bisection.
pub fn isqrt_i128(n: i128) -> (r: i128)
    requires
        0 <= n <= ISQRT_MAX,
    ensures
        r == sqrt_floor(n as int),
        is_sqrt_floor(n as int, r as int),
{
    let mut lo: i128 = 0;
    let mut hi: i128 = 0x8000000000000000;
    while lo < hi
        invariant
            0 <= lo <= hi <= 0x8000000000000000,
            lo * lo <= n,
            n < (hi + 1) * (hi + 1),
        decreases hi - lo,
    {
        let step: i128 = tdiv_i128(hi - lo + 1, 2);
        proof {
            let w = hi - lo + 1int;
            vstd::arithmetic::div_mod::lemma_fundamental_div_mod(w, 2);
            vstd::arithmetic::div_mod::lemma_mod_bound(w, 2);
            assert(tdiv(w, 2) == w / 2);
        }
        let mid: i128 = lo + step;
        assert(lo < mid <= hi);
        let q: i128 = tdiv_i128(n, mid);
        proof {
            let nn = n as int;
            let m = mid as int;
            vstd::arithmetic::div_mod::lemma_fundamental_div_mod(nn, m);
            vstd::arithmetic::div_mod::lemma_mod_bound(nn, m);
            assert(m * (nn / m) + nn % m == nn);
            assert(0 <= nn % m < m);
            assert(q == nn / m);
        }
        if mid <= q {
            proof {
                assert(mid * mid <= mid * q) by (nonlinear_arith)
                    requires
                        0 <= mid <= q,
                ;
                assert(mid as int * (n as int / mid as int) <= n as int);
            }
            lo = mid;
        } else {
            proof {
                let nn = n as int;
                let m = mid as int;
                let qq = nn / m;
                assert(nn < m * m) by (nonlinear_arith)
                    requires
                        m >= 1,
                        qq < m,
                        m * qq + nn % m == nn,
                        0 <= nn % m < m,
                ;
            }
            hi = mid - 1;
        }
    }
    proof {
        lemma_sqrt_floor_is(n as int, lo as int);
    }
    lo
}

} // verus!

//! Vector and colour algebra over fixed-point scalars.

use raytracer::colour::Colour;
use raytracer::fx::{isqrt_i128, pow_fix, tdiv_i128, SCALE};
use raytracer::vector::Vector;

#[test]
fn vector_add_sub_exact() {
    let a = Vector::new(SCALE, 2 * SCALE, -3 * SCALE);
    let b = Vector::new(4 * SCALE, -SCALE, SCALE);
    assert_eq!(a.add(&b), Vector::new(5 * SCALE, SCALE, -2 * SCALE));
    assert_eq!(a.sub(&b), Vector::new(-3 * SCALE, 3 * SCALE, -4 * SCALE));
}

#[test]
fn vector_scale_div_exact() {
    let a = Vector::new(2 * SCALE, -4 * SCALE, 6 * SCALE);
    // multiplying by one half
    assert_eq!(a.mul(SCALE / 2), Vector::new(SCALE, -2 * SCALE, 3 * SCALE));
    // dividing by two
    assert_eq!(a.div(2 * SCALE), Vector::new(SCALE, -2 * SCALE, 3 * SCALE));
}

#[test]
fn vector_dot_exact() {
    let a = Vector::new(SCALE, 2 * SCALE, 3 * SCALE);
    let b = Vector::new(4 * SCALE, -5 * SCALE, 6 * SCALE);
    // 1*4 - 2*5 + 3*6 = 12
    assert_eq!(a.dot(&b), 12 * SCALE);
}

#[test]
fn vector_lerp_midpoint() {
    // (0, 1, 2) and (2, 1, 0) with an amount of one half give (1, 1, 1)
    let a = Vector::new(0, SCALE, 2 * SCALE);
    let b = Vector::new(2 * SCALE, SCALE, 0);
    assert_eq!(a.lerp(&b, SCALE / 2), Vector::new(SCALE, SCALE, SCALE));
}

#[test]
fn vector_lerp_extrapolates() {
    let a = Vector::new(0, 0, 0);
    let b = Vector::new(SCALE, 0, 0);
    assert_eq!(a.lerp(&b, 2 * SCALE), Vector::new(2 * SCALE, 0, 0));
    assert_eq!(a.lerp(&b, -SCALE), Vector::new(-SCALE, 0, 0));
}

#[test]
fn magnitude_pythagorean_exact() {
    let v = Vector::new(3 * SCALE, 4 * SCALE, 0);
    assert_eq!(v.magnitude(), 5 * SCALE);
}

#[test]
fn normalise_unit_magnitude_within_tolerance() {
    // For non-degenerate vectors the normalised magnitude is one, within
    // fixed-point tolerance.
    let cases = [
        Vector::new(3 * SCALE, 4 * SCALE, 0),
        Vector::new(SCALE, SCALE, SCALE),
        Vector::new(-7 * SCALE, 2 * SCALE, 5 * SCALE),
        Vector::new(123456, -654321, 777),
        Vector::new(99 * SCALE, -SCALE / 3, 7),
    ];
    for v in cases {
        let n = v.normalise();
        let m = n.magnitude();
        assert!((m - SCALE).abs() <= 4, "magnitude {} not within tolerance", m);
    }
}

#[test]
fn normalise_axis_exact() {
    let v = Vector::new(0, 0, 9 * SCALE);
    assert_eq!(v.normalise(), Vector::new(0, 0, SCALE));
}

#[test]
fn normalise_zero_vector_is_zero() {
    let v = Vector::new(0, 0, 0);
    assert_eq!(v.normalise(), Vector::new(0, 0, 0));
}

#[test]
fn colour_clamp_range_and_idempotence() {
    // Every channel of a clamped colour is in [0, SCALE], and clamping twice
    // equals clamping once.
    let cases = [
        Colour::new(-5, 70000, 30000),
        Colour::new(0, SCALE, SCALE + 1),
        Colour::new(-1, -100000, 200000),
        Colour::new(12345, 54321, 65536),
    ];
    for c in cases {
        let once = c.clamp();
        let inner = once.to_inner();
        for ch in inner {
            assert!(0 <= ch && ch <= SCALE);
        }
        assert_eq!(once.clamp(), once);
    }
}

#[test]
fn colour_clamp_exact() {
    let c = Colour::new(-5, 70000, 30000).clamp();
    assert_eq!(c, Colour::new(0, SCALE, 30000));
}

#[test]
fn colour_sum_accumulates_unclamped() {
    let mut c = Colour::new(SCALE, SCALE / 2, 0);
    c.add_assign(&Colour::new(SCALE, SCALE, SCALE));
    assert_eq!(c, Colour::new(2 * SCALE, SCALE + SCALE / 2, SCALE));
}

#[test]
fn colour_products_exact() {
    let a = Colour::new(SCALE / 2, 2 * SCALE, SCALE);
    let b = Colour::new(SCALE, SCALE / 2, 3 * SCALE);
    assert_eq!(a.mul(&b), Colour::new(SCALE / 2, SCALE, 3 * SCALE));
    assert_eq!(a.scale(2 * SCALE), Colour::new(SCALE, 4 * SCALE, 2 * SCALE));
    assert_eq!(a.div(2), Colour::new(SCALE / 4, SCALE, SCALE / 2));
}

#[test]
fn truncating_division_rounds_toward_zero() {
    assert_eq!(tdiv_i128(7, 2), 3);
    assert_eq!(tdiv_i128(-7, 2), -3);
    assert_eq!(tdiv_i128(7, -2), -3);
    assert_eq!(tdiv_i128(-7, -2), 3);
}

#[test]
fn integer_square_root_is_floor() {
    assert_eq!(isqrt_i128(0), 0);
    assert_eq!(isqrt_i128(15), 3);
    assert_eq!(isqrt_i128(16), 4);
    assert_eq!(isqrt_i128(SCALE * SCALE), SCALE);
}

#[test]
fn fixed_point_power_exact() {
    // anything to the zeroth power is one unit, zero included
    assert_eq!(pow_fix(0, 0), SCALE);
    assert_eq!(pow_fix(SCALE, 7), SCALE);
    assert_eq!(pow_fix(SCALE / 2, 2), SCALE / 4);
    assert_eq!(pow_fix(0, 3), 0);
}

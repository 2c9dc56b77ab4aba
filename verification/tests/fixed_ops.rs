//! Exact values of the fixed-point scalar operations.

use particle_physics::fixed::{
    fx_add, fx_clamp, fx_div, fx_div_tz, fx_half, fx_mul, fx_neg, fx_sub, isqrt, mag_u64, FX_MAX,
    FX_MIN, FX_ONE,
};
use particle_physics::trig::{fx_cos, fx_sin, FX_HALF_PI, FX_PI, FX_TWO_PI};
use particle_physics::vec2::{dist, dist_sq, magnitude, Vec2};

#[test]
fn mul_rescales_and_truncates() {
    assert_eq!(fx_mul(3_000, 2_000), 6_000);
    assert_eq!(fx_mul(-3_000, 2_000), -6_000);
    assert_eq!(fx_mul(3_000, -2_000), -6_000);
    assert_eq!(fx_mul(-3_000, -2_000), 6_000);
    assert_eq!(fx_mul(1, 1), 0);
    assert_eq!(fx_mul(1_500, 1_500), 2_250);
    assert_eq!(fx_mul(-1, 999), 0);
}

#[test]
fn div_rescales_and_truncates() {
    assert_eq!(fx_div(1_000, 3_000), 333);
    assert_eq!(fx_div(-1_000, 3_000), -333);
    assert_eq!(fx_div(1_000, -3_000), -333);
    assert_eq!(fx_div(6_000, 2_000), 3_000);
}

#[test]
fn plain_division_truncates_toward_zero() {
    assert_eq!(fx_div_tz(7, 2), 3);
    assert_eq!(fx_div_tz(-7, 2), -3);
    assert_eq!(fx_div_tz(100_000, 10), 10_000);
    assert_eq!(fx_half(-5), -2);
    assert_eq!(fx_half(5), 2);
}

#[test]
fn add_and_sub_saturate() {
    assert_eq!(fx_add(FX_MAX, 1), FX_MAX);
    assert_eq!(fx_add(FX_MIN, -1), FX_MIN);
    assert_eq!(fx_sub(FX_MIN, 1), FX_MIN);
    assert_eq!(fx_add(2, 3), 5);
    assert_eq!(fx_neg(FX_MIN), FX_MAX);
    assert_eq!(fx_mul(FX_MAX, FX_MAX), FX_MAX);
}

#[test]
fn clamp_takes_minimum_first() {
    assert_eq!(fx_clamp(5, 0, 10), 5);
    assert_eq!(fx_clamp(-5, 0, 10), 0);
    assert_eq!(fx_clamp(15, 0, 10), 10);
    // With an inverted band the lower bound wins, as the integrator's
    // max-after-min order dictates.
    assert_eq!(fx_clamp(5, 20, 10), 20);
}

#[test]
fn isqrt_exact_values() {
    assert_eq!(isqrt(0), 0);
    assert_eq!(isqrt(1), 1);
    assert_eq!(isqrt(2), 1);
    assert_eq!(isqrt(3), 1);
    assert_eq!(isqrt(4), 2);
    assert_eq!(isqrt(999_999), 999);
    assert_eq!(isqrt(1_000_000), 1_000);
    assert_eq!(isqrt(u128::MAX), u64::MAX);
    assert_eq!(isqrt(10_000_000_000_000_000_000_000_000), 3_162_277_660_168);
}

#[test]
fn magnitudes() {
    assert_eq!(mag_u64(-5), 5);
    assert_eq!(mag_u64(i64::MIN), 1u64 << 63);
    assert_eq!(dist_sq(Vec2 { x: 0, y: 0 }, Vec2 { x: 3_000, y: 4_000 }), 25_000_000);
    assert_eq!(dist(Vec2 { x: 0, y: 0 }, Vec2 { x: 3_000, y: 4_000 }), 5_000);
    assert_eq!(magnitude(Vec2 { x: -3_000, y: 4_000 }), 5_000);
    // Rounded down: sqrt(2) in fixed point.
    assert_eq!(dist(Vec2 { x: 0, y: 0 }, Vec2 { x: 1_000, y: 1_000 }), 1_414);
}

#[test]
fn sine_and_cosine_key_angles() {
    assert_eq!(fx_sin(0), 0);
    assert_eq!(fx_sin(FX_HALF_PI), FX_ONE);
    assert_eq!(fx_sin(FX_PI), 0);
    assert_eq!(fx_sin(FX_PI + FX_HALF_PI), -FX_ONE);
    assert_eq!(fx_sin(FX_TWO_PI), 0);
    assert_eq!(fx_cos(0), FX_ONE);
    assert_eq!(fx_cos(FX_PI), -FX_ONE);
    // The Bhaskara kernel stays within the unit band.
    let mut t: i64 = 0;
    while t <= FX_TWO_PI {
        let s = fx_sin(t);
        let c = fx_cos(t);
        assert!(-FX_ONE <= s && s <= FX_ONE);
        assert!(-FX_ONE <= c && c <= FX_ONE);
        t += 7;
    }
}

#[test]
fn vector_ops_componentwise() {
    let a = Vec2 { x: 1_000, y: 2_000 };
    let b = Vec2 { x: 300, y: -500 };
    assert_eq!(a.plus(b), Vec2 { x: 1_300, y: 1_500 });
    assert_eq!(a.minus(b), Vec2 { x: 700, y: 2_500 });
    assert_eq!(a.scale(500), Vec2 { x: 500, y: 1_000 });
}

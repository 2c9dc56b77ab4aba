//! Two-dimensional fixed-point vectors: the value type for positions,
//! velocities and accelerations.

use vstd::prelude::*;

use crate::fixed::{
    fmul, fx_add, fx_mul, fx_ok, fx_sub, isqrt, lemma_mag_mul, mag, mag_u64, sat, sqrt_floor,
};

verus! {

#[derive(Clone, Copy, PartialEq, Eq, Structural, Debug)]
pub struct Vec2 {
    pub x: i64,
    pub y: i64,
}

/// Squared distance between two points, exact (never saturated).
pub open spec fn dsq(a: Vec2, b: Vec2) -> int {
    (a.x - b.x) * (a.x - b.x) + (a.y - b.y) * (a.y - b.y)
}

/// Distance between two points: the integer square root of `dsq`.
pub open spec fn dist_sp(a: Vec2, b: Vec2) -> int {
    sqrt_floor(dsq(a, b) as nat) as int
}

impl Vec2 {
    /// Both components lie in the representable band.
    pub open spec fn ok(self) -> bool {
        fx_ok(self.x) && fx_ok(self.y)
    }

    pub fn new(x: i64, y: i64) -> (r: Vec2)
        ensures
            r == (Vec2 { x, y }),
    {
        Vec2 { x, y }
    }

    pub fn zero() -> (r: Vec2)
        ensures
            r == (Vec2 { x: 0i64, y: 0i64 }),
    {
        Vec2 { x: 0, y: 0 }
    }

    /// Componentwise saturating sum.
    pub fn plus(self, o: Vec2) -> (r: Vec2)
        ensures
            r.x == sat(self.x + o.x),
            r.y == sat(self.y + o.y),
            r.ok(),
    {
        Vec2 { x: fx_add(self.x, o.x), y: fx_add(self.y, o.y) }
    }

    /// Componentwise saturating difference.
    pub fn minus(self, o: Vec2) -> (r: Vec2)
        ensures
            r.x == sat(self.x - o.x),
            r.y == sat(self.y - o.y),
            r.ok(),
    {
        Vec2 { x: fx_sub(self.x, o.x), y: fx_sub(self.y, o.y) }
    }

    /// Componentwise fixed-point scaling.
    pub fn scale(self, k: i64) -> (r: Vec2)
        ensures
            r.x == fmul(self.x as int, k as int),
            r.y == fmul(self.y as int, k as int),
            r.ok(),
    {
        Vec2 { x: fx_mul(self.x, k), y: fx_mul(self.y, k) }
    }
}

/// A squared distance is never negative, and between in-band points it is
/// at most `8 * 10^24`.
pub proof fn lemma_dsq_bounds(a: Vec2, b: Vec2)
    requires
        a.ok(),
        b.ok(),
    ensures
        0 <= dsq(a, b) <= 8_000_000_000_000_000_000_000_000,
{
    let dx = a.x - b.x;
    let dy = a.y - b.y;
    assert(0 <= dx * dx <= 4_000_000_000_000_000_000_000_000) by (nonlinear_arith)
        requires
            -2_000_000_000_000 <= dx <= 2_000_000_000_000,
    ;
    assert(0 <= dy * dy <= 4_000_000_000_000_000_000_000_000) by (nonlinear_arith)
        requires
            -2_000_000_000_000 <= dy <= 2_000_000_000_000,
    ;
}

/// Exact squared distance between two in-band points.
pub fn dist_sq(a: Vec2, b: Vec2) -> (r: u128)
    requires
        a.ok(),
        b.ok(),
    ensures
        r == dsq(a, b),
        r <= 8_000_000_000_000_000_000_000_000,
{
    let dx: i64 = a.x - b.x;
    let dy: i64 = a.y - b.y;
    let mx: u128 = mag_u64(dx) as u128;
    let my: u128 = mag_u64(dy) as u128;
    proof {
        lemma_mag_mul(dx as int, dx as int);
        lemma_mag_mul(dy as int, dy as int);
        assert(dx * dx >= 0 && dy * dy >= 0) by (nonlinear_arith);
        assert(mx * mx == dx * dx && mx * mx <= 4_000_000_000_000_000_000_000_000)
            by (nonlinear_arith)
            requires
                mx == mag(dx as int),
                mag(dx as int) * mag(dx as int) == mag(dx as int * dx as int),
                dx * dx >= 0,
                mx <= 2_000_000_000_000,
        ;
        assert(my * my == dy * dy && my * my <= 4_000_000_000_000_000_000_000_000)
            by (nonlinear_arith)
            requires
                my == mag(dy as int),
                mag(dy as int) * mag(dy as int) == mag(dy as int * dy as int),
                dy * dy >= 0,
                my <= 2_000_000_000_000,
        ;
    }
    mx * mx + my * my
}

/// Distance between two in-band points, rounded down.
pub fn dist(a: Vec2, b: Vec2) -> (r: i64)
    requires
        a.ok(),
        b.ok(),
    ensures
        r == dist_sp(a, b),
        0 <= r <= 3_000_000_000_000,
        r * r <= dsq(a, b),
        dsq(a, b) < (r + 1) * (r + 1),
{
    let n: u128 = dist_sq(a, b);
    let s: u64 = isqrt(n);
    proof {
        assert(s <= 3_000_000_000_000u64) by (nonlinear_arith)
            requires
                s * s <= 8_000_000_000_000_000_000_000_000,
        ;
    }
    s as i64
}

/// Length of a vector: its distance from the origin.
pub fn magnitude(v: Vec2) -> (r: i64)
    requires
        v.ok(),
    ensures
        r == dist_sp(v, Vec2 { x: 0i64, y: 0i64 }),
        0 <= r <= 3_000_000_000_000,
{
    dist(v, Vec2 { x: 0, y: 0 })
}

} // verus!

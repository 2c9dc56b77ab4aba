//! Fixed-point sine and cosine on one turn, used only to place the bodies
//! of ring-shaped composites.  The half-turn kernel is Bhaskara's rational
//! approximation `sin t = 16 t (pi - t) / (5 pi^2 - 4 t (pi - t))`, which
//! in this representation is exact at 0, pi/2 and pi and stays within the
//! unit band everywhere.

use vstd::prelude::*;
use vstd::arithmetic::div_mod::{lemma_div_by_multiple, lemma_div_is_ordered};

use crate::fixed::FX_ONE;

verus! {

/// Half a turn, in raw ticks (pi rounded to thousandths).
pub const FX_PI: i64 = 3142;

/// A full turn.
pub const FX_TWO_PI: i64 = 6284;

/// A quarter turn.
pub const FX_HALF_PI: i64 = 1571;

/// Bhaskara's kernel on `[0, FX_PI]`.
pub open spec fn sin_half_sp(t: int) -> int {
    let u = t * (FX_PI - t);
    (16 * u * FX_ONE) / (5 * FX_PI * FX_PI - 4 * u)
}

/// Sine over a full turn: the kernel on the first half, its negation on
/// the second.
pub open spec fn sin_sp(t: int) -> int {
    if t <= FX_PI {
        sin_half_sp(t)
    } else {
        -sin_half_sp(t - FX_PI)
    }
}

/// Cosine as sine shifted a quarter turn, wrapped back into the turn.
pub open spec fn cos_sp(t: int) -> int {
    let s = t + FX_HALF_PI;
    if s <= FX_TWO_PI {
        sin_sp(s)
    } else {
        sin_sp(s - FX_TWO_PI)
    }
}

fn sin_half(t: i64) -> (r: i64)
    requires
        0 <= t <= FX_PI,
    ensures
        r == sin_half_sp(t as int),
        0 <= r <= FX_ONE,
{
    proof {
        assert(0 <= (t as int) * (3142 - t) <= 2_468_041) by (nonlinear_arith)
            requires
                0 <= t as int <= 3142,
        ;
    }
    let u: i64 = t * (FX_PI - t);
    let num: u64 = 16 * (u as u64) * 1000;
    let den: u64 = (5 * FX_PI * FX_PI - 4 * u) as u64;
    let q: u64 = num / den;
    proof {
        assert(num <= 1000 * den);
        lemma_div_is_ordered(num as int, 1000 * den, den as int);
        lemma_div_by_multiple(1000, den as int);
        assert((1000 * (den as int)) / (den as int) == 1000);
    }
    q as i64
}

/// Fixed-point sine of an angle within one turn.
pub fn fx_sin(t: i64) -> (r: i64)
    requires
        0 <= t <= FX_TWO_PI,
    ensures
        r == sin_sp(t as int),
        -FX_ONE <= r <= FX_ONE,
{
    if t <= FX_PI {
        sin_half(t)
    } else {
        -sin_half(t - FX_PI)
    }
}

/// Fixed-point cosine of an angle within one turn.
pub fn fx_cos(t: i64) -> (r: i64)
    requires
        0 <= t <= FX_TWO_PI,
    ensures
        r == cos_sp(t as int),
        -FX_ONE <= r <= FX_ONE,
{
    let s: i64 = t + FX_HALF_PI;
    if s <= FX_TWO_PI {
        fx_sin(s)
    } else {
        fx_sin(s - FX_TWO_PI)
    }
}

} // verus!

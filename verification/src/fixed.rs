//! Saturating fixed-point scalars.
//!
//! Every physical quantity in the simulation (positions, velocities,
//! accelerations, radii, tunables, elapsed time) is a fixed-point number:
//! an `i64` counting thousandths of a unit.  Multiplication and division
//! rescale by `FX_ONE` and truncate toward zero, as hardware division
//! does; results saturate at `FX_MIN`/`FX_MAX` so that every operation is
//! total and overflow-free.

use vstd::prelude::*;

verus! {

/// One spatial unit in raw ticks: raw values count thousandths of a unit.
pub const FX_ONE: i64 = 1000;

/// Largest raw value a stored quantity may take; arithmetic saturates here.
pub const FX_MAX: i64 = 1_000_000_000_000;

/// Smallest raw value; the negative of `FX_MAX`, so saturation is symmetric.
pub const FX_MIN: i64 = -1_000_000_000_000;

/// A raw value the simulation is allowed to store.
pub open spec fn fx_ok(a: i64) -> bool {
    FX_MIN <= a <= FX_MAX
}

/// Clip an unbounded integer into the representable band.
pub open spec fn sat(a: int) -> int {
    if a > FX_MAX {
        FX_MAX as int
    } else if a < FX_MIN {
        FX_MIN as int
    } else {
        a
    }
}

/// Magnitude of an integer.
pub open spec fn mag(a: int) -> int {
    if a >= 0 {
        a
    } else {
        -a
    }
}

/// Division truncating toward zero, as the hardware divides.
pub open spec fn div_tz(a: int, b: int) -> int {
    let q = mag(a) / mag(b);
    if (a >= 0) == (b >= 0) {
        q
    } else {
        -q
    }
}

/// Fixed-point product: rescale by `FX_ONE`, truncate, saturate.
pub open spec fn fmul(a: int, b: int) -> int {
    sat(div_tz(a * b, FX_ONE as int))
}

/// Fixed-point quotient: rescale by `FX_ONE`, truncate, saturate.
pub open spec fn fdiv(a: int, b: int) -> int {
    sat(div_tz(a * (FX_ONE as int), b))
}

/// Clamp `v` into `[lo, hi]`, taking the minimum against `hi` first, so a
/// band with `hi < lo` resolves to `lo`.
pub open spec fn clamp_sp(v: int, lo: int, hi: int) -> int {
    let m = if v <= hi {
        v
    } else {
        hi
    };
    if m >= lo {
        m
    } else {
        lo
    }
}

/// The magnitude of a product is the product of the magnitudes.
pub proof fn lemma_mag_mul(a: int, b: int)
    ensures
        mag(a * b) == mag(a) * mag(b),
{
    if a >= 0 && b >= 0 {
        assert(a * b >= 0) by (nonlinear_arith)
            requires
                a >= 0,
                b >= 0,
        ;
    } else if a >= 0 && b < 0 {
        assert(a * b <= 0 && a * (-b) == -(a * b)) by (nonlinear_arith)
            requires
                a >= 0,
                b < 0,
        ;
    } else if a < 0 && b >= 0 {
        assert(a * b <= 0 && (-a) * b == -(a * b)) by (nonlinear_arith)
            requires
                a < 0,
                b >= 0,
        ;
    } else {
        assert(a * b >= 0 && (-a) * (-b) == a * b) by (nonlinear_arith)
            requires
                a < 0,
                b < 0,
        ;
    }
}

/// Truncating division never grows a magnitude.
pub proof fn lemma_div_tz_mag(a: int, b: int)
    requires
        b != 0,
    ensures
        mag(div_tz(a, b)) <= mag(a),
{
    vstd::arithmetic::div_mod::lemma_div_pos_is_pos(mag(a), mag(b));
    vstd::arithmetic::div_mod::lemma_div_nonincreasing(mag(a), mag(b));
}

/// Truncating division is odd in its dividend.
pub proof fn lemma_div_tz_neg(a: int, b: int)
    requires
        b != 0,
    ensures
        div_tz(-a, b) == -div_tz(a, b),
{
    assert(mag(-a) == mag(a));
    if a == 0 {
        vstd::arithmetic::div_mod::lemma_div_of0(mag(b));
    }
}

/// The rounded-down square root of a perfect square is exact.
pub proof fn lemma_sqrt_of_square(a: int)
    ensures
        sqrt_floor((a * a) as nat) == mag(a),
{
    lemma_mag_mul(a, a);
    assert(a * a >= 0) by (nonlinear_arith);
    let m = mag(a);
    assert(m * m == a * a);
    assert((m + 1) * (m + 1) > m * m) by (nonlinear_arith)
        requires
            m >= 0,
    ;
    lemma_sqrt_floor_unique((a * a) as nat, m as nat);
}

/// Magnitude of an `i64`, widened to `u64`.
pub fn mag_u64(a: i64) -> (r: u64)
    ensures
        r == mag(a as int),
{
    if a >= 0 {
        a as u64
    } else {
        let w: i128 = -(a as i128);
        w as u64
    }
}

/// Saturate a magnitude-and-sign pair back into an `i64`.
fn sat_from_mag(m: u128, neg: bool) -> (r: i64)
    ensures
        r == sat(
            if neg {
                -(m as int)
            } else {
                m as int
            },
        ),
{
    if neg {
        if m > 1_000_000_000_000u128 {
            FX_MIN
        } else {
            -(m as i64)
        }
    } else {
        if m > 1_000_000_000_000u128 {
            FX_MAX
        } else {
            m as i64
        }
    }
}

/// Clip an `i128` into the representable band.
pub fn sat_i128(s: i128) -> (r: i64)
    ensures
        r == sat(s as int),
        fx_ok(r),
{
    if s > FX_MAX as i128 {
        FX_MAX
    } else if s < FX_MIN as i128 {
        FX_MIN
    } else {
        s as i64
    }
}

/// Saturating sum.
pub fn fx_add(a: i64, b: i64) -> (r: i64)
    ensures
        r == sat(a + b),
        fx_ok(r),
{
    let s: i128 = a as i128 + b as i128;
    if s > FX_MAX as i128 {
        FX_MAX
    } else if s < FX_MIN as i128 {
        FX_MIN
    } else {
        s as i64
    }
}

/// Saturating difference.
pub fn fx_sub(a: i64, b: i64) -> (r: i64)
    ensures
        r == sat(a - b),
        fx_ok(r),
{
    let s: i128 = a as i128 - b as i128;
    if s > FX_MAX as i128 {
        FX_MAX
    } else if s < FX_MIN as i128 {
        FX_MIN
    } else {
        s as i64
    }
}

/// Saturating negation.
pub fn fx_neg(a: i64) -> (r: i64)
    ensures
        r == sat(-(a as int)),
        fx_ok(r),
{
    let s: i128 = -(a as i128);
    if s > FX_MAX as i128 {
        FX_MAX
    } else if s < FX_MIN as i128 {
        FX_MIN
    } else {
        s as i64
    }
}

/// Halve, truncating toward zero.
pub fn fx_half(a: i64) -> (r: i64)
    ensures
        r == div_tz(a as int, 2),
{
    if a >= 0 {
        ((a as u64) / 2) as i64
    } else {
        let m: u128 = (-(a as i128)) as u128;
        let h: u128 = m / 2;
        -(h as i64)
    }
}

/// Plain truncating division of two raw values (no rescaling), as used to
/// split a fixed-point quantity into a whole number of parts.
pub fn fx_div_tz(a: i64, b: i64) -> (r: i64)
    requires
        b != 0,
        a != i64::MIN,
    ensures
        r == div_tz(a as int, b as int),
        mag(r as int) <= mag(a as int),
{
    let neg: bool = (a < 0) != (b < 0);
    let ma: u64 = mag_u64(a);
    let mb: u64 = mag_u64(b);
    let m: u64 = ma / mb;
    if neg {
        -(m as i64)
    } else {
        m as i64
    }
}

/// Fixed-point multiplication with saturation.
pub fn fx_mul(a: i64, b: i64) -> (r: i64)
    ensures
        r == fmul(a as int, b as int),
        fx_ok(r),
{
    let neg: bool = (a < 0) != (b < 0);
    let ma: u128 = mag_u64(a) as u128;
    let mb: u128 = mag_u64(b) as u128;
    proof {
        lemma_mag_mul(a as int, b as int);
        assert(ma * mb == mag(a as int * b as int)) by (nonlinear_arith)
            requires
                ma == mag(a as int),
                mb == mag(b as int),
                mag(a as int) * mag(b as int) == mag(a as int * b as int),
        ;
        assert(ma * mb <= 0x8000_0000_0000_0000u128 * 0x8000_0000_0000_0000u128)
            by (nonlinear_arith)
            requires
                ma <= 0x8000_0000_0000_0000u128,
                mb <= 0x8000_0000_0000_0000u128,
        ;
    }
    let m: u128 = (ma * mb) / 1000;
    proof {
        let p = (a as int) * (b as int);
        if a >= 0 && b >= 0 {
            assert(p >= 0) by (nonlinear_arith)
                requires
                    a >= 0,
                    b >= 0,
                    p == (a as int) * (b as int),
            ;
        } else if a < 0 && b < 0 {
            assert(p >= 0) by (nonlinear_arith)
                requires
                    a < 0,
                    b < 0,
                    p == (a as int) * (b as int),
            ;
        } else {
            assert(p <= 0) by (nonlinear_arith)
                requires
                    (a < 0) != (b < 0),
                    p == (a as int) * (b as int),
            ;
        }
        if neg {
            if m == 0 {
                assert(div_tz(p, 1000) == 0);
            } else {
                assert(mag(p) >= 1000);
                assert(p < 0);
                assert(div_tz(p, 1000) == -(m as int));
            }
        } else {
            assert(p >= 0);
            assert(div_tz(p, 1000) == m as int);
        }
    }
    sat_from_mag(m, neg)
}

/// Fixed-point division with saturation; the divisor must be nonzero.
pub fn fx_div(a: i64, b: i64) -> (r: i64)
    requires
        b != 0,
    ensures
        r == fdiv(a as int, b as int),
        fx_ok(r),
{
    let neg: bool = (a < 0) != (b < 0);
    let ma: u128 = (mag_u64(a) as u128) * 1000;
    let mb: u128 = mag_u64(b) as u128;
    proof {
        lemma_mag_mul(a as int, 1000);
        assert(mag(a as int * 1000) == mag(a as int) * 1000);
    }
    let m: u128 = ma / mb;
    proof {
        let p = (a as int) * 1000;
        assert((p >= 0) == (a >= 0));
        assert(mag(b as int) > 0);
        if neg {
            assert(div_tz(p, b as int) == -(m as int));
        } else {
            assert(div_tz(p, b as int) == m as int);
        }
    }
    sat_from_mag(m, neg)
}

/// Clamp into `[lo, hi]`, minimum first, as the integrator clamps positions.
pub fn fx_clamp(v: i64, lo: i64, hi: i64) -> (r: i64)
    ensures
        r == clamp_sp(v as int, lo as int, hi as int),
{
    let m: i64 = if v <= hi {
        v
    } else {
        hi
    };
    if m >= lo {
        m
    } else {
        lo
    }
}

/// Integer square root, rounded down.
pub open spec fn sqrt_floor(n: nat) -> nat
    decreases n,
{
    if n < 1 {
        0
    } else {
        let r = 2 * sqrt_floor((n / 4) as nat);
        if (r + 1) * (r + 1) <= n {
            (r + 1) as nat
        } else {
            r
        }
    }
}

/// `sqrt_floor(n)` is the unique `r` with `r * r <= n < (r + 1) * (r + 1)`.
pub proof fn lemma_sqrt_floor_bounds(n: nat)
    ensures
        sqrt_floor(n) * sqrt_floor(n) <= n,
        n < (sqrt_floor(n) + 1) * (sqrt_floor(n) + 1),
    decreases n,
{
    if n < 1 {
        assert(sqrt_floor(n) == 0);
        assert(n == 0);
        assert(sqrt_floor(n) + 1 == 1);
        assert((sqrt_floor(n) + 1) * (sqrt_floor(n) + 1) == 1 * 1);
    } else {
        let q = (n / 4) as nat;
        lemma_sqrt_floor_bounds(q);
        let r0 = sqrt_floor(q);
        let r = 2 * r0;
        assert(4 * q <= n < 4 * q + 4);
        assert(r * r == 4 * (r0 * r0)) by (nonlinear_arith)
            requires
                r == 2 * r0,
        ;
        assert(4 * (r0 * r0) <= 4 * q) by (nonlinear_arith)
            requires
                r0 * r0 <= q,
        ;
        assert((r + 2) * (r + 2) == 4 * ((r0 + 1) * (r0 + 1))) by (nonlinear_arith)
            requires
                r == 2 * r0,
        ;
        assert(4 * q + 4 <= 4 * ((r0 + 1) * (r0 + 1))) by (nonlinear_arith)
            requires
                q + 1 <= (r0 + 1) * (r0 + 1),
        ;
        if (r + 1) * (r + 1) <= n {
            assert(sqrt_floor(n) == r + 1);
            assert(n < (r + 2) * (r + 2));
            assert(sqrt_floor(n) + 1 == r + 2);
            assert((sqrt_floor(n) + 1) * (sqrt_floor(n) + 1) == (r + 2) * (r + 2));
        } else {
            assert(sqrt_floor(n) == r);
            assert(n < (r + 1) * (r + 1));
            assert((sqrt_floor(n) + 1) * (sqrt_floor(n) + 1) == (r + 1) * (r + 1));
        }
    }
}

/// Any `r` bracketing `n` between consecutive squares is `sqrt_floor(n)`.
pub proof fn lemma_sqrt_floor_unique(n: nat, r: nat)
    requires
        r * r <= n,
        n < (r + 1) * (r + 1),
    ensures
        r == sqrt_floor(n),
{
    let s = sqrt_floor(n);
    lemma_sqrt_floor_bounds(n);
    if r < s {
        assert((r + 1) * (r + 1) <= s * s) by (nonlinear_arith)
            requires
                r + 1 <= s,
        ;
    } else if s < r {
        assert((s + 1) * (s + 1) <= r * r) by (nonlinear_arith)
            requires
                s + 1 <= r,
        ;
    }
}

/// Integer square root of a `u128`, by bisection on the answer.
pub fn isqrt(n: u128) -> (r: u64)
    ensures
        r == sqrt_floor(n as nat),
        r * r <= n,
        n < (r + 1) * (r + 1),
{
    proof {
        lemma_sqrt_floor_bounds(n as nat);
    }
    if n == 0 {
        return 0;
    }
    let mut lo: u128 = 0;
    let mut hi: u128 = 0x1_0000_0000_0000_0000;
    proof {
        assert((0x1_0000_0000_0000_0000 as int) * (0x1_0000_0000_0000_0000 as int)
            == 0x1_0000_0000_0000_0000_0000_0000_0000_0000 as int) by (nonlinear_arith);
    }
    while hi - lo > 1
        invariant
            lo < hi <= 0x1_0000_0000_0000_0000u128,
            lo * lo <= n,
            n < hi * hi,
        decreases hi - lo,
    {
        let mid: u128 = lo + (hi - lo) / 2;
        assert(lo < mid < hi);
        assert(mid * mid < 0x1_0000_0000_0000_0000_0000_0000_0000_0000int) by (nonlinear_arith)
            requires
                mid < 0x1_0000_0000_0000_0000u128,
        ;
        if mid * mid <= n {
            lo = mid;
        } else {
            hi = mid;
        }
    }
    assert(hi == lo + 1);
    proof {
        lemma_sqrt_floor_unique(n as nat, lo as nat);
    }
    lo as u64
}

} // verus!

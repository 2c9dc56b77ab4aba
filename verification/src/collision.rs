//! Narrow-phase collision response: positional separation plus velocity
//! projection onto the contact normal, with a bounded random jitter when
//! the two centers are too close for a stable normal.

use vstd::prelude::*;
use vstd::pervasive::VecAdditionalExecFns;

use crate::body::Body;
use crate::fixed::{div_tz, fdiv, fmul, fx_add, fx_div, fx_half, fx_mul, fx_sub, sat, FX_ONE};
use crate::vec2::{dist, dsq, Vec2};

verus! {

/// Relies on rand::random: a value drawn from the thread-local generator.
/// Nothing can be promised of it; callers state what holds of any value.
/// The draw aborts the process if the operating system's entropy source
/// is unavailable — an environmental failure outside these contracts.
pub assume_specification<T>[ rand::random::<T> ]() -> (r: T)
    where
        rand::distributions::Standard: rand::distributions::Distribution<T>,
;

/// One uniform-ish fixed-point offset in `[-1, 1]`: a random draw folded
/// into the band of one unit on either side of zero.
pub fn random_unit_fx() -> (r: i64)
    ensures
        -FX_ONE <= r <= FX_ONE,
{
    let x: u64 = rand::random::<u64>();
    let m: u64 = x % 2001;
    (m as i64) - 1000
}

/// The deterministic part of a pair resolution, for centers at least one
/// unit apart: each body moves half the overlap along the separating axis,
/// keeps only the velocity component along its outward contact normal, and
/// has its acceleration cleared.
pub open spec fn separate_sp(b1: Body, b2: Body) -> (Body, Body) {
    let dx = b1.pos.x - b2.pos.x;
    let dy = b1.pos.y - b2.pos.y;
    let d = crate::fixed::sqrt_floor(dsq(b1.pos, b2.pos) as nat) as int;
    let overlap = b1.radius + b2.radius - d;
    let ratio = fdiv(overlap, d);
    let sx = div_tz(fmul(dx, ratio), 2);
    let sy = div_tz(fmul(dy, ratio), 2);
    let nx = fdiv(dx, d);
    let ny = fdiv(dy, d);
    let dp1 = sat(fmul(b1.vel.x as int, nx) + fmul(b1.vel.y as int, ny));
    let nx2 = fdiv(-dx, d);
    let ny2 = fdiv(-dy, d);
    let dp2 = sat(fmul(b2.vel.x as int, nx2) + fmul(b2.vel.y as int, ny2));
    (
        Body {
            radius: b1.radius,
            pos: Vec2 { x: sat(b1.pos.x + sx) as i64, y: sat(b1.pos.y + sy) as i64 },
            vel: Vec2 { x: fmul(dp1, nx) as i64, y: fmul(dp1, ny) as i64 },
            acc: Vec2 { x: 0i64, y: 0i64 },
            color: b1.color,
            is_dragged: b1.is_dragged,
        },
        Body {
            radius: b2.radius,
            pos: Vec2 { x: sat(b2.pos.x - sx) as i64, y: sat(b2.pos.y - sy) as i64 },
            vel: Vec2 { x: fmul(dp2, nx2) as i64, y: fmul(dp2, ny2) as i64 },
            acc: Vec2 { x: 0i64, y: 0i64 },
            color: b2.color,
            is_dragged: b2.is_dragged,
        },
    )
}

/// The design identity behind the positional correction of `separate_sp`:
/// scaling a separating vector of length `d` by `rsum / d` gives a vector
/// of length exactly `rsum` — stated in squared, division-free form, so
/// the post-correction center distance is the radius sum up to the
/// fixed-point rounding of the executable path.
pub proof fn lemma_separation_exact(dx: int, dy: int, d: int, rsum: int)
    requires
        dx * dx + dy * dy == d * d,
    ensures
        (dx * rsum) * (dx * rsum) + (dy * rsum) * (dy * rsum) == (d * rsum) * (d * rsum),
{
    assert((dx * rsum) * (dx * rsum) + (dy * rsum) * (dy * rsum) == (d * rsum) * (d * rsum))
        by (nonlinear_arith)
        requires
            dx * dx + dy * dy == d * d,
    ;
}

/// After resolution each velocity is the projection `(p nx, p ny)` of the
/// old velocity onto the contact normal `(nx, ny)`: its cross product
/// with the normal vanishes, so no tangential component survives.
pub proof fn lemma_projection_parallel(p: int, nx: int, ny: int)
    ensures
        (p * nx) * ny - (p * ny) * nx == 0,
{
    assert((p * nx) * ny - (p * ny) * nx == 0) by (nonlinear_arith);
}

/// The rounding of the one-dimensional correction chain: dividing the
/// overlap by the distance, rescaling by the separation and halving, each
/// truncating, still lands the corrected distance `d + 2 s` in
/// `(rsum - d/1000 - 2, rsum]`.
proof fn lemma_correction_chain(d: int, rsum: int)
    requires
        1000 <= d <= rsum,
        rsum <= 1_000_000_000,
    ensures
        ({
            let q = div_tz((rsum - d) * 1000, d);
            let h = div_tz(d * q, 1000);
            let s = div_tz(h, 2);
            &&& 0 <= q <= rsum - d
            &&& 0 <= h <= rsum - d
            &&& 0 <= s
            &&& d + 2 * s <= rsum
            &&& 1000 * (d + 2 * s) >= 1000 * rsum - d - 1998
        }),
{
    let o = rsum - d;
    let a = o * 1000;
    assert(0 <= a <= 1_000_000_000_000);
    let q = div_tz(a, d);
    assert(q == a / d);
    vstd::arithmetic::div_mod::lemma_div_pos_is_pos(a, d);
    vstd::arithmetic::div_mod::lemma_fundamental_div_mod(a, d);
    vstd::arithmetic::div_mod::lemma_mod_bound(a, d);
    assert(d * q <= a);
    assert(a < d * q + d);
    vstd::arithmetic::div_mod::lemma_div_is_ordered_by_denominator(a, 1000, d);
    vstd::arithmetic::div_mod::lemma_div_by_multiple(o, 1000);
    assert(a / 1000 == o);
    assert(q <= o);
    let b = d * q;
    assert(b >= 0) by (nonlinear_arith)
        requires
            b == d * q,
            d >= 0,
            q >= 0,
    ;
    let h = div_tz(b, 1000);
    assert(h == b / 1000);
    vstd::arithmetic::div_mod::lemma_div_pos_is_pos(b, 1000);
    vstd::arithmetic::div_mod::lemma_fundamental_div_mod(b, 1000);
    vstd::arithmetic::div_mod::lemma_mod_bound(b, 1000);
    assert(1000 * h <= b);
    assert(b < 1000 * h + 1000);
    vstd::arithmetic::div_mod::lemma_div_is_ordered(b, a, 1000);
    assert(h <= o);
    let s = div_tz(h, 2);
    assert(s == h / 2);
    vstd::arithmetic::div_mod::lemma_div_pos_is_pos(h, 2);
    vstd::arithmetic::div_mod::lemma_fundamental_div_mod(h, 2);
    vstd::arithmetic::div_mod::lemma_mod_bound(h, 2);
    assert(2 * s <= h);
    assert(h <= 2 * s + 1);
    // Collect the interval: 1000 (d + 2 s) lies within [1000 rsum - d - 1998, 1000 rsum].
    assert(1000 * (2 * s) <= 1000 * h && 1000 * h <= 1000 * (2 * s) + 1000) by (nonlinear_arith)
        requires
            2 * s <= h <= 2 * s + 1,
    ;
    assert(d + 2 * s <= rsum) by (nonlinear_arith)
        requires
            1000 * (2 * s) <= 1000 * h,
            1000 * h <= d * q,
            d * q <= (rsum - d) * 1000,
    ;
    assert(1000 * (d + 2 * s) >= 1000 * rsum - d - 1998) by (nonlinear_arith)
        requires
            1000 * h <= 1000 * (2 * s) + 1000,
            d * q < 1000 * h + 1000,
            (rsum - d) * 1000 < d * q + d,
    ;
}

/// The quantization bound behind the positional half of the resolution,
/// proved for a horizontal contact (equal centers on the vertical axis):
/// after `separate_sp` the center distance lies within
/// `rsum / 1000 + 2` below the radius sum `rsum`, and never beyond it.
pub proof fn lemma_horizontal_separation_tolerance(b1: Body, b2: Body)
    requires
        b1.ok(),
        b2.ok(),
        b1.pos.y == b2.pos.y,
        dsq(b1.pos, b2.pos) >= FX_ONE * FX_ONE,
        crate::body::touching(b1, b2),
        b1.radius + b2.radius <= 1_000_000_000,
        -500_000_000 <= b1.pos.x <= 500_000_000,
        -500_000_000 <= b2.pos.x <= 500_000_000,
    ensures
        ({
            let p = separate_sp(b1, b2);
            let rsum = b1.radius + b2.radius;
            let dnew = crate::vec2::dist_sp(p.0.pos, p.1.pos);
            &&& p.0.pos.y == b1.pos.y
            &&& p.1.pos.y == b2.pos.y
            &&& dnew <= rsum
            &&& 1000 * dnew >= 1000 * rsum - rsum - 2998
        }),
{
    let dx = b1.pos.x - b2.pos.x;
    let m = crate::fixed::mag(dx);
    let rsum = b1.radius + b2.radius;
    assert(dsq(b1.pos, b2.pos) == dx * dx);
    crate::fixed::lemma_sqrt_of_square(dx);
    crate::fixed::lemma_mag_mul(dx, dx);
    assert(dx * dx >= 0) by (nonlinear_arith);
    assert(m * m == dx * dx);
    let d = crate::fixed::sqrt_floor(dsq(b1.pos, b2.pos) as nat) as int;
    assert(d == m);
    assert(m >= 1000) by (nonlinear_arith)
        requires
            m >= 0,
            m * m == dx * dx,
            dx * dx >= 1_000_000,
    ;
    assert(m <= rsum) by (nonlinear_arith)
        requires
            m >= 0,
            0 < rsum,
            m * m == dx * dx,
            dx * dx <= rsum * rsum,
    ;
    lemma_correction_chain(m, rsum);
    let q = div_tz((rsum - m) * 1000, m);
    let h = div_tz(m * q, 1000);
    let s = div_tz(h, 2);
    // The executable chain of separate_sp matches the one-dimensional one.
    assert(fdiv(rsum - d, d) == q);
    vstd::arithmetic::mul::lemma_mul_basics(q);
    if dx >= 0 {
        assert(dx == m);
        assert(fmul(dx, q) == h);
        assert(div_tz(fmul(dx, q), 2) == s);
    } else {
        assert(dx == -m);
        assert(dx * q == -(m * q)) by (nonlinear_arith)
            requires
                dx == -m,
        ;
        crate::fixed::lemma_div_tz_neg(m * q, 1000);
        assert(fmul(dx, q) == -h);
        crate::fixed::lemma_div_tz_neg(h, 2);
        assert(div_tz(fmul(dx, q), 2) == -s);
    }
    let p = separate_sp(b1, b2);
    assert(p.0.pos.y == b1.pos.y && p.1.pos.y == b2.pos.y);
    let dxn = p.0.pos.x - p.1.pos.x;
    assert(crate::fixed::mag(dxn) == m + 2 * s);
    assert(dsq(p.0.pos, p.1.pos) == dxn * dxn);
    crate::fixed::lemma_sqrt_of_square(dxn);
    assert(crate::vec2::dist_sp(p.0.pos, p.1.pos) == m + 2 * s);
    assert(1000 * (m + 2 * s) >= 1000 * rsum - rsum - 2998);
}

/// Separate two overlapping bodies whose centers are at least one unit
/// apart, exactly as `separate_sp` states.
#[verifier::rlimit(50)]
pub fn resolve_overlap(bodies: &mut Vec<Body>, i1: usize, i2: usize)
    requires
        i1 < old(bodies).len(),
        i2 < old(bodies).len(),
        i1 != i2,
        old(bodies)[i1 as int].ok(),
        old(bodies)[i2 as int].ok(),
        dsq(old(bodies)[i1 as int].pos, old(bodies)[i2 as int].pos) >= FX_ONE * FX_ONE,
    ensures
        final(bodies)@ == old(bodies)@.update(
            i1 as int,
            separate_sp(old(bodies)[i1 as int], old(bodies)[i2 as int]).0,
        ).update(i2 as int, separate_sp(old(bodies)[i1 as int], old(bodies)[i2 as int]).1),
        final(bodies)[i1 as int].ok(),
        final(bodies)[i2 as int].ok(),
{
    let b1: Body = bodies[i1];
    let b2: Body = bodies[i2];
    let dx: i64 = b1.pos.x - b2.pos.x;
    let dy: i64 = b1.pos.y - b2.pos.y;
    let d: i64 = dist(b1.pos, b2.pos);
    proof {
        crate::fixed::lemma_sqrt_floor_bounds(dsq(b1.pos, b2.pos) as nat);
        assert(d >= 1000) by (nonlinear_arith)
            requires
                d >= 0,
                dsq(b1.pos, b2.pos) < (d + 1) * (d + 1),
                dsq(b1.pos, b2.pos) >= 1_000_000,
        ;
    }
    let overlap: i64 = b1.radius + b2.radius - d;
    let ratio: i64 = fx_div(overlap, d);
    let sx: i64 = fx_half(fx_mul(dx, ratio));
    let sy: i64 = fx_half(fx_mul(dy, ratio));
    let nx: i64 = fx_div(dx, d);
    let ny: i64 = fx_div(dy, d);
    let dp1: i64 = fx_add(fx_mul(b1.vel.x, nx), fx_mul(b1.vel.y, ny));
    let nb1 = Body {
        radius: b1.radius,
        pos: Vec2 { x: fx_add(b1.pos.x, sx), y: fx_add(b1.pos.y, sy) },
        vel: Vec2 { x: fx_mul(dp1, nx), y: fx_mul(dp1, ny) },
        acc: Vec2 { x: 0, y: 0 },
        color: b1.color,
        is_dragged: b1.is_dragged,
    };
    bodies.set(i1, nb1);
    let nx2: i64 = fx_div(-dx, d);
    let ny2: i64 = fx_div(-dy, d);
    let dp2: i64 = fx_add(fx_mul(b2.vel.x, nx2), fx_mul(b2.vel.y, ny2));
    let nb2 = Body {
        radius: b2.radius,
        pos: Vec2 { x: fx_sub(b2.pos.x, sx), y: fx_sub(b2.pos.y, sy) },
        vel: Vec2 { x: fx_mul(dp2, nx2), y: fx_mul(dp2, ny2) },
        acc: Vec2 { x: 0, y: 0 },
        color: b2.color,
        is_dragged: b2.is_dragged,
    };
    bodies.set(i2, nb2);
}

/// Nudge one body's position by a bounded offset, leaving velocity and
/// acceleration untouched.
pub fn apply_jitter(bodies: &mut Vec<Body>, i: usize, jx: i64, jy: i64)
    requires
        i < old(bodies).len(),
        old(bodies)[i as int].ok(),
        -FX_ONE <= jx <= FX_ONE,
        -FX_ONE <= jy <= FX_ONE,
    ensures
        final(bodies)@ == old(bodies)@.update(
            i as int,
            Body {
                pos: Vec2 {
                    x: sat(old(bodies)[i as int].pos.x + jx) as i64,
                    y: sat(old(bodies)[i as int].pos.y + jy) as i64,
                },
                ..old(bodies)[i as int]
            },
        ),
        final(bodies)[i as int].ok(),
{
    let b: Body = bodies[i];
    let nb = Body { pos: Vec2 { x: fx_add(b.pos.x, jx), y: fx_add(b.pos.y, jy) }, ..b };
    bodies.set(i, nb);
}

/// One body's share of the bounded-jitter outcome: its position moved by
/// at most one unit per axis, everything else kept.
pub open spec fn jittered(pre: Body, post: Body) -> bool {
    &&& post.radius == pre.radius
    &&& post.vel == pre.vel
    &&& post.acc == pre.acc
    &&& post.color == pre.color
    &&& post.is_dragged == pre.is_dragged
    &&& crate::fixed::mag(post.pos.x - pre.pos.x) <= FX_ONE
    &&& crate::fixed::mag(post.pos.y - pre.pos.y) <= FX_ONE
    &&& post.ok()
}

/// What resolving the pair `(i1, i2)` does to the body list: the exact
/// separation of `separate_sp` when the centers are at least one unit
/// apart, otherwise a bounded nudge of those two bodies alone.
pub open spec fn pair_step_rel(pre: Seq<Body>, i1: int, i2: int, post: Seq<Body>) -> bool {
    if dsq(pre[i1].pos, pre[i2].pos) >= FX_ONE * FX_ONE {
        post == pre.update(i1, separate_sp(pre[i1], pre[i2]).0).update(
            i2,
            separate_sp(pre[i1], pre[i2]).1,
        )
    } else {
        &&& post.len() == pre.len()
        &&& (forall|j: int| 0 <= j < pre.len() && j != i1 && j != i2 ==> post[j] == pre[j])
        &&& jittered(pre[i1], post[i1])
        &&& jittered(pre[i2], post[i2])
    }
}

/// `k` occurs in some pair of `ps`.
pub open spec fn appears_in(ps: Seq<(usize, usize)>, k: int) -> bool {
    exists|p: int| 0 <= p < ps.len() && ((#[trigger] ps[p]).0 == k || ps[p].1 == k)
}

/// The whole resolution pass as a relation, witnessed by the chain of
/// intermediate states: `trace` starts at `pre`, ends at `post`, and each
/// consecutive pair of states is one `pair_step_rel` application of the
/// corresponding candidate pair, head first.
pub open spec fn resolved_trace(
    pre: Seq<Body>,
    ps: Seq<(usize, usize)>,
    post: Seq<Body>,
    trace: Seq<Seq<Body>>,
) -> bool {
    &&& trace.len() == ps.len() + 1
    &&& trace[0] == pre
    &&& trace[ps.len() as int] == post
    &&& (forall|k: int|
        0 <= k < ps.len() ==> pair_step_rel(
            trace[k],
            (#[trigger] ps[k]).0 as int,
            ps[k].1 as int,
            trace[k + 1],
        ))
}

/// Resolve one candidate pair.  Centers at least one unit apart take the
/// exact separation of `separate_sp`; nearer centers (where the normal
/// would be numerically unstable) each receive a random nudge of at most
/// one unit per axis instead, and no division happens at all.
pub fn resolve_pair(bodies: &mut Vec<Body>, i1: usize, i2: usize)
    requires
        i1 < old(bodies).len(),
        i2 < old(bodies).len(),
        i1 != i2,
        old(bodies)[i1 as int].ok(),
        old(bodies)[i2 as int].ok(),
    ensures
        final(bodies).len() == old(bodies).len(),
        forall|j: int|
            0 <= j < old(bodies).len() && j != i1 && j != i2 ==> final(bodies)[j] == old(bodies)[j],
        final(bodies)[i1 as int].ok(),
        final(bodies)[i2 as int].ok(),
        final(bodies)[i1 as int].radius == old(bodies)[i1 as int].radius,
        final(bodies)[i2 as int].radius == old(bodies)[i2 as int].radius,
        final(bodies)[i1 as int].color == old(bodies)[i1 as int].color,
        final(bodies)[i2 as int].color == old(bodies)[i2 as int].color,
        final(bodies)[i1 as int].is_dragged == old(bodies)[i1 as int].is_dragged,
        final(bodies)[i2 as int].is_dragged == old(bodies)[i2 as int].is_dragged,
        pair_step_rel(old(bodies)@, i1 as int, i2 as int, final(bodies)@),
        dsq(old(bodies)[i1 as int].pos, old(bodies)[i2 as int].pos) >= FX_ONE * FX_ONE
            ==> final(bodies)@ == old(bodies)@.update(
            i1 as int,
            separate_sp(old(bodies)[i1 as int], old(bodies)[i2 as int]).0,
        ).update(i2 as int, separate_sp(old(bodies)[i1 as int], old(bodies)[i2 as int]).1),
        dsq(old(bodies)[i1 as int].pos, old(bodies)[i2 as int].pos) < FX_ONE * FX_ONE ==> {
            &&& final(bodies)[i1 as int].vel == old(bodies)[i1 as int].vel
            &&& final(bodies)[i2 as int].vel == old(bodies)[i2 as int].vel
            &&& final(bodies)[i1 as int].acc == old(bodies)[i1 as int].acc
            &&& final(bodies)[i2 as int].acc == old(bodies)[i2 as int].acc
            &&& crate::fixed::mag(
                final(bodies)[i1 as int].pos.x - old(bodies)[i1 as int].pos.x,
            ) <= FX_ONE
            &&& crate::fixed::mag(
                final(bodies)[i1 as int].pos.y - old(bodies)[i1 as int].pos.y,
            ) <= FX_ONE
            &&& crate::fixed::mag(
                final(bodies)[i2 as int].pos.x - old(bodies)[i2 as int].pos.x,
            ) <= FX_ONE
            &&& crate::fixed::mag(
                final(bodies)[i2 as int].pos.y - old(bodies)[i2 as int].pos.y,
            ) <= FX_ONE
        },
{
    let b1: Body = bodies[i1];
    let b2: Body = bodies[i2];
    let d2: u128 = crate::vec2::dist_sq(b1.pos, b2.pos);
    if d2 < 1_000_000u128 {
        let j1x: i64 = random_unit_fx();
        let j1y: i64 = random_unit_fx();
        apply_jitter(bodies, i1, j1x, j1y);
        let j2x: i64 = random_unit_fx();
        let j2y: i64 = random_unit_fx();
        apply_jitter(bodies, i2, j2x, j2y);
    } else {
        resolve_overlap(bodies, i1, i2);
    }
}

/// Resolve every candidate pair in order.  A pair that was emitted twice
/// by the broad phase is corrected twice; that doubling is part of the
/// design and is not deduplicated here.
pub fn resolve(bodies: &mut Vec<Body>, pairs: &Vec<(usize, usize)>)
    requires
        forall|k: int|
            0 <= k < pairs.len() ==> #[trigger] pairs[k].0 < old(bodies).len()
                && pairs[k].1 < old(bodies).len() && pairs[k].0 != pairs[k].1,
        forall|i: int| 0 <= i < old(bodies).len() ==> #[trigger] old(bodies)[i].ok(),
    ensures
        final(bodies).len() == old(bodies).len(),
        forall|i: int| 0 <= i < old(bodies).len() ==> #[trigger] final(bodies)[i].ok(),
        forall|i: int|
            0 <= i < old(bodies).len() ==> #[trigger] final(bodies)[i].radius == old(bodies)[i].radius
                && final(bodies)[i].color == old(bodies)[i].color
                && final(bodies)[i].is_dragged == old(bodies)[i].is_dragged,
        exists|trace: Seq<Seq<Body>>|
            #[trigger] resolved_trace(old(bodies)@, pairs@, final(bodies)@, trace),
        forall|i: int|
            0 <= i < old(bodies).len() && !appears_in(pairs@, i) ==> final(bodies)[i] == old(
                bodies,
            )[i],
        pairs.len() == 0 ==> final(bodies)@ == old(bodies)@,
{
    let ghost mut trace: Seq<Seq<Body>> = seq![old(bodies)@];
    let mut k: usize = 0;
    while k < pairs.len()
        invariant
            k <= pairs.len(),
            bodies.len() == old(bodies).len(),
            forall|k2: int|
                0 <= k2 < pairs.len() ==> #[trigger] pairs[k2].0 < old(bodies).len()
                    && pairs[k2].1 < old(bodies).len() && pairs[k2].0 != pairs[k2].1,
            forall|i: int| 0 <= i < old(bodies).len() ==> #[trigger] bodies[i].ok(),
            forall|i: int|
                0 <= i < old(bodies).len() ==> #[trigger] bodies[i].radius == old(bodies)[i].radius
                    && bodies[i].color == old(bodies)[i].color
                    && bodies[i].is_dragged == old(bodies)[i].is_dragged,
            trace.len() == k + 1,
            trace[0] == old(bodies)@,
            trace[k as int] == bodies@,
            forall|t: int|
                0 <= t < k ==> pair_step_rel(
                    trace[t],
                    (#[trigger] pairs@[t]).0 as int,
                    pairs@[t].1 as int,
                    trace[t + 1],
                ),
            forall|i: int|
                0 <= i < old(bodies).len() && !appears_in(pairs@, i) ==> bodies[i] == old(
                    bodies,
                )[i],
            k == 0 ==> bodies@ == old(bodies)@,
        decreases pairs.len() - k,
    {
        let ghost pre_iter = bodies@;
        let (i1, i2): (usize, usize) = pairs[k];
        resolve_pair(bodies, i1, i2);
        proof {
            trace = trace.push(bodies@);
            assert(pair_step_rel(pre_iter, i1 as int, i2 as int, bodies@));
            assert forall|i: int|
                0 <= i < old(bodies).len() && !appears_in(pairs@, i) implies bodies[i] == old(
                bodies,
            )[i] by {
                if i == i1 || i == i2 {
                    assert((pairs@[k as int]).0 == i1 && (pairs@[k as int]).1 == i2);
                    assert(appears_in(pairs@, i));
                }
            }
        }
        k = k + 1;
    }
    proof {
        assert(resolved_trace(old(bodies)@, pairs@, bodies@, trace));
    }
}

} // verus!

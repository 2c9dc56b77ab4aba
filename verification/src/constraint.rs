//! Length constraints between pairs of bodies — spring links resolved by
//! force, rigid links resolved by direct axis-split position correction —
//! and the composite builders that assemble ropes and ring soft bodies
//! from them.

use vstd::prelude::*;
use vstd::pervasive::VecAdditionalExecFns;
use vstd::arithmetic::div_mod::{lemma_div_by_multiple, lemma_div_is_ordered};
use vstd::arithmetic::mul::lemma_mul_basics;

use crate::body::Body;
use crate::config::SimConfig;
use crate::fixed::{
    div_tz, fdiv, fmul, fx_add, fx_div, fx_div_tz, fx_mul, fx_ok, fx_sub, sat, sat_i128,
    sqrt_floor, FX_MAX, FX_ONE,
};
use crate::trig::{cos_sp, fx_cos, fx_sin, sin_sp, FX_PI, FX_TWO_PI};
use crate::vec2::{dist, dsq, Vec2};

verus! {

/// A soft constraint: resolved every frame by a spring-damper force fed
/// into the two bodies' accelerations.
#[derive(Clone, Copy, PartialEq, Eq, Structural, Debug)]
pub struct Link {
    pub body_a: usize,
    pub body_b: usize,
    pub rest_length: i64,
}

/// A rigid constraint: resolved every frame by one direct axis-split
/// position correction.
#[derive(Clone, Copy, PartialEq, Eq, Structural, Debug)]
pub struct StaticLink {
    pub body_a: usize,
    pub body_b: usize,
    pub rest_length: i64,
}

/// Why a composite builder rejected its parameters.
#[derive(Clone, Copy, PartialEq, Eq, Structural, Debug)]
pub enum SimError {
    /// A rope was asked for with no segments.
    ZeroSegments,
    /// A ring body was asked for with no circles.
    ZeroCount,
}

/// Spring-damper force application.  With the two centers coincident the
/// direction is undefined; the chosen policy for that degenerate case is
/// to skip the link for the frame, leaving both bodies untouched.
pub open spec fn spring_sp(b1: Body, b2: Body, rest: int, k: int, damp: int) -> (Body, Body) {
    let d = sqrt_floor(dsq(b1.pos, b2.pos) as nat) as int;
    if d == 0 {
        (b1, b2)
    } else {
        let dirx = fdiv(b2.pos.x - b1.pos.x, d);
        let diry = fdiv(b2.pos.y - b1.pos.y, d);
        let spring = fmul(d - rest, k);
        let forcex = fmul(dirx, spring);
        let forcey = fmul(diry, spring);
        let dampx = fmul(fmul(b2.vel.x - b1.vel.x, damp), 100);
        let dampy = fmul(fmul(b2.vel.y - b1.vel.y, damp), 100);
        (
            Body {
                acc: Vec2 {
                    x: sat(b1.acc.x + (forcex - dampx)) as i64,
                    y: sat(b1.acc.y + (forcey - dampy)) as i64,
                },
                ..b1
            },
            Body {
                acc: Vec2 {
                    x: sat(b2.acc.x - (forcex - dampx)) as i64,
                    y: sat(b2.acc.y - (forcey - dampy)) as i64,
                },
                ..b2
            },
        )
    }
}

/// Apply the spring-damper force of one soft link.
pub fn apply_spring(bodies: &mut Vec<Body>, c1: usize, c2: usize, rest: i64, cfg: &SimConfig)
    requires
        c1 < old(bodies).len(),
        c2 < old(bodies).len(),
        old(bodies)[c1 as int].ok(),
        old(bodies)[c2 as int].ok(),
        fx_ok(rest),
        cfg.ok(),
    ensures
        final(bodies)@ == old(bodies)@.update(
            c1 as int,
            spring_sp(
                old(bodies)[c1 as int],
                old(bodies)[c2 as int],
                rest as int,
                cfg.spring_const as int,
                cfg.damp_const as int,
            ).0,
        ).update(
            c2 as int,
            spring_sp(
                old(bodies)[c1 as int],
                old(bodies)[c2 as int],
                rest as int,
                cfg.spring_const as int,
                cfg.damp_const as int,
            ).1,
        ),
        final(bodies)[c1 as int].ok(),
        final(bodies)[c2 as int].ok(),
{
    let b1: Body = bodies[c1];
    let b2: Body = bodies[c2];
    let d: i64 = dist(b1.pos, b2.pos);
    if d == 0 {
        proof {
            assert(bodies@ =~= bodies@.update(c1 as int, b1).update(c2 as int, b2));
        }
        return;
    }
    let dirx: i64 = fx_div(b2.pos.x - b1.pos.x, d);
    let diry: i64 = fx_div(b2.pos.y - b1.pos.y, d);
    let springf: i64 = fx_mul(d - rest, cfg.spring_const);
    let forcex: i64 = fx_mul(dirx, springf);
    let forcey: i64 = fx_mul(diry, springf);
    let dampx: i64 = fx_mul(fx_mul(b2.vel.x - b1.vel.x, cfg.damp_const), 100);
    let dampy: i64 = fx_mul(fx_mul(b2.vel.y - b1.vel.y, cfg.damp_const), 100);
    let tx: i64 = forcex - dampx;
    let ty: i64 = forcey - dampy;
    let n1 = Body {
        acc: Vec2 {
            x: sat_i128(b1.acc.x as i128 + tx as i128),
            y: sat_i128(b1.acc.y as i128 + ty as i128),
        },
        ..b1
    };
    bodies.set(c1, n1);
    let n2 = Body {
        acc: Vec2 {
            x: sat_i128(b2.acc.x as i128 - tx as i128),
            y: sat_i128(b2.acc.y as i128 - ty as i128),
        },
        ..b2
    };
    bodies.set(c2, n2);
}

/// A link at exactly its rest length exerts no spring force: the whole
/// acceleration change is the damping term, and it vanishes too when the
/// relative velocity is zero.
pub proof fn lemma_spring_at_rest(b1: Body, b2: Body, rest: int, k: int, damp: int)
    requires
        sqrt_floor(dsq(b1.pos, b2.pos) as nat) == rest,
        rest != 0,
    ensures
        ({
            let dampx = fmul(fmul(b2.vel.x - b1.vel.x, damp), 100);
            let dampy = fmul(fmul(b2.vel.y - b1.vel.y, damp), 100);
            &&& spring_sp(b1, b2, rest, k, damp).0.acc.x == sat(b1.acc.x - dampx)
            &&& spring_sp(b1, b2, rest, k, damp).0.acc.y == sat(b1.acc.y - dampy)
            &&& spring_sp(b1, b2, rest, k, damp).1.acc.x == sat(b2.acc.x + dampx)
            &&& spring_sp(b1, b2, rest, k, damp).1.acc.y == sat(b2.acc.y + dampy)
            &&& spring_sp(b1, b2, rest, k, damp).0.vel == b1.vel
            &&& spring_sp(b1, b2, rest, k, damp).1.vel == b2.vel
            &&& spring_sp(b1, b2, rest, k, damp).0.pos == b1.pos
            &&& spring_sp(b1, b2, rest, k, damp).1.pos == b2.pos
        }),
{
    let d = sqrt_floor(dsq(b1.pos, b2.pos) as nat) as int;
    assert(d - rest == 0);
    lemma_mul_basics(k);
    assert(fmul(0, k) == 0);
    let dirx = fdiv(b2.pos.x - b1.pos.x, d);
    let diry = fdiv(b2.pos.y - b1.pos.y, d);
    lemma_mul_basics(dirx);
    lemma_mul_basics(diry);
    assert(fmul(dirx, 0) == 0);
    assert(fmul(diry, 0) == 0);
}

/// Shift a body's position by `off` along each axis, toward positive or
/// negative according to the two direction flags.
pub open spec fn sl_shift(b: Body, off: int, toward_x: bool, toward_y: bool) -> Body {
    Body {
        pos: Vec2 {
            x: (if toward_x {
                sat(b.pos.x + off)
            } else {
                sat(b.pos.x - off)
            }) as i64,
            y: (if toward_y {
                sat(b.pos.y + off)
            } else {
                sat(b.pos.y - off)
            }) as i64,
        },
        ..b
    }
}

/// One rigid-link relaxation on a body sequence: half the length error is
/// applied as an independent offset on each axis, the first body toward
/// the second and the second away, in that order (so a link from a body
/// to itself composes the two shifts).
pub open spec fn static_link_sp(s: Seq<Body>, c1: int, c2: int, rest: int) -> Seq<Body> {
    let d = sqrt_floor(dsq(s[c1].pos, s[c2].pos) as nat) as int;
    let off = fmul(d - rest, 500);
    let right = s[c1].pos.x < s[c2].pos.x;
    let up = s[c1].pos.y < s[c2].pos.y;
    let mid = s.update(c1, sl_shift(s[c1], off, right, up));
    mid.update(c2, sl_shift(mid[c2], off, !right, !up))
}

/// Apply one rigid link: direct position correction, split per axis
/// rather than along the true separating direction.
pub fn apply_static_link(bodies: &mut Vec<Body>, c1: usize, c2: usize, rest: i64)
    requires
        c1 < old(bodies).len(),
        c2 < old(bodies).len(),
        old(bodies)[c1 as int].ok(),
        old(bodies)[c2 as int].ok(),
        fx_ok(rest),
    ensures
        final(bodies)@ == static_link_sp(old(bodies)@, c1 as int, c2 as int, rest as int),
        final(bodies)[c1 as int].ok(),
        final(bodies)[c2 as int].ok(),
{
    let b1: Body = bodies[c1];
    let b2: Body = bodies[c2];
    let d: i64 = dist(b1.pos, b2.pos);
    let off: i64 = fx_mul(d - rest, 500);
    let right: bool = b1.pos.x < b2.pos.x;
    let up: bool = b1.pos.y < b2.pos.y;
    let n1 = Body {
        pos: Vec2 {
            x: if right {
                fx_add(b1.pos.x, off)
            } else {
                fx_sub(b1.pos.x, off)
            },
            y: if up {
                fx_add(b1.pos.y, off)
            } else {
                fx_sub(b1.pos.y, off)
            },
        },
        ..b1
    };
    bodies.set(c1, n1);
    let m2: Body = bodies[c2];
    let n2 = Body {
        pos: Vec2 {
            x: if right {
                fx_sub(m2.pos.x, off)
            } else {
                fx_add(m2.pos.x, off)
            },
            y: if up {
                fx_sub(m2.pos.y, off)
            } else {
                fx_add(m2.pos.y, off)
            },
        },
        ..m2
    };
    bodies.set(c2, n2);
}

/// The body `i` of a rope hung from `anchor`: a one-unit node `i` steps
/// down the line, at rest.
pub open spec fn rope_body_sp(anchor: Vec2, length: int, segments: int, i: int) -> Body {
    let step = div_tz(i * length, segments);
    Body {
        radius: FX_ONE,
        pos: Vec2 { x: anchor.x, y: sat(anchor.y + fmul(step, FX_ONE as int)) as i64 },
        vel: Vec2 { x: 0i64, y: 0i64 },
        acc: Vec2 { x: 0i64, y: 0i64 },
        color: 0u32,
        is_dragged: false,
    }
}

/// Build a rope: `segments + 2` bodies straight down from the anchor and
/// a rigid link between each consecutive pair, each with rest length
/// `length / segments`.  Zero segments are rejected and nothing changes.
pub fn create_rope(
    bodies: &mut Vec<Body>,
    static_links: &mut Vec<StaticLink>,
    anchor: Vec2,
    length: i64,
    segments: usize,
) -> (r: Result<(), SimError>)
    requires
        anchor.ok(),
        fx_ok(length),
        segments <= 1_000_000,
        old(bodies).len() + segments + 2 <= usize::MAX,
        old(static_links).len() + segments + 1 <= usize::MAX,
    ensures
        r == Err::<(), SimError>(SimError::ZeroSegments) <==> segments == 0,
        segments >= 1 ==> r == Ok::<(), SimError>(()),
        segments == 0 ==> final(bodies)@ == old(bodies)@ && final(static_links)@ == old(
            static_links,
        )@,
        segments >= 1 ==> {
            &&& final(bodies)@.len() == old(bodies)@.len() + segments + 2
            &&& (forall|j: int|
                0 <= j < old(bodies)@.len() ==> final(bodies)@[j] == old(bodies)@[j])
            &&& (forall|i: int|
                0 <= i < segments + 2 ==> final(bodies)@[old(bodies)@.len() + i]
                    == rope_body_sp(anchor, length as int, segments as int, i))
            &&& final(static_links)@.len() == old(static_links)@.len() + segments + 1
            &&& (forall|j: int|
                0 <= j < old(static_links)@.len() ==> final(static_links)@[j] == old(
                    static_links,
                )@[j])
            &&& (forall|i: int|
                0 <= i < segments + 1 ==> #[trigger] final(static_links)@[old(static_links)@.len()
                    + i] == (StaticLink {
                    body_a: (old(bodies)@.len() + i) as usize,
                    body_b: (old(bodies)@.len() + i + 1) as usize,
                    rest_length: div_tz(length as int, segments as int) as i64,
                }))
        },
{
    if segments == 0 {
        return Err(SimError::ZeroSegments);
    }
    let base: usize = bodies.len();
    let lbase: usize = static_links.len();
    let rest: i64 = fx_div_tz(length, segments as i64);
    let mut i: usize = 0;
    while i < segments + 2
        invariant
            segments >= 1,
            i <= segments + 2,
            segments <= 1_000_000,
            fx_ok(length),
            anchor.ok(),
            base + segments + 2 <= usize::MAX,
            bodies@.len() == base + i,
            forall|j: int| 0 <= j < base ==> bodies@[j] == old(bodies)@[j],
            forall|j: int|
                0 <= j < i ==> bodies@[base + j] == rope_body_sp(
                    anchor,
                    length as int,
                    segments as int,
                    j,
                ),
            base == old(bodies)@.len(),
        decreases segments + 2 - i,
    {
        proof {
            assert(-2_000_000_000_000_000_000 <= (i as int) * (length as int)
                <= 2_000_000_000_000_000_000) by (nonlinear_arith)
                requires
                    0 <= i as int <= 1_000_002,
                    -1_000_000_000_000 <= length as int <= 1_000_000_000_000,
            ;
        }
        let step: i64 = fx_div_tz((i as i64) * length, segments as i64);
        let node = Body {
            radius: FX_ONE,
            pos: Vec2 { x: anchor.x, y: fx_add(anchor.y, fx_mul(step, FX_ONE)) },
            vel: Vec2 { x: 0, y: 0 },
            acc: Vec2 { x: 0, y: 0 },
            color: 0,
            is_dragged: false,
        };
        bodies.push(node);
        i = i + 1;
    }
    let mut l: usize = 0;
    while l < segments + 1
        invariant
            segments >= 1,
            l <= segments + 1,
            segments <= 1_000_000,
            base + segments + 2 <= usize::MAX,
            lbase + segments + 1 <= usize::MAX,
            rest == div_tz(length as int, segments as int),
            static_links@.len() == lbase + l,
            forall|j: int| 0 <= j < lbase ==> static_links@[j] == old(static_links)@[j],
            forall|j: int|
                0 <= j < l ==> #[trigger] static_links@[lbase + j] == (StaticLink {
                    body_a: (base + j) as usize,
                    body_b: (base + j + 1) as usize,
                    rest_length: rest,
                }),
            lbase == old(static_links)@.len(),
        decreases segments + 1 - l,
    {
        static_links.push(StaticLink { body_a: base + l, body_b: base + l + 1, rest_length: rest });
        l = l + 1;
    }
    Ok(())
}

/// The body `i` of a ring of `count` circles of radius `sub_radius`
/// placed on a circle of radius `radius` around `center`.
pub open spec fn ring_body_sp(
    count: int,
    radius: int,
    sub_radius: i64,
    center: Vec2,
    i: int,
) -> Body {
    let theta = div_tz(2 * i * FX_PI, count);
    Body {
        radius: sub_radius,
        pos: Vec2 {
            x: sat(fmul(radius, cos_sp(theta)) + center.x) as i64,
            y: sat(fmul(radius, sin_sp(theta)) + center.y) as i64,
        },
        vel: Vec2 { x: 0i64, y: 0i64 },
        acc: Vec2 { x: 0i64, y: 0i64 },
        color: 0u32,
        is_dragged: false,
    }
}

/// Push the `count` bodies of a ring and return the index of the first.
fn push_ring_bodies(
    bodies: &mut Vec<Body>,
    count: usize,
    radius: i64,
    sub_radius: i64,
    center: Vec2,
) -> (base: usize)
    requires
        1 <= count <= 1_000_000,
        fx_ok(radius),
        0 < sub_radius <= FX_MAX,
        center.ok(),
        old(bodies).len() + count <= usize::MAX,
    ensures
        base == old(bodies)@.len(),
        final(bodies)@.len() == old(bodies)@.len() + count,
        forall|j: int| 0 <= j < old(bodies)@.len() ==> final(bodies)@[j] == old(bodies)@[j],
        forall|i: int|
            0 <= i < count ==> final(bodies)@[old(bodies)@.len() + i] == ring_body_sp(
                count as int,
                radius as int,
                sub_radius,
                center,
                i,
            ),
{
    let base: usize = bodies.len();
    let mut i: usize = 0;
    while i < count
        invariant
            1 <= count <= 1_000_000,
            i <= count,
            fx_ok(radius),
            0 < sub_radius <= FX_MAX,
            center.ok(),
            base + count <= usize::MAX,
            bodies@.len() == base + i,
            forall|j: int| 0 <= j < base ==> bodies@[j] == old(bodies)@[j],
            forall|j: int|
                0 <= j < i ==> bodies@[base + j] == ring_body_sp(
                    count as int,
                    radius as int,
                    sub_radius,
                    center,
                    j,
                ),
            base == old(bodies)@.len(),
        decreases count - i,
    {
        let num: u64 = 2 * (i as u64) * (FX_PI as u64);
        let theta64: u64 = num / (count as u64);
        proof {
            assert(num <= 6284 * (count as int));
            lemma_div_is_ordered(num as int, 6284 * (count as int), count as int);
            lemma_div_by_multiple(6284, count as int);
            assert((6284 * (count as int)) / (count as int) == 6284);
        }
        let theta: i64 = theta64 as i64;
        assert(theta == div_tz(2 * (i as int) * (FX_PI as int), count as int));
        let node = Body {
            radius: sub_radius,
            pos: Vec2 {
                x: fx_add(fx_mul(radius, fx_cos(theta)), center.x),
                y: fx_add(fx_mul(radius, fx_sin(theta)), center.y),
            },
            vel: Vec2 { x: 0, y: 0 },
            acc: Vec2 { x: 0, y: 0 },
            color: 0,
            is_dragged: false,
        };
        bodies.push(node);
        i = i + 1;
    }
    base
}

/// Build a ring soft body held together by rigid links: `count` circles
/// on a ring, a link between each consecutive pair and one closing link,
/// every rest length `circumference / count`.  A zero count is rejected
/// and nothing changes.
pub fn create_softbody(
    bodies: &mut Vec<Body>,
    static_links: &mut Vec<StaticLink>,
    count: usize,
    radius: i64,
    sub_radius: i64,
    center: Vec2,
) -> (r: Result<(), SimError>)
    requires
        count <= 1_000_000,
        fx_ok(radius),
        0 < sub_radius <= FX_MAX,
        center.ok(),
        old(bodies).len() + count <= usize::MAX,
        old(static_links).len() + count <= usize::MAX,
    ensures
        r == Err::<(), SimError>(SimError::ZeroCount) <==> count == 0,
        count >= 1 ==> r == Ok::<(), SimError>(()),
        count == 0 ==> final(bodies)@ == old(bodies)@ && final(static_links)@ == old(
            static_links,
        )@,
        count >= 1 ==> {
            &&& final(bodies)@.len() == old(bodies)@.len() + count
            &&& (forall|j: int|
                0 <= j < old(bodies)@.len() ==> final(bodies)@[j] == old(bodies)@[j])
            &&& (forall|i: int|
                0 <= i < count ==> final(bodies)@[old(bodies)@.len() + i] == ring_body_sp(
                    count as int,
                    radius as int,
                    sub_radius,
                    center,
                    i,
                ))
            &&& final(static_links)@.len() == old(static_links)@.len() + count
            &&& (forall|j: int|
                0 <= j < old(static_links)@.len() ==> final(static_links)@[j] == old(
                    static_links,
                )@[j])
            &&& (forall|i: int|
                0 <= i < count - 1 ==> #[trigger] final(static_links)@[old(static_links)@.len()
                    + i] == (StaticLink {
                    body_a: (old(bodies)@.len() + i) as usize,
                    body_b: (old(bodies)@.len() + i + 1) as usize,
                    rest_length: ring_rest_sp(radius as int, count as int) as i64,
                }))
            &&& final(static_links)@[old(static_links)@.len() + count - 1] == (StaticLink {
                body_a: old(bodies)@.len() as usize,
                body_b: (old(bodies)@.len() + count - 1) as usize,
                rest_length: ring_rest_sp(radius as int, count as int) as i64,
            })
        },
{
    if count == 0 {
        return Err(SimError::ZeroCount);
    }
    let base: usize = push_ring_bodies(bodies, count, radius, sub_radius, center);
    let lbase: usize = static_links.len();
    let rest: i64 = fx_div_tz(fx_mul(FX_TWO_PI, radius), count as i64);
    let mut i: usize = 1;
    while i < count
        invariant
            1 <= count <= 1_000_000,
            1 <= i <= count,
            lbase + count <= usize::MAX,
            base + count <= usize::MAX,
            rest == ring_rest_sp(radius as int, count as int),
            static_links@.len() == lbase + i - 1,
            forall|j: int| 0 <= j < lbase ==> static_links@[j] == old(static_links)@[j],
            forall|j: int|
                0 <= j < i - 1 ==> #[trigger] static_links@[lbase + j] == (StaticLink {
                    body_a: (base + j) as usize,
                    body_b: (base + j + 1) as usize,
                    rest_length: rest,
                }),
            lbase == old(static_links)@.len(),
        decreases count - i,
    {
        static_links.push(StaticLink { body_a: base + i - 1, body_b: base + i, rest_length: rest });
        i = i + 1;
    }
    static_links.push(StaticLink { body_a: base, body_b: base + count - 1, rest_length: rest });
    Ok(())
}

/// Rest length of a ring link: the ring circumference split over the
/// circle count.
pub open spec fn ring_rest_sp(radius: int, count: int) -> int {
    div_tz(fmul(FX_TWO_PI as int, radius), count)
}

/// Build a ring soft body held together by springs instead of rigid
/// links; otherwise exactly as `create_softbody`.
pub fn create_spring_softbody(
    bodies: &mut Vec<Body>,
    links: &mut Vec<Link>,
    count: usize,
    radius: i64,
    sub_radius: i64,
    center: Vec2,
) -> (r: Result<(), SimError>)
    requires
        count <= 1_000_000,
        fx_ok(radius),
        0 < sub_radius <= FX_MAX,
        center.ok(),
        old(bodies).len() + count <= usize::MAX,
        old(links).len() + count <= usize::MAX,
    ensures
        r == Err::<(), SimError>(SimError::ZeroCount) <==> count == 0,
        count >= 1 ==> r == Ok::<(), SimError>(()),
        count == 0 ==> final(bodies)@ == old(bodies)@ && final(links)@ == old(links)@,
        count >= 1 ==> {
            &&& final(bodies)@.len() == old(bodies)@.len() + count
            &&& (forall|j: int|
                0 <= j < old(bodies)@.len() ==> final(bodies)@[j] == old(bodies)@[j])
            &&& (forall|i: int|
                0 <= i < count ==> final(bodies)@[old(bodies)@.len() + i] == ring_body_sp(
                    count as int,
                    radius as int,
                    sub_radius,
                    center,
                    i,
                ))
            &&& final(links)@.len() == old(links)@.len() + count
            &&& (forall|j: int|
                0 <= j < old(links)@.len() ==> final(links)@[j] == old(links)@[j])
            &&& (forall|i: int|
                0 <= i < count - 1 ==> #[trigger] final(links)@[old(links)@.len() + i] == (Link {
                    body_a: (old(bodies)@.len() + i) as usize,
                    body_b: (old(bodies)@.len() + i + 1) as usize,
                    rest_length: ring_rest_sp(radius as int, count as int) as i64,
                }))
            &&& final(links)@[old(links)@.len() + count - 1] == (Link {
                body_a: old(bodies)@.len() as usize,
                body_b: (old(bodies)@.len() + count - 1) as usize,
                rest_length: ring_rest_sp(radius as int, count as int) as i64,
            })
        },
{
    if count == 0 {
        return Err(SimError::ZeroCount);
    }
    let base: usize = push_ring_bodies(bodies, count, radius, sub_radius, center);
    let lbase: usize = links.len();
    let rest: i64 = fx_div_tz(fx_mul(FX_TWO_PI, radius), count as i64);
    let mut i: usize = 1;
    while i < count
        invariant
            1 <= count <= 1_000_000,
            1 <= i <= count,
            lbase + count <= usize::MAX,
            base + count <= usize::MAX,
            rest == ring_rest_sp(radius as int, count as int),
            links@.len() == lbase + i - 1,
            forall|j: int| 0 <= j < lbase ==> links@[j] == old(links)@[j],
            forall|j: int|
                0 <= j < i - 1 ==> #[trigger] links@[lbase + j] == (Link {
                    body_a: (base + j) as usize,
                    body_b: (base + j + 1) as usize,
                    rest_length: rest,
                }),
            lbase == old(links)@.len(),
        decreases count - i,
    {
        links.push(Link { body_a: base + i - 1, body_b: base + i, rest_length: rest });
        i = i + 1;
    }
    links.push(Link { body_a: base, body_b: base + count - 1, rest_length: rest });
    Ok(())
}

} // verus!

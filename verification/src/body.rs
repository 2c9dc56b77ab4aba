//! A circular body: the one owned entity of the simulation.

use vstd::prelude::*;

use crate::fixed::{fx_ok, FX_MAX, FX_ONE};
use crate::vec2::{dist_sq, dsq, Vec2};

verus! {

#[derive(Clone, Copy, PartialEq, Eq, Structural, Debug)]
pub struct Body {
    pub radius: i64,
    pub pos: Vec2,
    pub vel: Vec2,
    pub acc: Vec2,
    /// Opaque pass-through for the renderer; the core never reads it.
    pub color: u32,
    pub is_dragged: bool,
}

impl Body {
    /// The radius is positive and every stored quantity is in band.
    pub open spec fn ok(self) -> bool {
        &&& 0 < self.radius <= FX_MAX
        &&& self.pos.ok()
        &&& self.vel.ok()
        &&& self.acc.ok()
    }

    /// The circle can stand inside a world of the given size with the
    /// one-unit wall margin on either side.
    pub open spec fn fits(self, width: i64, height: i64) -> bool {
        &&& 2 * self.radius + FX_ONE <= width
        &&& 2 * self.radius + FX_ONE <= height
    }

    /// The center lies in the clamp band of the integrator.
    pub open spec fn in_bounds(self, width: i64, height: i64) -> bool {
        &&& self.radius <= self.pos.x <= width - FX_ONE - self.radius
        &&& self.radius <= self.pos.y <= height - FX_ONE - self.radius
    }

    /// A fresh body at rest.
    pub fn new(radius: i64, pos: Vec2, color: u32) -> (r: Body)
        requires
            0 < radius <= FX_MAX,
            pos.ok(),
        ensures
            r == (Body {
                radius,
                pos,
                vel: Vec2 { x: 0i64, y: 0i64 },
                acc: Vec2 { x: 0i64, y: 0i64 },
                color,
                is_dragged: false,
            }),
            r.ok(),
    {
        Body {
            radius,
            pos,
            vel: Vec2 { x: 0, y: 0 },
            acc: Vec2 { x: 0, y: 0 },
            color,
            is_dragged: false,
        }
    }
}

/// The circles of `a` and `b` overlap or touch: the squared distance of the
/// centers is at most the square of the radius sum.
pub open spec fn touching(a: Body, b: Body) -> bool {
    dsq(a.pos, b.pos) <= (a.radius + b.radius) * (a.radius + b.radius)
}

/// The point `p` lies on or inside the circle of `b`.
pub open spec fn covers(b: Body, p: Vec2) -> bool {
    dsq(p, b.pos) <= b.radius * b.radius
}

/// Circle-circle overlap test on squared distances, so no root is taken.
pub fn touches(a: &Body, b: &Body) -> (r: bool)
    requires
        a.ok(),
        b.ok(),
    ensures
        r == touching(*a, *b),
{
    let d2: u128 = dist_sq(a.pos, b.pos);
    let rsum: u64 = (a.radius + b.radius) as u64;
    proof {
        assert((rsum as int) * (rsum as int) == (a.radius + b.radius) * (a.radius + b.radius)
            && (rsum as int) * (rsum as int) <= 4_000_000_000_000_000_000_000_000)
            by (nonlinear_arith)
            requires
                0 < rsum as int == a.radius + b.radius <= 2_000_000_000_000,
        ;
    }
    let r2: u128 = (rsum as u128) * (rsum as u128);
    d2 <= r2
}

/// Point-in-circle test on squared distances.
pub fn contains_point(b: &Body, p: Vec2) -> (r: bool)
    requires
        b.ok(),
        p.ok(),
    ensures
        r == covers(*b, p),
{
    let d2: u128 = dist_sq(p, b.pos);
    let rad: u64 = b.radius as u64;
    proof {
        assert((rad as int) * (rad as int) == b.radius * b.radius && (rad as int) * (rad as int)
            <= 4_000_000_000_000_000_000_000_000) by (nonlinear_arith)
            requires
                0 < rad as int == b.radius <= 2_000_000_000_000,
        ;
    }
    let r2: u128 = (rad as u128) * (rad as u128);
    d2 <= r2
}

} // verus!

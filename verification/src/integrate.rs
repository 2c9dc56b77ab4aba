//! The per-body integrator: wall reflection, gravity, quadratic drag,
//! velocity and position update, and the clamp into the world.

use vstd::prelude::*;

use crate::body::Body;
use crate::config::SimConfig;
use crate::fixed::{
    clamp_sp, fdiv, fmul, fx_clamp, fx_div, fx_mul, fx_ok, fx_sub, sat, sat_i128, FX_MAX, FX_ONE,
};
use crate::vec2::Vec2;

verus! {

/// An inelastic wall reflection of one velocity or acceleration component:
/// the value `-v + sign(-v) * loss * v`, so a component moving into the
/// wall comes back with magnitude grown by the loss fraction and a
/// component already leaving it comes back shrunk by it.
pub open spec fn reflect_sp(v: int, loss: int) -> int {
    if v > 0 {
        sat(-v - fmul(loss, v))
    } else if v < 0 {
        sat(-v + fmul(loss, v))
    } else {
        0
    }
}

/// Quadratic drag increment: `loss-of-acceleration = ar * v^2 * dt`.
pub open spec fn drag_term(ar: int, v: int, dt: int) -> int {
    fmul(fmul(fmul(ar, v), v), dt)
}

/// Drag applied against the direction of the current acceleration.
pub open spec fn air_sp(a: int, ar: int, v: int, dt: int) -> int {
    if a > 0 {
        sat(a - drag_term(ar, v, dt))
    } else {
        sat(a + drag_term(ar, v, dt))
    }
}

/// Horizontal wall pass: velocity and acceleration after the right-wall
/// and then the left-wall reflection checks.
pub open spec fn wall_pass_x(b: Body, loss: int, width: int) -> (int, int) {
    let hit_r = b.pos.x + b.radius + FX_ONE >= width;
    let vx1 = if hit_r {
        reflect_sp(b.vel.x as int, loss)
    } else {
        b.vel.x as int
    };
    let ax1 = if hit_r {
        reflect_sp(b.acc.x as int, loss)
    } else {
        b.acc.x as int
    };
    let hit_l = b.pos.x - b.radius - FX_ONE <= 0;
    let vx2 = if hit_l {
        reflect_sp(vx1, loss)
    } else {
        vx1
    };
    let ax2 = if hit_l {
        reflect_sp(ax1, loss)
    } else {
        ax1
    };
    (vx2, ax2)
}

/// Vertical wall pass: floor reflection under zero gravity, unconditional
/// ceiling reflection, then the gravity override with its floor bounce.
pub open spec fn wall_pass_y(b: Body, cfg: SimConfig, height: int) -> (int, int) {
    let loss = cfg.collide_loss as int;
    let hit_b = b.pos.y + b.radius + FX_ONE >= height;
    let vy1 = if cfg.gravity == 0 && hit_b {
        reflect_sp(b.vel.y as int, loss)
    } else {
        b.vel.y as int
    };
    let ay1 = if cfg.gravity == 0 && hit_b {
        reflect_sp(b.acc.y as int, loss)
    } else {
        b.acc.y as int
    };
    let hit_t = b.pos.y - b.radius - FX_ONE <= 0;
    let vy2 = if hit_t {
        reflect_sp(vy1, loss)
    } else {
        vy1
    };
    let ay2 = if hit_t {
        reflect_sp(ay1, loss)
    } else {
        ay1
    };
    if cfg.gravity > 0 {
        let vy3 = if hit_b {
            reflect_sp(vy2, loss)
        } else {
            vy2
        };
        (vy3, cfg.gravity as int)
    } else {
        (vy2, ay2)
    }
}

/// One free (undragged) integration step.
pub open spec fn free_step_sp(b: Body, dt: int, cfg: SimConfig, width: int, height: int) -> Body {
    let loss = cfg.collide_loss as int;
    let ar = cfg.air_resistance as int;
    let vx2 = wall_pass_x(b, loss, width).0;
    let ax2 = wall_pass_x(b, loss, width).1;
    let vy3 = wall_pass_y(b, cfg, height).0;
    let ay3 = wall_pass_y(b, cfg, height).1;
    let axf = air_sp(ax2, ar, vx2, dt);
    let ayf = air_sp(ay3, ar, vy3, dt);
    let vy4 = sat(vy3 + fmul(ayf, dt));
    let vx4 = sat(vx2 + fmul(axf, dt));
    let factor = sat(FX_ONE - fmul(ar, dt));
    let vx5 = fmul(vx4, factor);
    let py1 = sat(b.pos.y + fmul(vy4, dt));
    let px1 = sat(b.pos.x + fmul(vx5, dt));
    let px2 = clamp_sp(px1, b.radius as int, width - FX_ONE - b.radius);
    let py2 = clamp_sp(py1, b.radius as int, height - FX_ONE - b.radius);
    Body {
        radius: b.radius,
        pos: Vec2 { x: px2 as i64, y: py2 as i64 },
        vel: Vec2 { x: vx5 as i64, y: vy4 as i64 },
        acc: Vec2 { x: axf as i64, y: ayf as i64 },
        color: b.color,
        is_dragged: b.is_dragged,
    }
}

/// One dragged step: the body chases the drag target; gravity and drag
/// integration are skipped entirely.
pub open spec fn drag_step_sp(b: Body, dt: int, t: Vec2, width: int, height: int) -> Body {
    let vx = fdiv(sat(t.x - b.pos.x), dt);
    let vy = fdiv(sat(t.y - b.pos.y), dt);
    let py1 = sat(b.pos.y + fmul(vy, dt));
    let px1 = sat(b.pos.x + fmul(vx, dt));
    let px2 = clamp_sp(px1, b.radius as int, width - FX_ONE - b.radius);
    let py2 = clamp_sp(py1, b.radius as int, height - FX_ONE - b.radius);
    Body {
        radius: b.radius,
        pos: Vec2 { x: px2 as i64, y: py2 as i64 },
        vel: Vec2 { x: vx as i64, y: vy as i64 },
        acc: b.acc,
        color: b.color,
        is_dragged: b.is_dragged,
    }
}

/// One integration step: dragged when a target is present and the body is
/// marked dragged, free otherwise.
pub open spec fn step_sp(
    b: Body,
    dt: int,
    cfg: SimConfig,
    width: int,
    height: int,
    drag: Option<Vec2>,
) -> Body {
    match drag {
        Some(t) => if b.is_dragged {
            drag_step_sp(b, dt, t, width, height)
        } else {
            free_step_sp(b, dt, cfg, width, height)
        },
        None => free_step_sp(b, dt, cfg, width, height),
    }
}

/// A body under zero gravity with zero velocity and zero acceleration,
/// standing clear of every wall, does not move in an integration step:
/// position, velocity and acceleration all come out unchanged.
pub proof fn lemma_rest_body_stays(b: Body, dt: int, cfg: SimConfig, width: int, height: int)
    requires
        b.ok(),
        cfg.gravity == 0,
        b.vel.x == 0,
        b.vel.y == 0,
        b.acc.x == 0,
        b.acc.y == 0,
        b.pos.x + b.radius + FX_ONE < width,
        b.pos.x - b.radius - FX_ONE > 0,
        b.pos.y + b.radius + FX_ONE < height,
        b.pos.y - b.radius - FX_ONE > 0,
    ensures
        step_sp(b, dt, cfg, width, height, None).pos == b.pos,
        step_sp(b, dt, cfg, width, height, None).vel == b.vel,
        step_sp(b, dt, cfg, width, height, None).acc == b.acc,
{
    let ar = cfg.air_resistance as int;
    vstd::arithmetic::mul::lemma_mul_basics(ar);
    vstd::arithmetic::mul::lemma_mul_basics(dt);
    assert(fmul(ar, 0) == 0);
    assert(fmul(0, 0) == 0);
    assert(fmul(0, dt) == 0);
    assert(drag_term(ar, 0, dt) == 0);
    assert(air_sp(0, ar, 0, dt) == 0);
    let f = sat(FX_ONE - fmul(ar, dt));
    vstd::arithmetic::mul::lemma_mul_basics(f);
    assert(fmul(0, f) == 0);
}

/// A body whose right edge has crossed the right wall while moving right
/// comes out of the horizontal wall pass with its velocity flipped and
/// grown in magnitude by the loss fraction: `-(v + loss * v)`.
pub proof fn lemma_right_wall_bounce(v: int, loss: int)
    requires
        0 < v,
        0 <= loss,
        v + fmul(loss, v) <= FX_MAX,
    ensures
        reflect_sp(v, loss) == -(v + fmul(loss, v)),
        crate::fixed::mag(reflect_sp(v, loss)) == v + fmul(loss, v),
{
    assert(loss * v >= 0) by (nonlinear_arith)
        requires
            loss >= 0,
            v > 0,
    ;
    vstd::arithmetic::div_mod::lemma_div_pos_is_pos(loss * v, 1000);
}

/// The same statement lifted to the whole horizontal wall pass, when only
/// the right wall is crossed.
pub proof fn lemma_right_wall_pass(b: Body, loss: int, width: int)
    requires
        b.pos.x + b.radius + FX_ONE >= width,
        b.pos.x - b.radius - FX_ONE > 0,
        0 < b.vel.x,
        0 <= loss,
        b.vel.x + fmul(loss, b.vel.x as int) <= FX_MAX,
    ensures
        wall_pass_x(b, loss, width).0 == -(b.vel.x + fmul(loss, b.vel.x as int)),
{
    lemma_right_wall_bounce(b.vel.x as int, loss);
}

/// Reflect one component against a wall.
pub fn reflect(v: i64, loss: i64) -> (r: i64)
    ensures
        r == reflect_sp(v as int, loss as int),
        fx_ok(r),
{
    if v == 0 {
        return 0;
    }
    let lv: i64 = fx_mul(loss, v);
    if v > 0 {
        sat_i128(-(v as i128) - (lv as i128))
    } else {
        sat_i128(-(v as i128) + (lv as i128))
    }
}

/// Apply the quadratic drag increment to one acceleration component.
pub fn air(a: i64, ar: i64, v: i64, dt: i64) -> (r: i64)
    ensures
        r == air_sp(a as int, ar as int, v as int, dt as int),
        fx_ok(r),
{
    let term: i64 = fx_mul(fx_mul(fx_mul(ar, v), v), dt);
    if a > 0 {
        sat_i128(a as i128 - term as i128)
    } else {
        sat_i128(a as i128 + term as i128)
    }
}

/// Advance one body by `dt`, reflecting at walls and clamping the new
/// position into the world.
#[verifier::rlimit(50)]
pub fn step(b: &mut Body, dt: i64, cfg: &SimConfig, width: i64, height: i64, drag: Option<Vec2>)
    requires
        old(b).ok(),
        old(b).fits(width, height),
        cfg.ok(),
        1 <= dt <= FX_MAX,
        4 * FX_ONE <= width <= 1_000_000_000,
        4 * FX_ONE <= height <= 1_000_000_000,
    ensures
        *final(b) == step_sp(*old(b), dt as int, *cfg, width as int, height as int, drag),
        final(b).ok(),
        final(b).in_bounds(width, height),
        final(b).radius == old(b).radius,
        final(b).color == old(b).color,
        final(b).is_dragged == old(b).is_dragged,
{
    let lo_x: i64 = b.radius;
    let hi_x: i64 = width - FX_ONE - b.radius;
    let lo_y: i64 = b.radius;
    let hi_y: i64 = height - FX_ONE - b.radius;
    if b.is_dragged && drag.is_some() {
        let t: Vec2 = *drag.as_ref().unwrap();
        let vx: i64 = fx_div(fx_sub(t.x, b.pos.x), dt);
        let vy: i64 = fx_div(fx_sub(t.y, b.pos.y), dt);
        let py1: i64 = sat_i128(b.pos.y as i128 + fx_mul(vy, dt) as i128);
        let px1: i64 = sat_i128(b.pos.x as i128 + fx_mul(vx, dt) as i128);
        b.vel = Vec2 { x: vx, y: vy };
        b.pos = Vec2 { x: fx_clamp(px1, lo_x, hi_x), y: fx_clamp(py1, lo_y, hi_y) };
        return;
    }
    let loss: i64 = cfg.collide_loss;
    let ar: i64 = cfg.air_resistance;
    // Horizontal walls.
    if b.pos.x + b.radius + FX_ONE >= width {
        b.vel = Vec2 { x: reflect(b.vel.x, loss), y: b.vel.y };
        b.acc = Vec2 { x: reflect(b.acc.x, loss), y: b.acc.y };
    }
    if b.pos.x - b.radius - FX_ONE <= 0 {
        b.vel = Vec2 { x: reflect(b.vel.x, loss), y: b.vel.y };
        b.acc = Vec2 { x: reflect(b.acc.x, loss), y: b.acc.y };
    }
    // Floor under zero gravity, then the unconditional ceiling.
    if cfg.gravity == 0 && b.pos.y + b.radius + FX_ONE >= height {
        b.vel = Vec2 { x: b.vel.x, y: reflect(b.vel.y, loss) };
        b.acc = Vec2 { x: b.acc.x, y: reflect(b.acc.y, loss) };
    }
    if b.pos.y - b.radius - FX_ONE <= 0 {
        b.vel = Vec2 { x: b.vel.x, y: reflect(b.vel.y, loss) };
        b.acc = Vec2 { x: b.acc.x, y: reflect(b.acc.y, loss) };
    }
    proof {
        let wx = wall_pass_x(*old(b), loss as int, width as int);
        assert(b.vel.x == wx.0 && b.acc.x == wx.1);
    }
    // Gravity overrides the vertical acceleration and bounces on the floor.
    if cfg.gravity > 0 {
        b.acc = Vec2 { x: b.acc.x, y: cfg.gravity };
        if b.pos.y + b.radius + FX_ONE >= height {
            b.vel = Vec2 { x: b.vel.x, y: reflect(b.vel.y, loss) };
        }
    }
    proof {
        let wy = wall_pass_y(*old(b), *cfg, height as int);
        assert(b.vel.y == wy.0 && b.acc.y == wy.1);
    }
    // Quadratic drag against the acceleration direction.
    b.acc = Vec2 { x: air(b.acc.x, ar, b.vel.x, dt), y: air(b.acc.y, ar, b.vel.y, dt) };
    // Integrate velocity, damp the horizontal component, move, clamp.
    let vy4: i64 = sat_i128(b.vel.y as i128 + fx_mul(b.acc.y, dt) as i128);
    let vx4: i64 = sat_i128(b.vel.x as i128 + fx_mul(b.acc.x, dt) as i128);
    let factor: i64 = fx_sub(FX_ONE, fx_mul(ar, dt));
    let vx5: i64 = fx_mul(vx4, factor);
    b.vel = Vec2 { x: vx5, y: vy4 };
    let py1: i64 = sat_i128(b.pos.y as i128 + fx_mul(b.vel.y, dt) as i128);
    let px1: i64 = sat_i128(b.pos.x as i128 + fx_mul(b.vel.x, dt) as i128);
    b.pos = Vec2 { x: fx_clamp(px1, lo_x, hi_x), y: fx_clamp(py1, lo_y, hi_y) };
    proof {
        let s = free_step_sp(*old(b), dt as int, *cfg, width as int, height as int);
        assert(b.vel.x == s.vel.x && b.vel.y == s.vel.y);
        assert(b.acc.x == s.acc.x && b.acc.y == s.acc.y);
        assert(b.pos.x == s.pos.x && b.pos.y == s.pos.y);
    }
}

} // verus!

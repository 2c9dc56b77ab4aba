//! The integrator: rest bodies, wall bounces, gravity, drag targets.

use particle_physics::body::Body;
use particle_physics::config::SimConfig;
use particle_physics::integrate::{air, reflect, step};
use particle_physics::vec2::Vec2;

const W: i64 = 800_000;
const H: i64 = 600_000;

fn still_body(x: i64, y: i64, radius: i64) -> Body {
    Body {
        radius,
        pos: Vec2 { x, y },
        vel: Vec2 { x: 0, y: 0 },
        acc: Vec2 { x: 0, y: 0 },
        color: 0,
        is_dragged: false,
    }
}

#[test]
fn rest_body_stays_put_without_gravity() {
    let mut cfg = SimConfig::new();
    cfg.gravity = 0;
    let mut b = still_body(400_000, 300_000, 10_000);
    step(&mut b, 50, &cfg, W, H, None);
    assert_eq!(b.pos, Vec2 { x: 400_000, y: 300_000 });
    assert_eq!(b.vel, Vec2 { x: 0, y: 0 });
    assert_eq!(b.acc, Vec2 { x: 0, y: 0 });
}

#[test]
fn reflect_grows_incoming_speed_by_loss() {
    // Moving into the wall: the reflected speed is (1 + loss) times.
    assert_eq!(reflect(10_000, 400), -14_000);
    // Moving away already: reflected and shrunk by the loss instead.
    assert_eq!(reflect(-10_000, 400), 6_000);
    assert_eq!(reflect(0, 400), 0);
}

#[test]
fn right_wall_bounce_scales_velocity() {
    let mut cfg = SimConfig::new();
    cfg.gravity = 0;
    cfg.air_resistance = 0;
    let mut b = still_body(W - 11_000, 300_000, 10_000);
    b.vel = Vec2 { x: 10_000, y: 0 };
    step(&mut b, 50, &cfg, W, H, None);
    // -(10_000 + 0.4 * 10_000), untouched by the zeroed drag.
    assert_eq!(b.vel.x, -14_000);
    // It then moved one dt's worth to the left and stayed clamped.
    assert_eq!(b.pos.x, W - 11_000 - 700);
}

#[test]
fn gravity_accelerates_exactly() {
    let mut cfg = SimConfig::new();
    cfg.air_resistance = 0;
    let mut b = still_body(400_000, 100_000, 10_000);
    step(&mut b, 50, &cfg, W, H, None);
    assert_eq!(b.acc.y, 9_800);
    assert_eq!(b.vel.y, 490);
    assert_eq!(b.pos.y, 100_024);
    assert_eq!(b.pos.x, 400_000);
}

#[test]
fn position_clamped_into_world() {
    let mut cfg = SimConfig::new();
    cfg.gravity = 0;
    cfg.air_resistance = 0;
    cfg.collide_loss = 0;
    let mut b = still_body(400_000, 300_000, 10_000);
    b.vel = Vec2 { x: 0, y: 900_000 };
    step(&mut b, 1_000, &cfg, W, H, None);
    // One full second at huge speed: clamped to the floor band.
    assert_eq!(b.pos.y, H - 1_000 - 10_000);
}

#[test]
fn dragged_body_chases_target() {
    let cfg = SimConfig::new();
    let mut b = still_body(100_000, 100_000, 10_000);
    b.is_dragged = true;
    let target = Vec2 { x: 250_000, y: 180_000 };
    step(&mut b, 1_000, &cfg, W, H, Some(target));
    // dt of one second: velocity is the full offset, position lands on it.
    assert_eq!(b.vel, Vec2 { x: 150_000, y: 80_000 });
    assert_eq!(b.pos, target);
    // Acceleration untouched in the dragged branch.
    assert_eq!(b.acc, Vec2 { x: 0, y: 0 });
}

#[test]
fn drag_term_opposes_acceleration_direction() {
    // acc positive: the term is subtracted; acc zero or negative: added.
    assert_eq!(air(1_000, 50, 2_000, 50), 990);
    assert_eq!(air(-1_000, 50, 2_000, 50), -990);
    assert_eq!(air(0, 50, 2_000, 50), 10);
}

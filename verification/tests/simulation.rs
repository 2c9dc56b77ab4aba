//! The simulation facade: spawning, dragging, hit tests, ticks and
//! reproducibility.

use particle_physics::body::Body;
use particle_physics::config::SimConfig;
use particle_physics::constraint::SimError;
use particle_physics::sim::Simulation;
use particle_physics::vec2::Vec2;

fn world() -> Simulation {
    Simulation::new(800_000, 600_000, 50_000)
}

#[test]
fn config_defaults() {
    let c = SimConfig::new();
    assert_eq!(c.gravity, 9_800);
    assert_eq!(c.speed_factor, 3_000);
    assert_eq!(c.air_resistance, 50);
    assert_eq!(c.collide_loss, 400);
    assert_eq!(c.spring_const, 100);
    assert_eq!(c.damp_const, 50);
    assert_eq!(c.default_radius, 10_000);
    assert_eq!(c.default_link_length, 20_000);
}

#[test]
fn spawn_ids_are_indices() {
    let mut sim = world();
    let a = sim.spawn_circle(10_000, 0xFF00_00FF, Vec2 { x: 100_000, y: 100_000 });
    let b = sim.spawn_circle(15_000, 0x00FF_00FF, Vec2 { x: 300_000, y: 200_000 });
    assert_eq!(a, 0);
    assert_eq!(b, 1);
    assert_eq!(sim.body_count(), 2);
    assert_eq!(sim.body(1).radius, 15_000);
    assert_eq!(sim.body(1).color, 0x00FF_00FF);
    assert_eq!(sim.body(0).pos, Vec2 { x: 100_000, y: 100_000 });
}

#[test]
fn drag_flag_is_latched() {
    let mut sim = world();
    let id = sim.spawn_circle(10_000, 0, Vec2 { x: 100_000, y: 100_000 });
    assert!(!sim.body(id).is_dragged);
    sim.set_drag(id, true);
    assert!(sim.body(id).is_dragged);
    sim.set_drag(id, false);
    assert!(!sim.body(id).is_dragged);
}

#[test]
fn body_at_returns_first_hit() {
    let mut sim = world();
    sim.spawn_circle(10_000, 0, Vec2 { x: 100_000, y: 100_000 });
    sim.spawn_circle(10_000, 0, Vec2 { x: 105_000, y: 100_000 });
    assert_eq!(sim.body_at(Vec2 { x: 104_000, y: 100_000 }), Some(0));
    assert_eq!(sim.body_at(Vec2 { x: 114_000, y: 100_000 }), Some(1));
    assert_eq!(sim.body_at(Vec2 { x: 400_000, y: 400_000 }), None);
    // On the rim counts as a hit.
    assert_eq!(sim.body_at(Vec2 { x: 90_000, y: 100_000 }), Some(0));
}

#[test]
fn rest_scene_is_fixed_by_tick() {
    let mut sim = world();
    sim.config.gravity = 0;
    sim.spawn_circle(10_000, 0, Vec2 { x: 200_000, y: 200_000 });
    sim.spawn_circle(10_000, 0, Vec2 { x: 500_000, y: 400_000 });
    sim.tick(50, None);
    assert_eq!(sim.body(0).pos, Vec2 { x: 200_000, y: 200_000 });
    assert_eq!(sim.body(1).pos, Vec2 { x: 500_000, y: 400_000 });
}

#[test]
fn ticks_are_reproducible_without_contacts() {
    let mut first = world();
    let mut second = world();
    for sim in [&mut first, &mut second] {
        sim.spawn_circle(10_000, 0, Vec2 { x: 200_000, y: 100_000 });
        sim.spawn_circle(14_000, 0, Vec2 { x: 500_000, y: 150_000 });
        let _ = sim.create_rope(Vec2 { x: 650_000, y: 50_000 }, 100_000, 10);
    }
    for _ in 0..20 {
        first.tick(50, None);
        second.tick(50, None);
    }
    assert_eq!(first.body_count(), second.body_count());
    for i in 0..first.body_count() {
        assert_eq!(first.body(i).pos, second.body(i).pos, "body {}", i);
        assert_eq!(first.body(i).vel, second.body(i).vel, "body {}", i);
    }
}

#[test]
fn tick_integrates_gravity_exactly() {
    let mut sim = world();
    sim.spawn_circle(10_000, 0, Vec2 { x: 400_000, y: 100_000 });
    sim.tick(50, None);
    // One lone body: the frame is exactly the integration pass.
    assert_eq!(sim.body(0).acc.y, 9_800);
    assert_eq!(sim.body(0).vel.y, 490);
    assert_eq!(sim.body(0).pos, Vec2 { x: 400_000, y: 100_024 });
}

#[test]
fn tick_resolves_overlapping_pair() {
    let mut sim = world();
    sim.config.gravity = 0;
    sim.spawn_circle(10_000, 0, Vec2 { x: 200_000, y: 200_000 });
    sim.spawn_circle(10_000, 0, Vec2 { x: 215_000, y: 200_000 });
    let before = sim.body(1).pos.x - sim.body(0).pos.x;
    sim.tick(50, None);
    let after = sim.body(1).pos.x - sim.body(0).pos.x;
    // The pair overlapped by five units; the tick pushed them apart.
    assert_eq!(before, 15_000);
    assert!(after > before, "gap should widen, got {} -> {}", before, after);
    assert_eq!(sim.body_count(), 2);
}

#[test]
fn tick_keeps_bodies_inside_world() {
    let mut sim = world();
    sim.spawn_circle(10_000, 0, Vec2 { x: 400_000, y: 60_000 });
    for _ in 0..600 {
        sim.tick(50, None);
    }
    let b: Body = sim.body(0);
    assert!(b.pos.x >= 10_000 && b.pos.x <= 800_000 - 1_000 - 10_000);
    assert!(b.pos.y >= 10_000 && b.pos.y <= 600_000 - 1_000 - 10_000);
}

#[test]
fn builders_through_the_simulation() {
    let mut sim = world();
    assert_eq!(sim.create_rope(Vec2 { x: 400_000, y: 100_000 }, 100_000, 0), Err(
        SimError::ZeroSegments,
    ));
    assert_eq!(sim.create_softbody(0, 100_000, 10_000, Vec2 { x: 400_000, y: 300_000 }), Err(
        SimError::ZeroCount,
    ));
    assert_eq!(sim.body_count(), 0);
    assert!(sim.create_rope(Vec2 { x: 400_000, y: 100_000 }, 100_000, 10).is_ok());
    assert_eq!(sim.body_count(), 12);
    assert_eq!(sim.static_link_count(), 11);
    assert!(sim.create_softbody(6, 100_000, 5_000, Vec2 { x: 400_000, y: 300_000 }).is_ok());
    assert_eq!(sim.body_count(), 18);
    assert_eq!(sim.static_link_count(), 17);
    assert!(sim.create_spring_softbody(5, 80_000, 5_000, Vec2 { x: 300_000, y: 300_000 }).is_ok());
    assert_eq!(sim.body_count(), 23);
    assert_eq!(sim.link_count(), 5);
    // A frame over the whole scene holds together.
    sim.tick(50, None);
    assert_eq!(sim.body_count(), 23);
    assert_eq!(sim.link_count(), 5);
    assert_eq!(sim.static_link_count(), 17);
}

#[test]
fn pointer_links_use_default_or_measured_rest() {
    let mut sim = world();
    sim.spawn_circle(10_000, 0, Vec2 { x: 100_000, y: 100_000 });
    sim.spawn_circle(10_000, 0, Vec2 { x: 160_000, y: 180_000 });
    sim.add_spring_link(0, 1);
    assert_eq!(sim.link_count(), 1);
    assert_eq!(sim.link(0).rest_length, 20_000);
    sim.add_rigid_link(0, 1);
    assert_eq!(sim.static_link_count(), 1);
    // Measured: sqrt(60^2 + 80^2) = 100 units.
    assert_eq!(sim.static_link(0).rest_length, 100_000);
}

#[test]
fn dragged_body_follows_pointer_through_tick() {
    let mut sim = world();
    let id = sim.spawn_circle(10_000, 0, Vec2 { x: 100_000, y: 100_000 });
    sim.set_drag(id, true);
    sim.tick(1_000, Some(Vec2 { x: 250_000, y: 180_000 }));
    assert_eq!(sim.body(id).pos, Vec2 { x: 250_000, y: 180_000 });
}

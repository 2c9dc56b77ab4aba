//! Composite builders and the two constraint kinds.

use particle_physics::body::Body;
use particle_physics::config::SimConfig;
use particle_physics::constraint::{
    apply_spring, apply_static_link, create_rope, create_softbody, create_spring_softbody, Link,
    SimError, StaticLink,
};
use particle_physics::vec2::Vec2;

fn resting(x: i64, y: i64) -> Body {
    Body {
        radius: 10_000,
        pos: Vec2 { x, y },
        vel: Vec2 { x: 0, y: 0 },
        acc: Vec2 { x: 0, y: 0 },
        color: 0,
        is_dragged: false,
    }
}

#[test]
fn rope_has_expected_bodies_and_links() {
    let mut bodies: Vec<Body> = Vec::new();
    let mut slinks: Vec<StaticLink> = Vec::new();
    let anchor = Vec2 { x: 400_000, y: 300_000 };
    let r = create_rope(&mut bodies, &mut slinks, anchor, 100_000, 10);
    assert!(r.is_ok());
    assert_eq!(bodies.len(), 12);
    assert_eq!(slinks.len(), 11);
    for (i, l) in slinks.iter().enumerate() {
        assert_eq!(l.body_a, i);
        assert_eq!(l.body_b, i + 1);
        assert_eq!(l.rest_length, 10_000);
    }
    for (i, b) in bodies.iter().enumerate() {
        assert_eq!(b.radius, 1_000);
        assert_eq!(b.pos.x, 400_000);
        assert_eq!(b.pos.y, 300_000 + (i as i64) * 10_000);
        assert_eq!(b.vel, Vec2 { x: 0, y: 0 });
    }
}

#[test]
fn rope_rejects_zero_segments() {
    let mut bodies: Vec<Body> = vec![resting(1_000, 1_000)];
    let mut slinks: Vec<StaticLink> = Vec::new();
    let r = create_rope(&mut bodies, &mut slinks, Vec2 { x: 0, y: 0 }, 100_000, 0);
    assert_eq!(r, Err(SimError::ZeroSegments));
    assert_eq!(bodies.len(), 1);
    assert_eq!(slinks.len(), 0);
}

#[test]
fn softbody_ring_counts_and_rest_length() {
    let mut bodies: Vec<Body> = Vec::new();
    let mut slinks: Vec<StaticLink> = Vec::new();
    let center = Vec2 { x: 400_000, y: 300_000 };
    let r = create_softbody(&mut bodies, &mut slinks, 4, 100_000, 10_000, center);
    assert!(r.is_ok());
    assert_eq!(bodies.len(), 4);
    assert_eq!(slinks.len(), 4);
    // rest = circumference / count = (2 pi r) / 4 in fixed point.
    let rest = slinks[0].rest_length;
    assert_eq!(rest, 157_100);
    assert_eq!(slinks[3], StaticLink { body_a: 0, body_b: 3, rest_length: rest });
    // First body sits at angle zero: one ring radius to the right; the
    // second a quarter turn later, one ring radius down the y axis.
    assert_eq!(bodies[0].pos, Vec2 { x: 500_000, y: 300_000 });
    assert_eq!(bodies[1].pos, Vec2 { x: 400_000, y: 400_000 });
    for b in bodies.iter() {
        assert_eq!(b.radius, 10_000);
    }
}

#[test]
fn spring_softbody_mirrors_rigid_one() {
    let mut bodies: Vec<Body> = Vec::new();
    let mut links: Vec<Link> = Vec::new();
    let center = Vec2 { x: 400_000, y: 300_000 };
    let r = create_spring_softbody(&mut bodies, &mut links, 6, 100_000, 10_000, center);
    assert!(r.is_ok());
    assert_eq!(bodies.len(), 6);
    assert_eq!(links.len(), 6);
    assert_eq!(links[5].body_a, 0);
    assert_eq!(links[5].body_b, 5);
    let mut bodies2: Vec<Body> = Vec::new();
    let mut links2: Vec<Link> = Vec::new();
    let r2 = create_spring_softbody(&mut bodies2, &mut links2, 0, 100_000, 10_000, center);
    assert_eq!(r2, Err(SimError::ZeroCount));
    assert_eq!(bodies2.len(), 0);
}

#[test]
fn spring_at_rest_length_gives_no_force() {
    let mut bodies = vec![resting(100_000, 100_000), resting(160_000, 100_000)];
    let cfg = SimConfig::new();
    // Distance is exactly the rest length and nothing moves: no spring
    // force and no damping, so the accelerations stay zero.
    apply_spring(&mut bodies, 0, 1, 60_000, &cfg);
    assert_eq!(bodies[0].acc, Vec2 { x: 0, y: 0 });
    assert_eq!(bodies[1].acc, Vec2 { x: 0, y: 0 });
    assert_eq!(bodies[0].pos, Vec2 { x: 100_000, y: 100_000 });
}

#[test]
fn spring_at_rest_length_damps_relative_velocity() {
    let mut bodies = vec![resting(100_000, 100_000), resting(160_000, 100_000)];
    bodies[1].vel = Vec2 { x: 1_000, y: 0 };
    let cfg = SimConfig::new();
    apply_spring(&mut bodies, 0, 1, 60_000, &cfg);
    // Only the damping term remains: (v2 - v1) * damp * 0.1 = 5.
    assert_eq!(bodies[0].acc, Vec2 { x: -5, y: 0 });
    assert_eq!(bodies[1].acc, Vec2 { x: 5, y: 0 });
}

#[test]
fn stretched_spring_pulls_bodies_together() {
    let mut bodies = vec![resting(100_000, 100_000), resting(180_000, 100_000)];
    let cfg = SimConfig::new();
    // Distance 80, rest 60: force = 20 * 0.1 = 2 along +x toward b2.
    apply_spring(&mut bodies, 0, 1, 60_000, &cfg);
    assert_eq!(bodies[0].acc, Vec2 { x: 2_000, y: 0 });
    assert_eq!(bodies[1].acc, Vec2 { x: -2_000, y: 0 });
}

#[test]
fn coincident_spring_is_skipped() {
    // The degenerate-distance policy: coincident centers leave both
    // bodies untouched rather than dividing by zero.
    let mut bodies = vec![resting(100_000, 100_000), resting(100_000, 100_000)];
    let cfg = SimConfig::new();
    apply_spring(&mut bodies, 0, 1, 60_000, &cfg);
    assert_eq!(bodies[0].acc, Vec2 { x: 0, y: 0 });
    assert_eq!(bodies[1].acc, Vec2 { x: 0, y: 0 });
}

#[test]
fn static_link_splits_the_error_per_axis() {
    let mut bodies = vec![resting(100_000, 100_000), resting(140_000, 100_000)];
    // Distance 40, rest 20: offset 10 on each axis, applied on x and on
    // y independently — the axis-split relaxation, not a vector one.
    apply_static_link(&mut bodies, 0, 1, 20_000);
    assert_eq!(bodies[0].pos, Vec2 { x: 110_000, y: 90_000 });
    assert_eq!(bodies[1].pos, Vec2 { x: 130_000, y: 110_000 });
    // Velocities and accelerations are untouched by a rigid link.
    assert_eq!(bodies[0].vel, Vec2 { x: 0, y: 0 });
}

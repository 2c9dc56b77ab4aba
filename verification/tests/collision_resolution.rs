//! Narrow-phase resolution: exact separation, normal projection, and the
//! bounded random jitter for near-coincident centers.

use particle_physics::body::Body;
use particle_physics::collision::{resolve, resolve_overlap, resolve_pair};
use particle_physics::vec2::{dist, Vec2};

fn body_at(x: i64, y: i64, vx: i64, vy: i64) -> Body {
    Body {
        radius: 10_000,
        pos: Vec2 { x, y },
        vel: Vec2 { x: vx, y: vy },
        acc: Vec2 { x: 777, y: -777 },
        color: 0,
        is_dragged: false,
    }
}

#[test]
fn overlap_separates_to_radius_sum() {
    // Centers 15 apart, radii 10 + 10: overlap 5.
    let mut bodies = vec![body_at(100_000, 100_000, 5_000, 3_000), body_at(
        115_000,
        100_000,
        -2_000,
        7_000,
    )];
    resolve_overlap(&mut bodies, 0, 1);
    assert_eq!(bodies[0].pos, Vec2 { x: 97_503, y: 100_000 });
    assert_eq!(bodies[1].pos, Vec2 { x: 117_497, y: 100_000 });
    // Post-resolution distance is the radius sum up to fixed-point
    // truncation: 19_994 against 20_000, six thousandths of a unit shy.
    let gap = dist(bodies[0].pos, bodies[1].pos);
    assert_eq!(gap, 19_994);
    assert!((20_000 - gap).abs() <= 10);
}

#[test]
fn velocity_keeps_only_normal_component() {
    let mut bodies = vec![body_at(100_000, 100_000, 5_000, 3_000), body_at(
        115_000,
        100_000,
        -2_000,
        7_000,
    )];
    resolve_overlap(&mut bodies, 0, 1);
    // The contact normal is horizontal: tangential (y) velocity is gone.
    assert_eq!(bodies[0].vel, Vec2 { x: 5_000, y: 0 });
    assert_eq!(bodies[1].vel, Vec2 { x: -2_000, y: 0 });
    // Accelerations are cleared on contact.
    assert_eq!(bodies[0].acc, Vec2 { x: 0, y: 0 });
    assert_eq!(bodies[1].acc, Vec2 { x: 0, y: 0 });
}

#[test]
fn coincident_centers_get_bounded_jitter() {
    let mut bodies = vec![body_at(200_000, 200_000, 4_000, -4_000), body_at(
        200_000,
        200_000,
        -1_000,
        2_000,
    )];
    resolve_pair(&mut bodies, 0, 1);
    // Each body moved at most one unit per axis, velocity and
    // acceleration untouched, and nothing divided by the zero distance.
    for (i, b) in bodies.iter().enumerate() {
        assert!((b.pos.x - 200_000).abs() <= 1_000, "body {} x jitter", i);
        assert!((b.pos.y - 200_000).abs() <= 1_000, "body {} y jitter", i);
    }
    assert_eq!(bodies[0].vel, Vec2 { x: 4_000, y: -4_000 });
    assert_eq!(bodies[1].vel, Vec2 { x: -1_000, y: 2_000 });
    assert_eq!(bodies[0].acc, Vec2 { x: 777, y: -777 });
    assert_eq!(bodies[1].acc, Vec2 { x: 777, y: -777 });
}

#[test]
fn near_but_not_coincident_still_jitters() {
    // Distance under one unit: the directional correction would divide by
    // a near-zero distance, so the jitter path must be taken.
    let mut bodies = vec![body_at(200_000, 200_000, 0, 0), body_at(200_600, 200_500, 0, 0)];
    resolve_pair(&mut bodies, 0, 1);
    assert!((bodies[0].pos.x - 200_000).abs() <= 1_000);
    assert!((bodies[1].pos.x - 200_600).abs() <= 1_000);
    assert_eq!(bodies[0].vel, Vec2 { x: 0, y: 0 });
}

#[test]
fn uninvolved_body_is_untouched() {
    // A body in no emitted pair keeps position, velocity and
    // acceleration bit for bit.
    let mut bodies = vec![body_at(100_000, 100_000, 5_000, 3_000), body_at(
        115_000,
        100_000,
        -2_000,
        7_000,
    ), body_at(300_000, 300_000, 1_000, 1_000)];
    let pairs = vec![(0usize, 1usize)];
    resolve(&mut bodies, &pairs);
    assert_eq!(bodies[2], body_at(300_000, 300_000, 1_000, 1_000));
    assert_ne!(bodies[0].pos, Vec2 { x: 100_000, y: 100_000 });
}

#[test]
fn resolve_applies_each_emitted_pair() {
    // The same pair twice: the correction is applied twice, as the
    // broad phase's duplicated emissions demand.
    let mut once = vec![body_at(100_000, 100_000, 0, 0), body_at(115_000, 100_000, 0, 0)];
    resolve_overlap(&mut once, 0, 1);
    let first_gap = once[1].pos.x - once[0].pos.x;
    let mut twice = vec![body_at(100_000, 100_000, 0, 0), body_at(115_000, 100_000, 0, 0)];
    let pairs = vec![(0usize, 1usize), (0usize, 1usize)];
    resolve(&mut twice, &pairs);
    let second_gap = twice[1].pos.x - twice[0].pos.x;
    assert_eq!(first_gap, 19_994);
    // After the first application the remaining six-thousandths overlap
    // rounds to a zero correction, so the doubled emission stands pat.
    assert_eq!(second_gap, 19_994);
    // An empty pair list changes nothing.
    let mut empty = vec![body_at(1_000, 1_000, 9, 9)];
    resolve(&mut empty, &Vec::new());
    assert_eq!(empty[0].pos, Vec2 { x: 1_000, y: 1_000 });
}

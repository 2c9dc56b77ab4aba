//! The uniform-grid broad phase: dimensions, binning and pair emission.

use particle_physics::body::Body;
use particle_physics::grid::SpatialGrid;
use particle_physics::vec2::Vec2;

fn still(x: i64, y: i64) -> Body {
    Body {
        radius: 10_000,
        pos: Vec2 { x, y },
        vel: Vec2 { x: 0, y: 0 },
        acc: Vec2 { x: 0, y: 0 },
        color: 0,
        is_dragged: false,
    }
}

#[test]
fn grid_dimensions_round_up() {
    let g = SpatialGrid::new(800_000, 600_000, 50_000);
    assert_eq!(g.nx, 16);
    assert_eq!(g.ny, 12);
    let g2 = SpatialGrid::new(800_000, 600_000, 70_000);
    assert_eq!(g2.nx, 12);
    assert_eq!(g2.ny, 9);
}

#[test]
fn touching_pair_across_cells_is_emitted_both_ways() {
    let mut g = SpatialGrid::new(800_000, 600_000, 50_000);
    // Two circles straddling the boundary between cells 3 and 4, plus a
    // far-away third.
    let bodies = vec![still(195_000, 100_000), still(205_000, 100_000), still(400_000, 400_000)];
    g.insert(bodies[0].pos, 0);
    g.insert(bodies[1].pos, 1);
    g.insert(bodies[2].pos, 2);
    let pairs = g.candidate_pairs(&bodies);
    // Each side of the contact emits once; the far body pairs with nobody.
    assert!(pairs.contains(&(0, 1)));
    assert!(pairs.contains(&(1, 0)));
    assert_eq!(pairs.len(), 2);
}

#[test]
fn separated_bodies_produce_no_pairs() {
    let mut g = SpatialGrid::new(800_000, 600_000, 50_000);
    let bodies = vec![still(100_000, 100_000), still(130_000, 100_000)];
    // Same cell, but 30 apart with radii 10 + 10: no overlap, no pair.
    g.insert(bodies[0].pos, 0);
    g.insert(bodies[1].pos, 1);
    assert_eq!(g.candidate_pairs(&bodies).len(), 0);
}

#[test]
fn reset_empties_every_cell() {
    let mut g = SpatialGrid::new(800_000, 600_000, 50_000);
    let bodies = vec![still(195_000, 100_000), still(205_000, 100_000)];
    g.insert(bodies[0].pos, 0);
    g.insert(bodies[1].pos, 1);
    assert_eq!(g.candidate_pairs(&bodies).len(), 2);
    g.reset();
    assert_eq!(g.candidate_pairs(&bodies).len(), 0);
}

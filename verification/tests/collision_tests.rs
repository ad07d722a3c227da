use softbody2d::sim::SimulationState;
use softbody2d::state::{Obstacle, SimConfig};

/// Reflection energy invariance: a particle falling head-on into a circle
/// rebounds with exactly its incoming speed. The particle accelerates
/// under gravity, penetrates, is pushed to the surface and leaves with
/// the opposite velocity; every position is an exact integer.
#[test]
fn head_on_bounce_preserves_speed() {
    let cfg = SimConfig { damping: 0, gravity_x: 0, gravity_y: 100, cutoff: 0 };
    let obstacles = vec![Obstacle::Circle { cx: 0, cy: 2000, radius: 1000 }];
    let mut s = SimulationState::new(1, 1, 0, 0, 0, cfg, obstacles);
    // velocity 100 n after n full time units; y: 100, 300, 600, 1000
    s.step(1000);
    assert_eq!(s.positions(), vec![(0, 100)]);
    s.step(1000);
    assert_eq!(s.positions(), vec![(0, 300)]);
    s.step(1000);
    assert_eq!(s.positions(), vec![(0, 600)]);
    s.step(1000);
    // exactly on the surface: distance 1000 equals the radius, no contact
    assert_eq!(s.positions(), vec![(0, 1000)]);
    s.step(1000);
    // velocity 500 carries it to y = 1500, 500 deep; it is pushed back to
    // the surface and its velocity flips from +500 to -500 exactly
    assert_eq!(s.positions(), vec![(0, 1000)]);
    s.step(1000);
    // gravity decays the rebound: v = -500 + 100 = -400
    assert_eq!(s.positions(), vec![(0, 600)]);
}

/// Containment: with a circular obstacle in the path, after every step no
/// particle is strictly inside it.
#[test]
fn no_particle_ends_a_step_inside_the_circle() {
    let cfg = SimConfig { damping: 1, gravity_x: 0, gravity_y: 98, cutoff: 10_000 };
    let (cx, cy, radius) = (10_000i64, 40_000i64, 8000i64);
    let obstacles = vec![Obstacle::Circle { cx, cy, radius }];
    let mut s = SimulationState::new(3, 3, 5000, 10, 5000, cfg, obstacles);
    for _ in 0..200 {
        s.step(16);
        for (x, y) in s.positions() {
            let dx = x - cx;
            let dy = y - cy;
            assert!(dx * dx + dy * dy >= radius * radius);
        }
    }
}

/// A particle inside a box is pushed out through the nearest face and the
/// velocity component along that face's normal is flipped.
#[test]
fn box_pushes_through_nearest_face() {
    let cfg = SimConfig { damping: 0, gravity_x: 0, gravity_y: 0, cutoff: 0 };
    let obstacles = vec![Obstacle::Aabb { cx: 100, cy: 0, hx: 500, hy: 300 }];
    let mut s = SimulationState::new(1, 1, 0, 0, 0, cfg, obstacles);
    // at (0,0): 400 deep in x, 300 deep in y; y is the lesser penetration
    s.step(1000);
    assert_eq!(s.positions(), vec![(0, 300)]);
    // outside now: nothing more happens
    s.step(1000);
    assert_eq!(s.positions(), vec![(0, 300)]);
}

/// The degenerate contact: a particle exactly at a circle's center is
/// pushed out along the fixed upward normal.
#[test]
fn particle_at_circle_center_uses_fixed_normal() {
    let cfg = SimConfig { damping: 0, gravity_x: 0, gravity_y: 0, cutoff: 0 };
    let obstacles = vec![Obstacle::Circle { cx: 0, cy: 0, radius: 1000 }];
    let mut s = SimulationState::new(1, 1, 0, 0, 0, cfg, obstacles);
    s.step(1000);
    assert_eq!(s.positions(), vec![(0, 1000)]);
}

/// Obstacles are resolved sequentially in store order: the last one in
/// the store has the final say on a particle caught by several.
#[test]
fn sequential_resolution_in_store_order() {
    let cfg = SimConfig { damping: 0, gravity_x: 0, gravity_y: 0, cutoff: 0 };
    // both contain the origin; the circle is resolved second
    let obstacles = vec![
        Obstacle::Aabb { cx: 100, cy: 0, hx: 500, hy: 300 },
        Obstacle::Circle { cx: 0, cy: 200, radius: 1000 },
    ];
    let mut s = SimulationState::new(1, 1, 0, 0, 0, cfg, obstacles);
    s.step(1000);
    // the box pushes (0,0) to (0,300); inside the circle, offset (0,100),
    // it is pushed on to the circle's surface at (0, 1200)
    assert_eq!(s.positions(), vec![(0, 1200)]);
    let (x, y) = s.positions()[0];
    assert!(x * x + (y - 200) * (y - 200) >= 1000 * 1000);
}

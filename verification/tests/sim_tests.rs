use softbody2d::sim::{stable_timestep, SimulationState};
use softbody2d::state::{Obstacle, SimConfig};

fn quiet(cutoff: i64) -> SimConfig {
    SimConfig { damping: 0, gravity_x: 0, gravity_y: 0, cutoff }
}

/// The equilibrium scenario: a 2 x 2 grid at spacing 5000, stiffness 10,
/// rest length 5000, no damping, no gravity, no obstacles, stepped 100
/// times with dt = 10, stays exactly where it was built.
#[test]
fn grid_2x2_at_rest_length_never_moves() {
    let mut s = SimulationState::new(2, 2, 5000, 10, 5000, quiet(1_000_000), vec![]);
    let initial = s.positions();
    assert_eq!(initial, vec![(0, 0), (5000, 0), (0, 5000), (5000, 5000)]);
    for _ in 0..100 {
        s.step(10);
    }
    assert_eq!(s.positions(), initial);
}

/// The grid is laid out in row-major order with the given spacing.
#[test]
fn grid_initial_layout() {
    let s = SimulationState::new(2, 3, 100, 1, 100, quiet(1000), vec![]);
    assert_eq!(s.particle_count(), 6);
    assert_eq!(
        s.positions(),
        vec![(0, 0), (100, 0), (200, 0), (0, 100), (100, 100), (200, 100)]
    );
    let bonds = s.bonds();
    assert_eq!(bonds.len(), 7);
}

/// Free fall under gravity: velocity grows by g each full time unit and
/// position by the new velocity, exactly.
#[test]
fn free_fall_exact_positions() {
    let cfg = SimConfig { damping: 0, gravity_x: 0, gravity_y: 98, cutoff: 0 };
    let mut s = SimulationState::new(1, 1, 0, 0, 0, cfg, vec![]);
    s.step(1000);
    assert_eq!(s.positions(), vec![(0, 98)]);
    s.step(1000);
    assert_eq!(s.positions(), vec![(0, 98 + 196)]);
    s.step(1000);
    assert_eq!(s.positions(), vec![(0, 98 + 196 + 294)]);
}

/// A stretched bond pulls both particles together by the exact spring
/// formula, integrated semi-implicitly.
#[test]
fn stretched_pair_exact_step() {
    // two particles 2000 apart, rest length 1000, stiffness 10, dt 10
    let mut s = SimulationState::new(1, 2, 2000, 10, 1000, quiet(1_000_000), vec![]);
    s.step(10);
    // scalar 10 * (2000 - 1000) = 10000; dv = 10000 * 10 / 1000 = 100;
    // dx = 100 * 10 / 1000 = 1
    assert_eq!(s.positions(), vec![(1, 0), (1999, 0)]);
}

/// A bond stretched past the interaction cutoff is slack: nothing moves.
#[test]
fn slack_pair_never_moves() {
    let mut s = SimulationState::new(1, 2, 2000, 10, 1000, quiet(1500), vec![]);
    for _ in 0..10 {
        s.step(1000);
    }
    assert_eq!(s.positions(), vec![(0, 0), (2000, 0)]);
}

/// A grid built at spacing zero is fully degenerate: every bond has zero
/// distance, so no spring force applies and nothing moves.
#[test]
fn coincident_grid_never_moves() {
    let mut s = SimulationState::new(2, 2, 0, 10, 0, quiet(1_000_000), vec![]);
    for _ in 0..5 {
        s.step(1000);
    }
    assert_eq!(s.positions(), vec![(0, 0); 4]);
}

/// Determinism: two simulations built with identical parameters and
/// stepped identically produce bit-identical position sequences.
#[test]
fn identical_runs_agree_exactly() {
    let obstacles = vec![
        Obstacle::Circle { cx: 5000, cy: 9000, radius: 2500 },
        Obstacle::Aabb { cx: 0, cy: 20_000, hx: 50_000, hy: 5000 },
    ];
    let cfg = SimConfig { damping: 1, gravity_x: 0, gravity_y: 98, cutoff: 10_000 };
    let mut a = SimulationState::new(4, 5, 5000, 10, 5000, cfg, obstacles.clone());
    let mut b = SimulationState::new(4, 5, 5000, 10, 5000, cfg, obstacles);
    for _ in 0..50 {
        a.step(16);
        b.step(16);
    }
    assert_eq!(a.positions(), b.positions());
}

/// The obstacle store is exposed unchanged for the renderer.
#[test]
fn obstacle_snapshot_matches_construction() {
    let obstacles = vec![
        Obstacle::Circle { cx: 250_000, cy: 500_000, radius: 40_000 },
        Obstacle::Aabb { cx: 100_000, cy: 300_000, hx: 100_000, hy: 200_000 },
    ];
    let s = SimulationState::new(1, 1, 0, 0, 0, quiet(0), obstacles.clone());
    assert_eq!(s.obstacles(), obstacles);
}

/// The stability boundary dt < 2 / sqrt(stiffness): in ticks,
/// stiffness * dt * dt < 4 * 1000 * 1000, strictly.
#[test]
fn stability_check_boundary() {
    assert!(stable_timestep(10, 10));
    assert!(stable_timestep(0, 1000));
    // exactly on the boundary counts as unstable
    assert!(!stable_timestep(40_000, 10));
    assert!(stable_timestep(39_999, 10));
    assert!(!stable_timestep(1_000_000, 1000));
}

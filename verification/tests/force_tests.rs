use softbody2d::forces::compute_forces;
use softbody2d::state::{Bond, Particle, SimConfig};

fn no_gravity(damping: i64, cutoff: i64) -> SimConfig {
    SimConfig { damping, gravity_x: 0, gravity_y: 0, cutoff }
}

/// Momentum conservation per bond: for a single isolated bonded pair with
/// no gravity, the two applied forces sum to exactly zero.
#[test]
fn bonded_pair_forces_cancel() {
    let ps = vec![
        Particle { x: 0, y: 0, vx: 0, vy: 0 },
        Particle { x: 2000, y: 900, vx: 0, vy: 0 },
    ];
    let bonds = vec![Bond { i: 0, j: 1, rest: 1000, stiffness: 10 }];
    let fs = compute_forces(&ps, &bonds, &no_gravity(0, 1_000_000));
    assert_eq!(fs.len(), 2);
    assert_eq!(fs[0].0 + fs[1].0, 0);
    assert_eq!(fs[0].1 + fs[1].1, 0);
    assert!(fs[0].0 != 0 || fs[0].1 != 0);
}

/// The exact spring formula: a stretched horizontal bond of stiffness 10,
/// rest length 1000 at distance 2000 pulls with scalar 10 * (2000 - 1000).
#[test]
fn stretched_bond_exact_force() {
    let ps = vec![
        Particle { x: 0, y: 0, vx: 0, vy: 0 },
        Particle { x: 2000, y: 0, vx: 0, vy: 0 },
    ];
    let bonds = vec![Bond { i: 0, j: 1, rest: 1000, stiffness: 10 }];
    let fs = compute_forces(&ps, &bonds, &no_gravity(0, 1_000_000));
    assert_eq!(fs[0], (10_000, 0));
    assert_eq!(fs[1], (-10_000, 0));
}

/// The damping term: relative velocity along the bond adds
/// damping * dot(vel_j - vel_i, d) / r to the scalar.
#[test]
fn damped_bond_exact_force() {
    let ps = vec![
        Particle { x: 0, y: 0, vx: 0, vy: 0 },
        Particle { x: 2000, y: 0, vx: -1000, vy: 0 },
    ];
    let bonds = vec![Bond { i: 0, j: 1, rest: 1000, stiffness: 10 }];
    let fs = compute_forces(&ps, &bonds, &no_gravity(2, 1_000_000));
    // scalar = 10 * (2000 - 1000) + (2 * (-1000 * 2000)) / 2000 = 8000
    assert_eq!(fs[0], (8000, 0));
    assert_eq!(fs[1], (-8000, 0));
}

/// A bond at or beyond the cutoff distance is slack and exerts nothing.
#[test]
fn overstretched_bond_is_slack() {
    let ps = vec![
        Particle { x: 0, y: 0, vx: 0, vy: 0 },
        Particle { x: 2000, y: 0, vx: 0, vy: 0 },
    ];
    let bonds = vec![Bond { i: 0, j: 1, rest: 1000, stiffness: 10 }];
    let fs = compute_forces(&ps, &bonds, &no_gravity(0, 1500));
    assert_eq!(fs[0], (0, 0));
    assert_eq!(fs[1], (0, 0));
    // exactly at the cutoff the bond is already slack (strict comparison)
    let fs2 = compute_forces(&ps, &bonds, &no_gravity(0, 2000));
    assert_eq!(fs2[0], (0, 0));
}

/// A zero-distance bond is degenerate: the direction is undefined, so no
/// force is applied.
#[test]
fn coincident_bond_exerts_nothing() {
    let ps = vec![
        Particle { x: 70, y: -30, vx: 0, vy: 0 },
        Particle { x: 70, y: -30, vx: 0, vy: 0 },
    ];
    let bonds = vec![Bond { i: 0, j: 1, rest: 1000, stiffness: 10 }];
    let fs = compute_forces(&ps, &bonds, &no_gravity(5, 1_000_000));
    assert_eq!(fs[0], (0, 0));
    assert_eq!(fs[1], (0, 0));
}

/// Gravity is a constant force on every particle, independent of bonds.
#[test]
fn gravity_applies_to_every_particle() {
    let ps = vec![
        Particle { x: 0, y: 0, vx: 0, vy: 0 },
        Particle { x: 9999, y: 0, vx: 0, vy: 0 },
    ];
    let bonds: Vec<Bond> = vec![];
    let cfg = SimConfig { damping: 0, gravity_x: 3, gravity_y: 98, cutoff: 0 };
    let fs = compute_forces(&ps, &bonds, &cfg);
    assert_eq!(fs, vec![(3, 98), (3, 98)]);
}

/// A bond exactly at rest length exerts nothing: distance 5000 with rest
/// length 5000 gives force magnitude zero.
#[test]
fn bond_at_rest_length_exerts_nothing() {
    let ps = vec![
        Particle { x: 0, y: 0, vx: 0, vy: 0 },
        Particle { x: 3000, y: 4000, vx: 0, vy: 0 },
    ];
    let bonds = vec![Bond { i: 0, j: 1, rest: 5000, stiffness: 10 }];
    let fs = compute_forces(&ps, &bonds, &no_gravity(7, 1_000_000));
    assert_eq!(fs[0], (0, 0));
    assert_eq!(fs[1], (0, 0));
}

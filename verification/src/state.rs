//! The particle store, the bond set, the obstacle store and the simulation
//! configuration, together with their mathematical models and the
//! well-formedness conditions the stepping pipeline preserves.

use vstd::prelude::*;
use crate::num::{BOND_LIMIT, OBST_LIMIT, PARAM_LIMIT, POS_LIMIT, VEL_LIMIT};

verus! {

/// A point mass: position and velocity in scaled units.
#[derive(Clone, Copy, PartialEq, Eq, Structural, Debug)]
pub struct Particle {
    pub x: i64,
    pub y: i64,
    pub vx: i64,
    pub vy: i64,
}

/// The model of a particle: the same fields as mathematical integers.
pub struct ParticleModel {
    pub x: int,
    pub y: int,
    pub vx: int,
    pub vy: int,
}

impl View for Particle {
    type V = ParticleModel;

    open spec fn view(&self) -> ParticleModel {
        ParticleModel { x: self.x as int, y: self.y as int, vx: self.vx as int, vy: self.vy as int }
    }
}

/// An elastic connection between the particles at indices `i` and `j`,
/// with its rest length and stiffness.
#[derive(Clone, Copy, PartialEq, Eq, Structural, Debug)]
pub struct Bond {
    pub i: usize,
    pub j: usize,
    pub rest: i64,
    pub stiffness: i64,
}

/// The model of a bond.
pub struct BondModel {
    pub i: int,
    pub j: int,
    pub rest: int,
    pub stiffness: int,
}

impl View for Bond {
    type V = BondModel;

    open spec fn view(&self) -> BondModel {
        BondModel {
            i: self.i as int,
            j: self.j as int,
            rest: self.rest as int,
            stiffness: self.stiffness as int,
        }
    }
}

/// A static immovable shape: a circle, or an axis-aligned box given by its
/// center and half-extents.
#[derive(Clone, Copy, PartialEq, Eq, Structural, Debug)]
pub enum Obstacle {
    Circle { cx: i64, cy: i64, radius: i64 },
    Aabb { cx: i64, cy: i64, hx: i64, hy: i64 },
}

/// The model of an obstacle.
pub enum ObstacleModel {
    Circle { cx: int, cy: int, radius: int },
    Aabb { cx: int, cy: int, hx: int, hy: int },
}

impl View for Obstacle {
    type V = ObstacleModel;

    open spec fn view(&self) -> ObstacleModel {
        match *self {
            Obstacle::Circle { cx, cy, radius } => ObstacleModel::Circle {
                cx: cx as int,
                cy: cy as int,
                radius: radius as int,
            },
            Obstacle::Aabb { cx, cy, hx, hy } => ObstacleModel::Aabb {
                cx: cx as int,
                cy: cy as int,
                hx: hx as int,
                hy: hy as int,
            },
        }
    }
}

/// The global constants of a simulation: velocity damping along bonds, the
/// constant gravity force, and the interaction cutoff distance beyond which
/// an overstretched bond goes slack.
#[derive(Clone, Copy, PartialEq, Eq, Structural, Debug)]
pub struct SimConfig {
    pub damping: i64,
    pub gravity_x: i64,
    pub gravity_y: i64,
    pub cutoff: i64,
}

/// The model of a configuration.
pub struct ConfigModel {
    pub damping: int,
    pub gravity_x: int,
    pub gravity_y: int,
    pub cutoff: int,
}

impl View for SimConfig {
    type V = ConfigModel;

    open spec fn view(&self) -> ConfigModel {
        ConfigModel {
            damping: self.damping as int,
            gravity_x: self.gravity_x as int,
            gravity_y: self.gravity_y as int,
            cutoff: self.cutoff as int,
        }
    }
}

/// The model of a whole simulation state.
pub struct SimModel {
    pub particles: Seq<ParticleModel>,
    pub bonds: Seq<BondModel>,
    pub obstacles: Seq<ObstacleModel>,
    pub config: ConfigModel,
}

/// A particle inside the fixed-point domain.
pub open spec fn particle_ok(p: ParticleModel) -> bool {
    &&& -POS_LIMIT <= p.x <= POS_LIMIT
    &&& -POS_LIMIT <= p.y <= POS_LIMIT
    &&& -VEL_LIMIT <= p.vx <= VEL_LIMIT
    &&& -VEL_LIMIT <= p.vy <= VEL_LIMIT
}

/// A bond over `n` particles: two distinct valid indices and bounded
/// parameters.
pub open spec fn bond_ok(b: BondModel, n: int) -> bool {
    &&& 0 <= b.i < n
    &&& 0 <= b.j < n
    &&& b.i != b.j
    &&& 0 <= b.rest <= POS_LIMIT
    &&& 0 <= b.stiffness <= PARAM_LIMIT
}

/// An obstacle with bounded geometry and positive extent.
pub open spec fn obstacle_ok(o: ObstacleModel) -> bool {
    match o {
        ObstacleModel::Circle { cx, cy, radius } => {
            &&& -OBST_LIMIT <= cx <= OBST_LIMIT
            &&& -OBST_LIMIT <= cy <= OBST_LIMIT
            &&& 0 < radius <= OBST_LIMIT
        },
        ObstacleModel::Aabb { cx, cy, hx, hy } => {
            &&& -OBST_LIMIT <= cx <= OBST_LIMIT
            &&& -OBST_LIMIT <= cy <= OBST_LIMIT
            &&& 0 < hx <= OBST_LIMIT
            &&& 0 < hy <= OBST_LIMIT
        },
    }
}

/// A configuration with bounded parameters.
pub open spec fn config_ok(c: ConfigModel) -> bool {
    &&& 0 <= c.damping <= PARAM_LIMIT
    &&& -PARAM_LIMIT <= c.gravity_x <= PARAM_LIMIT
    &&& -PARAM_LIMIT <= c.gravity_y <= PARAM_LIMIT
    &&& 0 <= c.cutoff
}

/// Well-formedness of a whole model: every particle, bond and obstacle in
/// bounds, and the bond list short enough that force accumulation stays
/// inside its wide intermediate domain.
pub open spec fn sim_ok(m: SimModel) -> bool {
    &&& forall|k: int| 0 <= k < m.particles.len() ==> particle_ok(#[trigger] m.particles[k])
    &&& forall|k: int|
        0 <= k < m.bonds.len() ==> bond_ok(#[trigger] m.bonds[k], m.particles.len() as int)
    &&& forall|k: int| 0 <= k < m.obstacles.len() ==> obstacle_ok(#[trigger] m.obstacles[k])
    &&& config_ok(m.config)
    &&& m.bonds.len() <= BOND_LIMIT
}

/// The views of a sequence of particles.
pub open spec fn particle_views(s: Seq<Particle>) -> Seq<ParticleModel> {
    s.map_values(|p: Particle| p@)
}

/// The views of a sequence of bonds.
pub open spec fn bond_views(s: Seq<Bond>) -> Seq<BondModel> {
    s.map_values(|b: Bond| b@)
}

/// The views of a sequence of obstacles.
pub open spec fn obstacle_views(s: Seq<Obstacle>) -> Seq<ObstacleModel> {
    s.map_values(|o: Obstacle| o@)
}

} // verus!

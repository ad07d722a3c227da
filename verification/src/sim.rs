//! The simulation state and its step pipeline: forces, then semi-implicit
//! Euler integration, then collision resolution, in that fixed order. A
//! step is an exact function of the state and `dt`, so two states built
//! and stepped alike stay identical.

use vstd::prelude::*;
use vstd::arithmetic::div_mod::{lemma_fundamental_div_mod, lemma_mod_bound};
use crate::collision::{resolve_all, spec_resolve};
use crate::forces::{accum_bound, compute_forces, lemma_forces_upto_len, spec_forces};
use crate::integrate::{force_limit, integrate, spec_integrate};
use crate::num::{
    lemma_mul_mag, BOND_LIMIT, DT_LIMIT, PARAM_LIMIT, POS_LIMIT, TIME_SCALE,
};
use crate::state::{
    bond_ok, bond_views, config_ok, obstacle_ok, obstacle_views, particle_ok, particle_views,
    Bond, Obstacle, Particle, ParticleModel, SimConfig, SimModel, sim_ok,
};
use crate::topology::{grid_bonds, grid_bonds_upto, grid_topology, lemma_grid_bond_count, lemma_grid_bonds_ok};

verus! {

/// The initial particle grid: `rows * cols` particles at rest, spaced
/// evenly, particle `idx = row * cols + col` at `(col * spacing,
/// row * spacing)`.
pub open spec fn grid_particles(rows: int, cols: int, spacing: int) -> Seq<ParticleModel> {
    Seq::new(
        (rows * cols) as nat,
        |idx: int| ParticleModel { x: (idx % cols) * spacing, y: (idx / cols) * spacing, vx: 0, vy: 0 },
    )
}

/// One whole step of a model: accumulate forces, integrate, resolve.
pub open spec fn spec_step(m: SimModel, dt: int) -> Seq<ParticleModel> {
    let fs = spec_forces(m.particles, m.bonds, m.config);
    let moved = spec_integrate(m.particles, fs, dt);
    spec_resolve(moved, m.obstacles)
}

/// The model after a step: only the particles change.
pub open spec fn step_model(m: SimModel, dt: int) -> SimModel {
    SimModel { particles: spec_step(m, dt), bonds: m.bonds, obstacles: m.obstacles, config: m.config }
}

/// The model after `n` steps of the same `dt`.
pub open spec fn steps_model(m: SimModel, dt: int, n: nat) -> SimModel
    decreases n,
{
    if n == 0 {
        m
    } else {
        step_model(steps_model(m, dt, (n - 1) as nat), dt)
    }
}

/// A deformable body: a particle grid, its fixed bond topology, a fixed
/// obstacle store and the global configuration.
pub struct SimulationState {
    particles: Vec<Particle>,
    bonds: Vec<Bond>,
    obstacles: Vec<Obstacle>,
    config: SimConfig,
}

impl View for SimulationState {
    type V = SimModel;

    closed spec fn view(&self) -> SimModel {
        SimModel {
            particles: particle_views(self.particles@),
            bonds: bond_views(self.bonds@),
            obstacles: obstacle_views(self.obstacles@),
            config: self.config@,
        }
    }
}

impl SimulationState {
    /// The state's invariant: its model is well formed.
    pub open spec fn well_formed(&self) -> bool {
        sim_ok(self@)
    }

    /// Build a simulation: a `rows` by `cols` grid of particles at rest
    /// with the given spacing, the canonical grid bond topology with one
    /// rest length and stiffness, and the given obstacles and constants.
    pub fn new(
        rows: usize,
        cols: usize,
        spacing: i64,
        stiffness: i64,
        rest_length: i64,
        config: SimConfig,
        obstacles: Vec<Obstacle>,
    ) -> (s: Self)
        requires
            1 <= rows,
            1 <= cols,
            rows * cols <= 500_000,
            0 <= spacing,
            (cols - 1) * spacing <= POS_LIMIT,
            (rows - 1) * spacing <= POS_LIMIT,
            0 <= stiffness <= PARAM_LIMIT,
            0 <= rest_length <= POS_LIMIT,
            config_ok(config@),
            forall|k: int| 0 <= k < obstacles@.len() ==> obstacle_ok(#[trigger] obstacles@[k]@),
        ensures
            s.well_formed(),
            s@.particles == grid_particles(rows as int, cols as int, spacing as int),
            s@.bonds == grid_bonds(rows as int, cols as int, rest_length as int, stiffness as int),
            s@.obstacles == obstacle_views(obstacles@),
            s@.config == config@,
    {
        let total: usize = rows * cols;
        proof {
            assert(cols <= total) by (nonlinear_arith)
                requires
                    total == rows * cols,
                    1 <= rows,
            ;
        }
        let mut particles: Vec<Particle> = Vec::new();
        let mut idx: usize = 0;
        while idx < total
            invariant
                idx <= total,
                total == rows * cols,
                total <= 500_000,
                cols <= total,
                1 <= rows,
                1 <= cols,
                0 <= spacing,
                (cols - 1) * spacing <= POS_LIMIT,
                (rows - 1) * spacing <= POS_LIMIT,
                particles@.len() == idx,
                forall|t: int|
                    0 <= t < idx ==> #[trigger] particles@[t]@ == grid_particles(
                        rows as int,
                        cols as int,
                        spacing as int,
                    )[t],
            decreases total - idx,
        {
            let row: usize = idx / cols;
            let col: usize = idx % cols;
            proof {
                assert(col < cols && row < rows && col * spacing <= (cols - 1) * spacing && row
                    * spacing <= (rows - 1) * spacing && 0 <= col * spacing && 0 <= row * spacing)
                    by (nonlinear_arith)
                    requires
                        idx < total,
                        total == rows * cols,
                        col == idx % cols,
                        row == idx / cols,
                        0 <= spacing,
                        1 <= cols,
                        1 <= rows,
                        0 <= idx,
                ;
            }
            let px: i64 = (col as i64) * spacing;
            let py: i64 = (row as i64) * spacing;
            particles.push(Particle { x: px, y: py, vx: 0, vy: 0 });
            idx = idx + 1;
        }
        let bonds = grid_topology(rows, cols, rest_length, stiffness);
        let s = SimulationState { particles, bonds, obstacles, config };
        proof {
            assert(s@.particles =~= grid_particles(rows as int, cols as int, spacing as int));
            lemma_grid_bond_count(rows as int, cols as int, rest_length as int, stiffness as int);
            assert(rows as int * (cols as int - 1) + cols as int * (rows as int - 1) <= 1_000_000)
                by (nonlinear_arith)
                requires
                    1 <= rows,
                    1 <= cols,
                    rows as int * cols as int <= 500_000,
            ;
            lemma_grid_bonds_ok(
                rows as int,
                cols as int,
                rest_length as int,
                stiffness as int,
                rows as int * cols as int,
            );
            assert forall|k: int| 0 <= k < s@.particles.len() implies particle_ok(
                #[trigger] s@.particles[k],
            ) by {
                assert(s@.particles[k] == grid_particles(rows as int, cols as int, spacing as int)[k]);
                lemma_mod_bound(k, cols as int);
                lemma_fundamental_div_mod(k, cols as int);
                let cc = k % (cols as int);
                let rr = k / (cols as int);
                assert(0 <= cc * spacing <= POS_LIMIT && 0 <= rr * spacing <= POS_LIMIT)
                    by (nonlinear_arith)
                    requires
                        k == (cols as int) * rr + cc,
                        0 <= cc < cols,
                        0 <= k < rows as int * cols as int,
                        0 <= spacing,
                        (cols as int - 1) * spacing <= POS_LIMIT,
                        (rows as int - 1) * spacing <= POS_LIMIT,
                        1 <= rows,
                        1 <= cols,
                ;
            }
            assert forall|k: int| 0 <= k < s@.bonds.len() implies bond_ok(
                #[trigger] s@.bonds[k],
                s@.particles.len() as int,
            ) by {
                assert(s@.bonds[k] == grid_bonds_upto(
                    rows as int,
                    cols as int,
                    rest_length as int,
                    stiffness as int,
                    rows as int * cols as int,
                )[k]);
            }
            assert forall|k: int| 0 <= k < s@.obstacles.len() implies obstacle_ok(
                #[trigger] s@.obstacles[k],
            ) by {
                assert(s@.obstacles[k] == obstacles@[k]@);
            }
        }
        s
    }

    /// Advance the state by one tick of `dt` (in `TIME_SCALE`-ths of a
    /// time unit): spring and gravity forces, semi-implicit Euler, then
    /// collision resolution, in that fixed order.
    pub fn step(&mut self, dt: i64)
        requires
            old(self).well_formed(),
            0 < dt <= DT_LIMIT,
        ensures
            final(self).well_formed(),
            final(self)@.particles == spec_step(old(self)@, dt as int),
            final(self)@.bonds == old(self)@.bonds,
            final(self)@.obstacles == old(self)@.obstacles,
            final(self)@.config == old(self)@.config,
            final(self)@ == step_model(old(self)@, dt as int),
    {
        let ghost m = self@;
        proof {
            assert forall|k: int| 0 <= k < self.particles@.len() implies particle_ok(
                #[trigger] self.particles@[k]@,
            ) by {
                assert(m.particles[k] == self.particles@[k]@);
            }
            assert forall|k: int| 0 <= k < self.bonds@.len() implies bond_ok(
                #[trigger] self.bonds@[k]@,
                self.particles@.len() as int,
            ) by {
                assert(m.bonds[k] == self.bonds@[k]@);
            }
            assert forall|k: int| 0 <= k < self.obstacles@.len() implies obstacle_ok(
                #[trigger] self.obstacles@[k]@,
            ) by {
                assert(m.obstacles[k] == self.obstacles@[k]@);
            }
        }
        let fs = compute_forces(&self.particles, &self.bonds, &self.config);
        proof {
            assert forall|k: int| 0 <= k < fs@.len() implies -force_limit() <= (#[trigger] fs@[k]).0
                <= force_limit() && -force_limit() <= fs@[k].1 <= force_limit() by {
                assert(accum_bound(self.bonds@.len() as int) <= accum_bound(BOND_LIMIT as int));
            }
        }
        integrate(&mut self.particles, &fs, dt);
        proof {
            lemma_forces_upto_len(m.particles, m.bonds, m.config, m.bonds.len() as int);
            assert(fs@.map_values(|f: (i128, i128)| (f.0 as int, f.1 as int)) =~= spec_forces(
                m.particles,
                m.bonds,
                m.config,
            ));
        }
        resolve_all(&mut self.particles, &self.obstacles);
        proof {
            let moved = spec_integrate(m.particles, spec_forces(m.particles, m.bonds, m.config), dt as int);
            assert(self@.particles =~= spec_step(m, dt as int));
            assert(self@ == step_model(m, dt as int));
        }
    }

    /// The snapshot exporter: every particle's position, in construction
    /// order. Query-only.
    pub fn positions(&self) -> (out: Vec<(i64, i64)>)
        ensures
            out@.len() == self@.particles.len(),
            forall|k: int|
                0 <= k < out@.len() ==> (#[trigger] out@[k]).0 == self@.particles[k].x
                    && out@[k].1 == self@.particles[k].y,
    {
        let mut out: Vec<(i64, i64)> = Vec::new();
        let mut k: usize = 0;
        while k < self.particles.len()
            invariant
                k <= self.particles@.len(),
                out@.len() == k,
                forall|t: int|
                    0 <= t < k ==> (#[trigger] out@[t]).0 == particle_views(self.particles@)[t].x
                        && out@[t].1 == particle_views(self.particles@)[t].y,
            decreases self.particles@.len() - k,
        {
            let p = self.particles[k];
            out.push((p.x, p.y));
            k = k + 1;
        }
        out
    }

    /// The obstacle store, unchanged since construction. Query-only.
    pub fn obstacles(&self) -> (out: Vec<Obstacle>)
        ensures
            obstacle_views(out@) == self@.obstacles,
    {
        let mut out: Vec<Obstacle> = Vec::new();
        let mut k: usize = 0;
        while k < self.obstacles.len()
            invariant
                k <= self.obstacles@.len(),
                out@.len() == k,
                forall|t: int| 0 <= t < k ==> #[trigger] out@[t] == self.obstacles@[t],
            decreases self.obstacles@.len() - k,
        {
            let o = self.obstacles[k];
            out.push(o);
            k = k + 1;
        }
        proof {
            assert(obstacle_views(out@) =~= obstacle_views(self.obstacles@));
        }
        out
    }

    /// How many particles the state holds.
    pub fn particle_count(&self) -> (n: usize)
        ensures
            n == self@.particles.len(),
    {
        self.particles.len()
    }

    /// The bond list, fixed at construction. Query-only.
    pub fn bonds(&self) -> (out: Vec<Bond>)
        ensures
            bond_views(out@) == self@.bonds,
    {
        let mut out: Vec<Bond> = Vec::new();
        let mut k: usize = 0;
        while k < self.bonds.len()
            invariant
                k <= self.bonds@.len(),
                out@.len() == k,
                forall|t: int| 0 <= t < k ==> #[trigger] out@[t] == self.bonds@[t],
            decreases self.bonds@.len() - k,
        {
            let b = self.bonds[k];
            out.push(b);
            k = k + 1;
        }
        proof {
            assert(bond_views(out@) =~= bond_views(self.bonds@));
        }
        out
    }
}

/// The stability check of the explicit integrator: a configuration is
/// stable for a single linear spring when `dt < 2 / sqrt(stiffness)` in
/// real units, that is `stiffness * dt * dt < 4 * TIME_SCALE * TIME_SCALE`
/// in ticks. To be checked at construction time; the stepping code does
/// not enforce it.
pub fn stable_timestep(stiffness: i64, dt: i64) -> (r: bool)
    requires
        0 <= stiffness <= PARAM_LIMIT,
        0 < dt <= DT_LIMIT,
    ensures
        r == (stiffness * dt * dt < 4 * TIME_SCALE * TIME_SCALE),
{
    proof {
        lemma_mul_mag(stiffness as int, dt as int, PARAM_LIMIT as int, DT_LIMIT as int);
        lemma_mul_mag(
            stiffness * dt as int,
            dt as int,
            PARAM_LIMIT as int * DT_LIMIT as int,
            DT_LIMIT as int,
        );
    }
    (stiffness as i128) * (dt as i128) * (dt as i128) < 4 * (TIME_SCALE as i128) * (TIME_SCALE as i128)
}

} // verus!

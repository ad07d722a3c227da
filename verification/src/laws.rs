//! The library's laws: momentum balance of the spring forces, rest-length
//! equilibrium, exact head-on reflection, determinism of the step, and
//! post-resolution containment.

use vstd::prelude::*;
use vstd::arithmetic::div_mod::lemma_basic_div;
use crate::collision::{
    lemma_resolve_circle_ok, lemma_resolve_rect_ok, lemma_resolve_upto_ok, resolve_circle,
    resolve_one, resolve_upto, spec_resolve,
};
use crate::forces::{bond_force, forces_upto, lemma_forces_upto_len, spec_forces};
use crate::integrate::{integrate_particle, lemma_integrate_particle_ok, spec_integrate};
use crate::num::{
    lemma_sqrt_floor_is, lemma_tdiv_exact, mag, sqrt_floor, tdiv, DT_LIMIT, OBST_LIMIT,
    TIME_SCALE,
};
use crate::sim::{spec_step, step_model, steps_model};
use crate::state::{
    bond_ok, obstacle_ok, particle_ok, sim_ok, BondModel, ConfigModel, ObstacleModel,
    ParticleModel, SimModel,
};

verus! {

/// The sum of the first components of a force accumulator.
pub open spec fn total_x(fs: Seq<(int, int)>) -> int
    decreases fs.len(),
{
    if fs.len() == 0 {
        0
    } else {
        total_x(fs.drop_last()) + fs.last().0
    }
}

/// The sum of the second components of a force accumulator.
pub open spec fn total_y(fs: Seq<(int, int)>) -> int
    decreases fs.len(),
{
    if fs.len() == 0 {
        0
    } else {
        total_y(fs.drop_last()) + fs.last().1
    }
}

proof fn lemma_total_update(fs: Seq<(int, int)>, k: int, v: (int, int))
    requires
        0 <= k < fs.len(),
    ensures
        total_x(fs.update(k, v)) == total_x(fs) - fs[k].0 + v.0,
        total_y(fs.update(k, v)) == total_y(fs) - fs[k].1 + v.1,
    decreases fs.len(),
{
    let upd = fs.update(k, v);
    if k == fs.len() - 1 {
        assert(upd.drop_last() =~= fs.drop_last());
        assert(upd.last() == v);
    } else {
        assert(upd.drop_last() =~= fs.drop_last().update(k, v));
        lemma_total_update(fs.drop_last(), k, v);
        assert(upd.last() == fs.last());
    }
}

proof fn lemma_total_zero(n: nat, cfg: ConfigModel)
    requires
        cfg.gravity_x == 0,
        cfg.gravity_y == 0,
    ensures
        total_x(Seq::new(n, |k: int| (cfg.gravity_x, cfg.gravity_y))) == 0,
        total_y(Seq::new(n, |k: int| (cfg.gravity_x, cfg.gravity_y))) == 0,
    decreases n,
{
    let s = Seq::new(n, |k: int| (cfg.gravity_x, cfg.gravity_y));
    if n > 0 {
        lemma_total_zero((n - 1) as nat, cfg);
        assert(s.drop_last() =~= Seq::new((n - 1) as nat, |k: int| (cfg.gravity_x, cfg.gravity_y)));
        assert(s.last().0 == 0 && s.last().1 == 0);
    }
}

/// Momentum balance: with zero gravity, the spring forces of any bond list
/// sum to exactly zero over all particles — each bond hands one particle
/// precisely what it takes from the other. For a single isolated bonded
/// pair this is the statement that the two applied forces cancel.
pub proof fn lemma_spring_forces_balance(
    ps: Seq<ParticleModel>,
    bonds: Seq<BondModel>,
    cfg: ConfigModel,
    n: int,
)
    requires
        cfg.gravity_x == 0,
        cfg.gravity_y == 0,
        0 <= n <= bonds.len(),
        forall|k: int| 0 <= k < bonds.len() ==> bond_ok(#[trigger] bonds[k], ps.len() as int),
    ensures
        total_x(forces_upto(ps, bonds, cfg, n)) == 0,
        total_y(forces_upto(ps, bonds, cfg, n)) == 0,
    decreases n,
{
    if n == 0 {
        lemma_total_zero(ps.len(), cfg);
    } else {
        lemma_spring_forces_balance(ps, bonds, cfg, n - 1);
        lemma_forces_upto_len(ps, bonds, cfg, n - 1);
        let prev = forces_upto(ps, bonds, cfg, n - 1);
        let b = bonds[n - 1];
        let f = bond_force(ps, b, cfg.damping, cfg.cutoff);
        let gi = prev[b.i];
        let gj = prev[b.j];
        let mid = prev.update(b.i, (gi.0 + f.0, gi.1 + f.1));
        lemma_total_update(prev, b.i, (gi.0 + f.0, gi.1 + f.1));
        lemma_total_update(mid, b.j, (gj.0 - f.0, gj.1 - f.1));
        assert(mid[b.j] == gj);
    }
}

/// Momentum balance over the whole force accumulator, gravity included:
/// the spring contributions cancel, so with zero gravity the total force
/// is zero.
pub proof fn lemma_forces_balance(ps: Seq<ParticleModel>, bonds: Seq<BondModel>, cfg: ConfigModel)
    requires
        cfg.gravity_x == 0,
        cfg.gravity_y == 0,
        forall|k: int| 0 <= k < bonds.len() ==> bond_ok(#[trigger] bonds[k], ps.len() as int),
    ensures
        total_x(spec_forces(ps, bonds, cfg)) == 0,
        total_y(spec_forces(ps, bonds, cfg)) == 0,
{
    lemma_spring_forces_balance(ps, bonds, cfg, bonds.len() as int);
}

/// For an isolated bonded pair with zero gravity, the two applied forces
/// are exact opposites.
pub proof fn lemma_pair_momentum(ps: Seq<ParticleModel>, bonds: Seq<BondModel>, cfg: ConfigModel)
    requires
        ps.len() == 2,
        cfg.gravity_x == 0,
        cfg.gravity_y == 0,
        forall|k: int| 0 <= k < bonds.len() ==> bond_ok(#[trigger] bonds[k], ps.len() as int),
    ensures
        spec_forces(ps, bonds, cfg)[0].0 + spec_forces(ps, bonds, cfg)[1].0 == 0,
        spec_forces(ps, bonds, cfg)[0].1 + spec_forces(ps, bonds, cfg)[1].1 == 0,
{
    lemma_forces_balance(ps, bonds, cfg);
    lemma_forces_upto_len(ps, bonds, cfg, bonds.len() as int);
    let fs = spec_forces(ps, bonds, cfg);
    assert(fs.drop_last().drop_last().len() == 0);
    assert(fs.drop_last().last() == fs[0]);
    assert(fs.last() == fs[1]);
    assert(total_x(fs.drop_last().drop_last()) == 0);
    assert(total_x(fs.drop_last()) == fs[0].0);
    assert(total_x(fs) == fs[0].0 + fs[1].0);
    assert(total_y(fs.drop_last().drop_last()) == 0);
    assert(total_y(fs.drop_last()) == fs[0].1);
    assert(total_y(fs) == fs[0].1 + fs[1].1);
}

/// A bond whose particles rest exactly at its rest length exerts nothing.
pub proof fn lemma_rest_bond_zero(ps: Seq<ParticleModel>, b: BondModel, damping: int, cutoff: int)
    requires
        0 <= b.i < ps.len(),
        0 <= b.j < ps.len(),
        0 <= b.rest,
        ps[b.i].vx == 0,
        ps[b.i].vy == 0,
        ps[b.j].vx == 0,
        ps[b.j].vy == 0,
        (ps[b.j].x - ps[b.i].x) * (ps[b.j].x - ps[b.i].x) + (ps[b.j].y - ps[b.i].y) * (ps[b.j].y
            - ps[b.i].y) == b.rest * b.rest,
    ensures
        bond_force(ps, b, damping, cutoff) == (0int, 0int),
{
    let dx = ps[b.j].x - ps[b.i].x;
    let dy = ps[b.j].y - ps[b.i].y;
    let d2 = dx * dx + dy * dy;
    assert(0 <= d2 && (b.rest == 0 ==> d2 == 0)) by (nonlinear_arith)
        requires
            d2 == b.rest * b.rest,
            0 <= b.rest,
    ;
    if b.rest == 0 {
        assert(sqrt_floor(0) == 0);
    } else {
        assert(b.rest * b.rest <= d2 && d2 < (b.rest + 1) * (b.rest + 1)) by (nonlinear_arith)
            requires
                d2 == b.rest * b.rest,
                0 <= b.rest,
        ;
        lemma_sqrt_floor_is(d2, b.rest);
        let dist = sqrt_floor(d2);
        assert(dist == b.rest);
        if 0 < dist && dist < cutoff {
            lemma_basic_div(0, dist);
            assert(b.stiffness * (dist - b.rest) == 0) by (nonlinear_arith)
                requires
                    dist == b.rest,
            ;
            let dvx = ps[b.j].vx - ps[b.i].vx;
            let dvy = ps[b.j].vy - ps[b.i].vy;
            assert(dvx == 0 && dvy == 0);
            assert(dvx * dx + dvy * dy == 0) by (nonlinear_arith)
                requires
                    dvx == 0,
                    dvy == 0,
            ;
            assert(damping * (dvx * dx + dvy * dy) == 0) by (nonlinear_arith)
                requires
                    dvx * dx + dvy * dy == 0,
            ;
            assert(tdiv(0, dist) == 0);
            let scalar = b.stiffness * (dist - b.rest) + tdiv(damping * (dvx * dx + dvy * dy), dist);
            assert(scalar == 0);
            assert(scalar * dx == 0 && scalar * dy == 0) by (nonlinear_arith)
                requires
                    scalar == 0,
            ;
            assert(bond_force(ps, b, damping, cutoff).0 == tdiv(scalar * dx, dist));
            assert(bond_force(ps, b, damping, cutoff).0 == 0);
        }
    }
}

proof fn lemma_forces_zero(ps: Seq<ParticleModel>, bonds: Seq<BondModel>, cfg: ConfigModel, n: int)
    requires
        cfg.gravity_x == 0,
        cfg.gravity_y == 0,
        0 <= n <= bonds.len(),
        forall|k: int| 0 <= k < bonds.len() ==> bond_ok(#[trigger] bonds[k], ps.len() as int),
        forall|k: int|
            0 <= k < bonds.len() ==> bond_force(ps, #[trigger] bonds[k], cfg.damping, cfg.cutoff)
                == (0int, 0int),
    ensures
        forall|k: int|
            0 <= k < ps.len() ==> (#[trigger] forces_upto(ps, bonds, cfg, n)[k]) == (0int, 0int),
    decreases n,
{
    lemma_forces_upto_len(ps, bonds, cfg, n);
    if n > 0 {
        lemma_forces_zero(ps, bonds, cfg, n - 1);
        lemma_forces_upto_len(ps, bonds, cfg, n - 1);
        let prev = forces_upto(ps, bonds, cfg, n - 1);
        let cur = forces_upto(ps, bonds, cfg, n);
        let b = bonds[n - 1];
        assert forall|k: int| 0 <= k < ps.len() implies (#[trigger] cur[k]) == (0int, 0int) by {
            assert(prev[b.i] == (0int, 0int) && prev[b.j] == (0int, 0int));
        }
    }
}

/// Rest-length equilibrium: a state whose particles are all at rest, whose
/// bonds all sit exactly at their rest lengths, with zero gravity and no
/// obstacles, does not move: one step maps it to itself.
pub proof fn lemma_rest_length_equilibrium(m: SimModel, dt: int)
    requires
        sim_ok(m),
        m.obstacles.len() == 0,
        m.config.gravity_x == 0,
        m.config.gravity_y == 0,
        forall|k: int|
            0 <= k < m.particles.len() ==> (#[trigger] m.particles[k]).vx == 0
                && m.particles[k].vy == 0,
        forall|t: int|
            0 <= t < m.bonds.len() ==> (m.particles[#[trigger] m.bonds[t].j].x
                - m.particles[m.bonds[t].i].x) * (m.particles[m.bonds[t].j].x
                - m.particles[m.bonds[t].i].x) + (m.particles[m.bonds[t].j].y
                - m.particles[m.bonds[t].i].y) * (m.particles[m.bonds[t].j].y
                - m.particles[m.bonds[t].i].y) == m.bonds[t].rest * m.bonds[t].rest,
        0 < dt <= DT_LIMIT,
    ensures
        spec_step(m, dt) == m.particles,
        step_model(m, dt) == m,
{
    assert forall|t: int| 0 <= t < m.bonds.len() implies bond_force(
        m.particles,
        #[trigger] m.bonds[t],
        m.config.damping,
        m.config.cutoff,
    ) == (0int, 0int) by {
        lemma_rest_bond_zero(m.particles, m.bonds[t], m.config.damping, m.config.cutoff);
    }
    lemma_forces_zero(m.particles, m.bonds, m.config, m.bonds.len() as int);
    lemma_forces_upto_len(m.particles, m.bonds, m.config, m.bonds.len() as int);
    let fs = spec_forces(m.particles, m.bonds, m.config);
    let moved = spec_integrate(m.particles, fs, dt);
    assert forall|k: int| 0 <= k < m.particles.len() implies moved[k] == #[trigger] m.particles[k]
    by {
        lemma_basic_div(0, TIME_SCALE as int);
        assert(integrate_particle(m.particles[k], 0, 0, dt) == m.particles[k]);
    }
    assert(moved =~= m.particles);
    assert(spec_resolve(m.particles, m.obstacles) =~= m.particles);
}

/// Rest-length equilibrium over any number of steps: the equilibrium
/// state is a fixed point of the whole stepping relation.
pub proof fn lemma_rest_length_equilibrium_steps(m: SimModel, dt: int, n: nat)
    requires
        sim_ok(m),
        m.obstacles.len() == 0,
        m.config.gravity_x == 0,
        m.config.gravity_y == 0,
        forall|k: int|
            0 <= k < m.particles.len() ==> (#[trigger] m.particles[k]).vx == 0
                && m.particles[k].vy == 0,
        forall|t: int|
            0 <= t < m.bonds.len() ==> (m.particles[#[trigger] m.bonds[t].j].x
                - m.particles[m.bonds[t].i].x) * (m.particles[m.bonds[t].j].x
                - m.particles[m.bonds[t].i].x) + (m.particles[m.bonds[t].j].y
                - m.particles[m.bonds[t].i].y) * (m.particles[m.bonds[t].j].y
                - m.particles[m.bonds[t].i].y) == m.bonds[t].rest * m.bonds[t].rest,
        0 < dt <= DT_LIMIT,
    ensures
        steps_model(m, dt, n) == m,
    decreases n,
{
    if n > 0 {
        lemma_rest_length_equilibrium_steps(m, dt, (n - 1) as nat);
        lemma_rest_length_equilibrium(m, dt);
    }
}

/// Head-on elastic reflection: a particle penetrating a circle with its
/// velocity parallel to the contact normal leaves with exactly the
/// opposite velocity, so its squared speed is unchanged — the resolution
/// neither gains nor loses energy on such a bounce.
pub proof fn lemma_head_on_reflection(pt: ParticleModel, cx: int, cy: int, radius: int)
    requires
        particle_ok(pt),
        -OBST_LIMIT <= cx <= OBST_LIMIT,
        -OBST_LIMIT <= cy <= OBST_LIMIT,
        0 < radius <= OBST_LIMIT,
        0 < (pt.x - cx) * (pt.x - cx) + (pt.y - cy) * (pt.y - cy),
        (pt.x - cx) * (pt.x - cx) + (pt.y - cy) * (pt.y - cy) < radius * radius,
        pt.vx * (pt.y - cy) == pt.vy * (pt.x - cx),
    ensures
        resolve_circle(pt, cx, cy, radius).vx == -pt.vx,
        resolve_circle(pt, cx, cy, radius).vy == -pt.vy,
        resolve_circle(pt, cx, cy, radius).vx * resolve_circle(pt, cx, cy, radius).vx
            + resolve_circle(pt, cx, cy, radius).vy * resolve_circle(pt, cx, cy, radius).vy
            == pt.vx * pt.vx + pt.vy * pt.vy,
{
    let dx = pt.x - cx;
    let dy = pt.y - cy;
    let d2 = dx * dx + dy * dy;
    let dd = pt.vx * dx + pt.vy * dy;
    // parallel velocity turns the reflection term into an exact multiple
    assert(2 * dd * dx == (2 * pt.vx) * d2 && 2 * dd * dy == (2 * pt.vy) * d2)
        by (nonlinear_arith)
        requires
            dd == pt.vx * dx + pt.vy * dy,
            d2 == dx * dx + dy * dy,
            pt.vx * dy == pt.vy * dx,
    ;
    lemma_tdiv_exact(2 * pt.vx, d2);
    lemma_tdiv_exact(2 * pt.vy, d2);
    assert(tdiv(2 * dd * dx, d2) == 2 * pt.vx);
    assert(tdiv(2 * dd * dy, d2) == 2 * pt.vy);
    assert((-pt.vx) * (-pt.vx) == pt.vx * pt.vx && (-pt.vy) * (-pt.vy) == pt.vy * pt.vy)
        by (nonlinear_arith);
}

/// Determinism: a step is a function of the model and `dt` alone. Two
/// states with equal models step to equal models; together with `step`'s
/// postcondition, which pins the stepped state to `spec_step`, equal
/// simulations stay equal forever.
pub proof fn lemma_step_deterministic(a: SimModel, b: SimModel, dt: int)
    requires
        a == b,
    ensures
        spec_step(a, dt) == spec_step(b, dt),
        step_model(a, dt) == step_model(b, dt),
{
}

/// A particle is on or outside an obstacle's solid region.
pub open spec fn outside_obstacle(p: ParticleModel, o: ObstacleModel) -> bool {
    match o {
        ObstacleModel::Circle { cx, cy, radius } => (p.x - cx) * (p.x - cx) + (p.y - cy) * (p.y
            - cy) >= radius * radius,
        ObstacleModel::Aabb { cx, cy, hx, hy } => mag(p.x - cx) >= hx || mag(p.y - cy) >= hy,
    }
}

/// Resolution against an obstacle leaves the particle on or outside it.
pub proof fn lemma_resolve_one_outside(pt: ParticleModel, o: ObstacleModel)
    requires
        particle_ok(pt),
        obstacle_ok(o),
    ensures
        outside_obstacle(resolve_one(pt, o), o),
{
    match o {
        ObstacleModel::Circle { cx, cy, radius } => lemma_resolve_circle_ok(pt, cx, cy, radius),
        ObstacleModel::Aabb { cx, cy, hx, hy } => lemma_resolve_rect_ok(pt, cx, cy, hx, hy),
    }
}

/// Containment: after a step, every particle is on or outside the obstacle
/// resolved last. With a single obstacle in the store this is the full
/// containment invariant. (Sequential resolution does not promise it for
/// earlier obstacles: a later overlapping obstacle may push a particle
/// back into an earlier one.)
pub proof fn lemma_containment_last_obstacle(m: SimModel, dt: int)
    requires
        sim_ok(m),
        0 < dt <= DT_LIMIT,
        m.obstacles.len() > 0,
    ensures
        forall|k: int|
            0 <= k < spec_step(m, dt).len() ==> outside_obstacle(
                #[trigger] spec_step(m, dt)[k],
                m.obstacles.last(),
            ),
{
    let fs = spec_forces(m.particles, m.bonds, m.config);
    let moved = spec_integrate(m.particles, fs, dt);
    let stepped = spec_step(m, dt);
    let len = m.obstacles.len() as int;
    assert forall|k: int| 0 <= k < stepped.len() implies outside_obstacle(
        #[trigger] stepped[k],
        m.obstacles.last(),
    ) by {
        lemma_integrate_particle_ok(m.particles[k], fs[k].0, fs[k].1, dt);
        let prev = resolve_upto(moved[k], m.obstacles, len - 1);
        lemma_resolve_upto_ok(moved[k], m.obstacles, len - 1);
        lemma_resolve_one_outside(prev, m.obstacles[len - 1]);
        assert(stepped[k] == resolve_one(prev, m.obstacles[len - 1]));
    }
}

} // verus!

//! The force accumulator: per step, the spring force of every bond and a
//! constant gravity force per particle.
//!
//! For a bond between particles `i` and `j` with displacement `d` and
//! center distance `r = sqrt_floor(|d|^2)`, the scalar
//! `stiffness * (r - rest) + damping * dot(vel_j - vel_i, d) / r` acts along
//! `d / r`: that vector is added to particle `i`'s accumulator and
//! subtracted from particle `j`'s, so a bond never changes total momentum.
//! A bond at distance zero is degenerate and exerts nothing; one at or
//! beyond the cutoff distance is slack.

use vstd::prelude::*;
use crate::num::{
    isqrt_u64, lemma_mul_mag, lemma_sqrt_floor_bounds, lemma_tdiv_mag, sqrt_floor, tdiv,
    tdiv_i128, BOND_LIMIT, PARAM_LIMIT, POS_LIMIT, VEL_LIMIT,
};
use crate::state::{
    bond_ok, bond_views, config_ok, particle_ok, particle_views, Bond, BondModel, ConfigModel,
    Particle, ParticleModel, SimConfig,
};

verus! {

/// Largest magnitude of one force component a single bond can contribute.
pub open spec fn bond_force_bound() -> int {
    400_000_000_000_000_000_000
}

/// Largest magnitude a force accumulator component can reach after `n`
/// bonds have been applied on top of gravity.
pub open spec fn accum_bound(n: int) -> int {
    PARAM_LIMIT + n * bond_force_bound()
}

/// The force a bond applies to its particle `i`; particle `j` receives the
/// exact opposite.
pub open spec fn bond_force(ps: Seq<ParticleModel>, b: BondModel, damping: int, cutoff: int) -> (
    int,
    int,
) {
    let pi = ps[b.i];
    let pj = ps[b.j];
    let dx = pj.x - pi.x;
    let dy = pj.y - pi.y;
    let d2 = dx * dx + dy * dy;
    let dist = sqrt_floor(d2);
    if 0 < dist && dist < cutoff {
        let fmag = b.stiffness * (dist - b.rest);
        let dvx = pj.vx - pi.vx;
        let dvy = pj.vy - pi.vy;
        let along = dvx * dx + dvy * dy;
        let dmp = tdiv(damping * along, dist);
        let scalar = fmag + dmp;
        (tdiv(scalar * dx, dist), tdiv(scalar * dy, dist))
    } else {
        (0, 0)
    }
}

/// One bond applied to an accumulator: `i` gains the bond force, `j` loses
/// it. A malformed bond leaves the accumulator unchanged.
pub open spec fn apply_bond(
    fs: Seq<(int, int)>,
    ps: Seq<ParticleModel>,
    b: BondModel,
    damping: int,
    cutoff: int,
) -> Seq<(int, int)> {
    if 0 <= b.i < fs.len() && 0 <= b.j < fs.len() && b.i != b.j {
        let f = bond_force(ps, b, damping, cutoff);
        let gi = fs[b.i];
        let gj = fs[b.j];
        fs.update(b.i, (gi.0 + f.0, gi.1 + f.1)).update(b.j, (gj.0 - f.0, gj.1 - f.1))
    } else {
        fs
    }
}

/// The accumulator after gravity and the first `n` bonds.
pub open spec fn forces_upto(
    ps: Seq<ParticleModel>,
    bonds: Seq<BondModel>,
    cfg: ConfigModel,
    n: int,
) -> Seq<(int, int)>
    decreases n,
{
    if n <= 0 {
        Seq::new(ps.len(), |k: int| (cfg.gravity_x, cfg.gravity_y))
    } else {
        apply_bond(forces_upto(ps, bonds, cfg, n - 1), ps, bonds[n - 1], cfg.damping, cfg.cutoff)
    }
}

/// The force on every particle: gravity plus every bond's contribution.
pub open spec fn spec_forces(
    ps: Seq<ParticleModel>,
    bonds: Seq<BondModel>,
    cfg: ConfigModel,
) -> Seq<(int, int)> {
    forces_upto(ps, bonds, cfg, bonds.len() as int)
}

/// Applying bonds keeps the accumulator's length: one entry per particle.
pub proof fn lemma_forces_upto_len(
    ps: Seq<ParticleModel>,
    bonds: Seq<BondModel>,
    cfg: ConfigModel,
    n: int,
)
    ensures
        forces_upto(ps, bonds, cfg, n).len() == ps.len(),
    decreases n,
{
    if n > 0 {
        lemma_forces_upto_len(ps, bonds, cfg, n - 1);
    }
}

/// A single bond's force components are bounded by `bond_force_bound`.
pub proof fn lemma_bond_force_bound(
    ps: Seq<ParticleModel>,
    b: BondModel,
    damping: int,
    cutoff: int,
)
    requires
        0 <= b.i < ps.len(),
        0 <= b.j < ps.len(),
        particle_ok(ps[b.i]),
        particle_ok(ps[b.j]),
        0 <= b.rest <= POS_LIMIT,
        0 <= b.stiffness <= PARAM_LIMIT,
        0 <= damping <= PARAM_LIMIT,
    ensures
        -bond_force_bound() <= bond_force(ps, b, damping, cutoff).0 <= bond_force_bound(),
        -bond_force_bound() <= bond_force(ps, b, damping, cutoff).1 <= bond_force_bound(),
{
    let pi = ps[b.i];
    let pj = ps[b.j];
    let dx = pj.x - pi.x;
    let dy = pj.y - pi.y;
    let d2 = dx * dx + dy * dy;
    let dist = sqrt_floor(d2);
    assert(0 <= d2 && d2 <= 128_000_000_000_000) by (nonlinear_arith)
        requires
            d2 == dx * dx + dy * dy,
            -8_000_000 <= dx <= 8_000_000,
            -8_000_000 <= dy <= 8_000_000,
    ;
    lemma_sqrt_floor_bounds(d2);
    if 0 < dist && dist < cutoff {
        // the components of d are no longer than its floored length
        assert(-dist <= dx <= dist && -dist <= dy <= dist && dist <= 12_000_000)
            by (nonlinear_arith)
            requires
                d2 == dx * dx + dy * dy,
                -8_000_000 <= dx <= 8_000_000,
                -8_000_000 <= dy <= 8_000_000,
                dist * dist <= d2,
                d2 < (dist + 1) * (dist + 1),
                0 < dist,
        ;
        let fmag = b.stiffness * (dist - b.rest);
        lemma_mul_mag(b.stiffness, dist - b.rest, PARAM_LIMIT as int, 16_000_000);
        let dvx = pj.vx - pi.vx;
        let dvy = pj.vy - pi.vy;
        let along = dvx * dx + dvy * dy;
        lemma_mul_mag(dvx, dx, 2 * VEL_LIMIT as int, 12_000_000);
        lemma_mul_mag(dvy, dy, 2 * VEL_LIMIT as int, 12_000_000);
        lemma_mul_mag(damping, along, PARAM_LIMIT as int, 384_000_000_000_000);
        // the damping term divides by at least one
        assert(-(384_000_000_000_000_000_000 * dist) <= damping * along
            <= 384_000_000_000_000_000_000 * dist) by (nonlinear_arith)
            requires
                -384_000_000_000_000_000_000 <= damping * along <= 384_000_000_000_000_000_000,
                1 <= dist,
        ;
        lemma_tdiv_mag(damping * along, dist, 384_000_000_000_000_000_000);
        let dmp = tdiv(damping * along, dist);
        let scalar = fmag + dmp;
        // |scalar * d| <= |scalar| * dist, so each quotient is within |scalar|
        assert(-(400_000_000_000_000_000_000 * dist) <= scalar * dx <= 400_000_000_000_000_000_000
            * dist && -(400_000_000_000_000_000_000 * dist) <= scalar * dy
            <= 400_000_000_000_000_000_000 * dist) by (nonlinear_arith)
            requires
                -400_000_000_000_000_000_000 <= scalar <= 400_000_000_000_000_000_000,
                -dist <= dx <= dist,
                -dist <= dy <= dist,
                0 < dist,
        ;
        lemma_tdiv_mag(scalar * dx, dist, 400_000_000_000_000_000_000);
        lemma_tdiv_mag(scalar * dy, dist, 400_000_000_000_000_000_000);
    }
}

/// Compute the spring force of one bond, exactly as `bond_force` states it.
fn bond_force_exec(ps: &Vec<Particle>, b: &Bond, cfg: &SimConfig) -> (f: (i128, i128))
    requires
        bond_ok(b@, ps@.len() as int),
        particle_ok(ps@[b.i as int]@),
        particle_ok(ps@[b.j as int]@),
        config_ok(cfg@),
    ensures
        f.0 == bond_force(particle_views(ps@), b@, cfg@.damping, cfg@.cutoff).0,
        f.1 == bond_force(particle_views(ps@), b@, cfg@.damping, cfg@.cutoff).1,
        -bond_force_bound() <= f.0 <= bond_force_bound(),
        -bond_force_bound() <= f.1 <= bond_force_bound(),
{
    proof {
        lemma_bond_force_bound(particle_views(ps@), b@, cfg@.damping, cfg@.cutoff);
    }
    let pi = ps[b.i];
    let pj = ps[b.j];
    let dx: i128 = pj.x as i128 - pi.x as i128;
    let dy: i128 = pj.y as i128 - pi.y as i128;
    proof {
        lemma_mul_mag(dx as int, dx as int, 16_000_000, 16_000_000);
        lemma_mul_mag(dy as int, dy as int, 16_000_000, 16_000_000);
    }
    let d2: i128 = dx * dx + dy * dy;
    proof {
        assert(0 <= d2 && d2 <= 128_000_000_000_000) by (nonlinear_arith)
            requires
                d2 == dx * dx + dy * dy,
                -8_000_000 <= dx <= 8_000_000,
                -8_000_000 <= dy <= 8_000_000,
        ;
    }
    let dist_w: u64 = isqrt_u64(d2 as u64);
    let dist: i128 = dist_w as i128;
    if 0 < dist && dist < cfg.cutoff as i128 {
        proof {
            lemma_sqrt_floor_bounds(d2 as int);
            assert(-dist <= dx <= dist && -dist <= dy <= dist && dist <= 12_000_000)
                by (nonlinear_arith)
                requires
                    d2 == dx * dx + dy * dy,
                    -8_000_000 <= dx <= 8_000_000,
                    -8_000_000 <= dy <= 8_000_000,
                    dist * dist <= d2,
                    d2 < (dist + 1) * (dist + 1),
                    0 < dist,
            ;
        }
        proof {
            lemma_mul_mag(b.stiffness as int, dist - b.rest, PARAM_LIMIT as int, 16_000_000);
        }
        let fmag: i128 = (b.stiffness as i128) * (dist - b.rest as i128);
        let dvx: i128 = pj.vx as i128 - pi.vx as i128;
        let dvy: i128 = pj.vy as i128 - pi.vy as i128;
        proof {
            lemma_mul_mag(dvx as int, dx as int, 2 * VEL_LIMIT as int, 12_000_000);
            lemma_mul_mag(dvy as int, dy as int, 2 * VEL_LIMIT as int, 12_000_000);
        }
        let along: i128 = dvx * dx + dvy * dy;
        proof {
            lemma_mul_mag(
                cfg.damping as int,
                along as int,
                PARAM_LIMIT as int,
                384_000_000_000_000,
            );
        }
        let dmp: i128 = tdiv_i128((cfg.damping as i128) * along, dist);
        let scalar: i128 = fmag + dmp;
        proof {
            lemma_mul_mag(scalar as int, dx as int, 700_000_000_000_000_000_000, 12_000_000);
            lemma_mul_mag(scalar as int, dy as int, 700_000_000_000_000_000_000, 12_000_000);
        }
        let fx = tdiv_i128(scalar * dx, dist);
        let fy = tdiv_i128(scalar * dy, dist);
        (fx, fy)
    } else {
        (0, 0)
    }
}

/// Accumulate gravity plus every bond's spring force, one entry per
/// particle, exactly as `spec_forces` states it.
pub fn compute_forces(ps: &Vec<Particle>, bonds: &Vec<Bond>, cfg: &SimConfig) -> (fs: Vec<
    (i128, i128),
>)
    requires
        forall|k: int| 0 <= k < ps@.len() ==> particle_ok(#[trigger] ps@[k]@),
        forall|k: int| 0 <= k < bonds@.len() ==> bond_ok(#[trigger] bonds@[k]@, ps@.len() as int),
        config_ok(cfg@),
        bonds@.len() <= BOND_LIMIT,
    ensures
        fs@.len() == ps@.len(),
        forall|k: int|
            0 <= k < fs@.len() ==> (#[trigger] fs@[k]).0 == spec_forces(
                particle_views(ps@),
                bond_views(bonds@),
                cfg@,
            )[k].0 && fs@[k].1 == spec_forces(particle_views(ps@), bond_views(bonds@), cfg@)[k].1,
        forall|k: int|
            0 <= k < fs@.len() ==> -accum_bound(bonds@.len() as int) <= (#[trigger] fs@[k]).0
                <= accum_bound(bonds@.len() as int) && -accum_bound(bonds@.len() as int)
                <= fs@[k].1 <= accum_bound(bonds@.len() as int),
{
    let ghost pv = particle_views(ps@);
    let ghost bv = bond_views(bonds@);
    let mut fs: Vec<(i128, i128)> = Vec::new();
    let mut k: usize = 0;
    while k < ps.len()
        invariant
            k <= ps@.len(),
            fs@.len() == k,
            forall|t: int|
                0 <= t < k ==> (#[trigger] fs@[t]).0 == cfg@.gravity_x && fs@[t].1
                    == cfg@.gravity_y,
        decreases ps@.len() - k,
    {
        fs.push((cfg.gravity_x as i128, cfg.gravity_y as i128));
        k = k + 1;
    }
    proof {
        lemma_forces_upto_len(pv, bv, cfg@, 0);
    }
    let mut n: usize = 0;
    while n < bonds.len()
        invariant
            n <= bonds@.len(),
            bonds@.len() <= BOND_LIMIT,
            fs@.len() == ps@.len(),
            config_ok(cfg@),
            pv == particle_views(ps@),
            bv == bond_views(bonds@),
            forall|k2: int| 0 <= k2 < ps@.len() ==> particle_ok(#[trigger] ps@[k2]@),
            forall|k2: int|
                0 <= k2 < bonds@.len() ==> bond_ok(#[trigger] bonds@[k2]@, ps@.len() as int),
            forall|t: int|
                0 <= t < fs@.len() ==> (#[trigger] fs@[t]).0 == forces_upto(pv, bv, cfg@, n as int)[t].0
                    && fs@[t].1 == forces_upto(pv, bv, cfg@, n as int)[t].1,
            forall|t: int|
                0 <= t < fs@.len() ==> -accum_bound(n as int) <= (#[trigger] fs@[t]).0
                    <= accum_bound(n as int) && -accum_bound(n as int) <= fs@[t].1 <= accum_bound(
                    n as int,
                ),
        decreases bonds@.len() - n,
    {
        let b = bonds[n];
        proof {
            assert(bv[n as int] == bonds@[n as int]@);
            assert(bond_ok(b@, ps@.len() as int));
            assert(particle_ok(ps@[b@.i]@));
            assert(particle_ok(ps@[b@.j]@));
        }
        let f = bond_force_exec(ps, &b, cfg);
        let i = b.i;
        let j = b.j;
        proof {
            lemma_forces_upto_len(pv, bv, cfg@, n as int);
            assert(accum_bound(n as int + 1) == accum_bound(n as int) + bond_force_bound());
        }
        let (gix, giy) = fs[i];
        fs.set(i, (gix + f.0, giy + f.1));
        let (gjx, gjy) = fs[j];
        fs.set(j, (gjx - f.0, gjy - f.1));
        proof {
            assert forall|t: int| 0 <= t < fs@.len() implies (#[trigger] fs@[t]).0 == forces_upto(
                pv,
                bv,
                cfg@,
                n as int + 1,
            )[t].0 && fs@[t].1 == forces_upto(pv, bv, cfg@, n as int + 1)[t].1 by {
                assert(bond_force(pv, bv[n as int], cfg@.damping, cfg@.cutoff).0 == f.0);
                assert(bond_force(pv, bv[n as int], cfg@.damping, cfg@.cutoff).1 == f.1);
            }
        }
        n = n + 1;
    }
    fs
}

} // verus!

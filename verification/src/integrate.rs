//! The integrator: semi-implicit Euler with unit mass. Velocity is updated
//! from the accumulated force first, then position from the new velocity;
//! that order is what keeps a damped configuration from diverging. Both
//! results are clamped into the fixed-point domain, which only bites when
//! the configuration is unstable.

use vstd::prelude::*;
use crate::num::{
    clamp_i128, clamp_to, lemma_mul_mag, tdiv, tdiv_i128, DT_LIMIT, POS_LIMIT, TIME_SCALE,
    VEL_LIMIT,
};
use crate::state::{particle_ok, particle_views, Particle, ParticleModel};

verus! {

/// Bound on the force components the integrator accepts; wide enough for
/// the accumulator of the longest admissible bond list.
pub open spec fn force_limit() -> int {
    1_000_000_000_000_000_000_000_000_000
}

/// One particle advanced by one tick: `v += f * dt / TIME_SCALE`, then
/// `x += v * dt / TIME_SCALE`, each clamped into the domain.
pub open spec fn integrate_particle(pt: ParticleModel, fx: int, fy: int, dt: int) -> ParticleModel {
    let nvx = clamp_to(pt.vx + tdiv(fx * dt, TIME_SCALE as int), VEL_LIMIT as int);
    let nvy = clamp_to(pt.vy + tdiv(fy * dt, TIME_SCALE as int), VEL_LIMIT as int);
    let nx = clamp_to(pt.x + tdiv(nvx * dt, TIME_SCALE as int), POS_LIMIT as int);
    let ny = clamp_to(pt.y + tdiv(nvy * dt, TIME_SCALE as int), POS_LIMIT as int);
    ParticleModel { x: nx, y: ny, vx: nvx, vy: nvy }
}

/// Every particle advanced by one tick.
pub open spec fn spec_integrate(ps: Seq<ParticleModel>, fs: Seq<(int, int)>, dt: int) -> Seq<
    ParticleModel,
> {
    Seq::new(ps.len(), |k: int| integrate_particle(ps[k], fs[k].0, fs[k].1, dt))
}

/// An integrated particle is always inside the fixed-point domain.
pub proof fn lemma_integrate_particle_ok(pt: ParticleModel, fx: int, fy: int, dt: int)
    ensures
        particle_ok(integrate_particle(pt, fx, fy, dt)),
{
}

/// Advance every particle in place, exactly as `spec_integrate` states it.
pub fn integrate(ps: &mut Vec<Particle>, fs: &Vec<(i128, i128)>, dt: i64)
    requires
        fs@.len() == old(ps)@.len(),
        forall|k: int| 0 <= k < old(ps)@.len() ==> particle_ok(#[trigger] old(ps)@[k]@),
        forall|k: int|
            0 <= k < fs@.len() ==> -force_limit() <= (#[trigger] fs@[k]).0 <= force_limit()
                && -force_limit() <= fs@[k].1 <= force_limit(),
        0 < dt <= DT_LIMIT,
    ensures
        final(ps)@.len() == old(ps)@.len(),
        forall|k: int|
            0 <= k < final(ps)@.len() ==> #[trigger] final(ps)@[k]@ == spec_integrate(
                particle_views(old(ps)@),
                fs@.map_values(|f: (i128, i128)| (f.0 as int, f.1 as int)),
                dt as int,
            )[k],
        forall|k: int| 0 <= k < final(ps)@.len() ==> particle_ok(#[trigger] final(ps)@[k]@),
{
    let ghost orig = ps@;
    let ghost fsv = fs@.map_values(|f: (i128, i128)| (f.0 as int, f.1 as int));
    let mut k: usize = 0;
    while k < ps.len()
        invariant
            k <= ps@.len(),
            ps@.len() == orig.len(),
            fs@.len() == orig.len(),
            fsv == fs@.map_values(|f: (i128, i128)| (f.0 as int, f.1 as int)),
            forall|t: int| 0 <= t < orig.len() ==> particle_ok(#[trigger] orig[t]@),
            forall|t: int|
                0 <= t < fs@.len() ==> -force_limit() <= (#[trigger] fs@[t]).0 <= force_limit()
                    && -force_limit() <= fs@[t].1 <= force_limit(),
            0 < dt <= DT_LIMIT,
            forall|t: int| k <= t < orig.len() ==> #[trigger] ps@[t] == orig[t],
            forall|t: int|
                0 <= t < k ==> #[trigger] ps@[t]@ == integrate_particle(
                    orig[t]@,
                    fsv[t].0,
                    fsv[t].1,
                    dt as int,
                ),
            forall|t: int| 0 <= t < k ==> particle_ok(#[trigger] ps@[t]@),
        decreases ps@.len() - k,
    {
        let pt = ps[k];
        let f = fs[k];
        proof {
            lemma_mul_mag(f.0 as int, dt as int, force_limit(), DT_LIMIT as int);
            lemma_mul_mag(f.1 as int, dt as int, force_limit(), DT_LIMIT as int);
        }
        let nvx: i64 = clamp_i128(
            pt.vx as i128 + tdiv_i128(f.0 * dt as i128, TIME_SCALE as i128),
            VEL_LIMIT,
        );
        let nvy: i64 = clamp_i128(
            pt.vy as i128 + tdiv_i128(f.1 * dt as i128, TIME_SCALE as i128),
            VEL_LIMIT,
        );
        proof {
            lemma_mul_mag(nvx as int, dt as int, VEL_LIMIT as int, DT_LIMIT as int);
            lemma_mul_mag(nvy as int, dt as int, VEL_LIMIT as int, DT_LIMIT as int);
        }
        let nx: i64 = clamp_i128(
            pt.x as i128 + tdiv_i128(nvx as i128 * dt as i128, TIME_SCALE as i128),
            POS_LIMIT,
        );
        let ny: i64 = clamp_i128(
            pt.y as i128 + tdiv_i128(nvy as i128 * dt as i128, TIME_SCALE as i128),
            POS_LIMIT,
        );
        ps.set(k, Particle { x: nx, y: ny, vx: nvx, vy: nvy });
        proof {
            assert(fsv[k as int].0 == fs@[k as int].0 && fsv[k as int].1 == fs@[k as int].1);
        }
        k = k + 1;
    }
    proof {
        assert forall|t: int| 0 <= t < ps@.len() implies #[trigger] ps@[t]@ == spec_integrate(
            particle_views(orig),
            fsv,
            dt as int,
        )[t] by {
            assert(particle_views(orig)[t] == orig[t]@);
        }
    }
}

} // verus!

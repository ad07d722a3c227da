//! The collision resolver: after integration, every particle is tested
//! against every obstacle in store order. A particle penetrating a circle
//! is pushed out along the contact normal (rounding away from the center,
//! so the correction never falls short of the surface) and its velocity is
//! reflected about that normal. A particle inside a box is pushed out
//! through the nearest face and the velocity component along that face's
//! normal is flipped. A particle exactly at a circle's center is a
//! degenerate case resolved with the fixed upward normal.

use vstd::prelude::*;
use crate::num::{
    cdiv_away, cdiv_i64, clamp_i128, clamp_to, isqrt_u64, lemma_cdiv_away_mag, lemma_mul_mag,
    lemma_sqrt_floor_bounds, mag, sqrt_floor, tdiv, tdiv_i128, OBST_LIMIT, VEL_LIMIT,
};
use crate::state::{
    obstacle_ok, obstacle_views, particle_ok, particle_views, Obstacle, ObstacleModel, Particle,
    ParticleModel,
};

verus! {

/// One particle resolved against one circle.
pub open spec fn resolve_circle(pt: ParticleModel, cx: int, cy: int, radius: int) -> ParticleModel {
    let dx = pt.x - cx;
    let dy = pt.y - cy;
    let d2 = dx * dx + dy * dy;
    if d2 >= radius * radius {
        pt
    } else if d2 == 0 {
        ParticleModel { x: cx, y: cy + radius, vx: pt.vx, vy: -pt.vy }
    } else {
        let dist = sqrt_floor(d2);
        let nx = cx + cdiv_away(dx * radius, dist);
        let ny = cy + cdiv_away(dy * radius, dist);
        let dd = pt.vx * dx + pt.vy * dy;
        let nvx = clamp_to(pt.vx - tdiv(2 * dd * dx, d2), VEL_LIMIT as int);
        let nvy = clamp_to(pt.vy - tdiv(2 * dd * dy, d2), VEL_LIMIT as int);
        ParticleModel { x: nx, y: ny, vx: nvx, vy: nvy }
    }
}

/// One particle resolved against one axis-aligned box: pushed through the
/// face of least penetration, with that axis's velocity component flipped.
pub open spec fn resolve_rect(pt: ParticleModel, cx: int, cy: int, hx: int, hy: int) -> ParticleModel {
    let dx = pt.x - cx;
    let dy = pt.y - cy;
    if mag(dx) < hx && mag(dy) < hy {
        if hx - mag(dx) <= hy - mag(dy) {
            ParticleModel {
                x: if dx >= 0 {
                    cx + hx
                } else {
                    cx - hx
                },
                y: pt.y,
                vx: -pt.vx,
                vy: pt.vy,
            }
        } else {
            ParticleModel {
                x: pt.x,
                y: if dy >= 0 {
                    cy + hy
                } else {
                    cy - hy
                },
                vx: pt.vx,
                vy: -pt.vy,
            }
        }
    } else {
        pt
    }
}

/// One particle resolved against one obstacle.
pub open spec fn resolve_one(pt: ParticleModel, o: ObstacleModel) -> ParticleModel {
    match o {
        ObstacleModel::Circle { cx, cy, radius } => resolve_circle(pt, cx, cy, radius),
        ObstacleModel::Aabb { cx, cy, hx, hy } => resolve_rect(pt, cx, cy, hx, hy),
    }
}

/// One particle resolved against the first `n` obstacles, in store order.
pub open spec fn resolve_upto(pt: ParticleModel, obs: Seq<ObstacleModel>, n: int) -> ParticleModel
    decreases n,
{
    if n <= 0 {
        pt
    } else {
        resolve_one(resolve_upto(pt, obs, n - 1), obs[n - 1])
    }
}

/// Every particle resolved against every obstacle.
pub open spec fn spec_resolve(ps: Seq<ParticleModel>, obs: Seq<ObstacleModel>) -> Seq<
    ParticleModel,
> {
    Seq::new(ps.len(), |k: int| resolve_upto(ps[k], obs, obs.len() as int))
}

/// The resolved particle lies on or outside the circle, and stays inside
/// the fixed-point domain.
pub proof fn lemma_resolve_circle_ok(pt: ParticleModel, cx: int, cy: int, radius: int)
    requires
        particle_ok(pt),
        -OBST_LIMIT <= cx <= OBST_LIMIT,
        -OBST_LIMIT <= cy <= OBST_LIMIT,
        0 < radius <= OBST_LIMIT,
    ensures
        particle_ok(resolve_circle(pt, cx, cy, radius)),
        (resolve_circle(pt, cx, cy, radius).x - cx) * (resolve_circle(pt, cx, cy, radius).x - cx)
            + (resolve_circle(pt, cx, cy, radius).y - cy) * (resolve_circle(pt, cx, cy, radius).y
            - cy) >= radius * radius,
{
    let dx = pt.x - cx;
    let dy = pt.y - cy;
    let d2 = dx * dx + dy * dy;
    assert(0 <= d2) by (nonlinear_arith)
        requires
            d2 == dx * dx + dy * dy,
    ;
    if d2 >= radius * radius {
    } else if d2 == 0 {
        assert(radius * radius >= radius * radius);
    } else {
        let dist = sqrt_floor(d2);
        lemma_sqrt_floor_bounds(d2);
        assert(1 <= dist && dist < radius && -dist <= dx <= dist && -dist <= dy <= dist)
            by (nonlinear_arith)
            requires
                d2 == dx * dx + dy * dy,
                0 < d2,
                d2 < radius * radius,
                0 < radius,
                dist * dist <= d2,
                d2 < (dist + 1) * (dist + 1),
                0 <= dist,
        ;
        assert(-(radius * dist) <= dx * radius <= radius * dist && -(radius * dist) <= dy * radius
            <= radius * dist) by (nonlinear_arith)
            requires
                -dist <= dx <= dist,
                -dist <= dy <= dist,
                0 < radius,
        ;
        lemma_cdiv_away_mag(dx * radius, dist, radius);
        lemma_cdiv_away_mag(dy * radius, dist, radius);
        let ndx = cdiv_away(dx * radius, dist);
        let ndy = cdiv_away(dy * radius, dist);
        assert(dx * radius >= 0 <==> dx >= 0) by (nonlinear_arith)
            requires
                0 < radius,
        ;
        assert(dy * radius >= 0 <==> dy >= 0) by (nonlinear_arith)
            requires
                0 < radius,
        ;
        // the rounded push covers the exact one, componentwise in squares
        assert((ndx * dist) * (ndx * dist) >= (dx * radius) * (dx * radius)) by (nonlinear_arith)
            requires
                dx * radius >= 0 ==> ndx * dist >= dx * radius,
                dx * radius < 0 ==> ndx * dist <= dx * radius,
        ;
        assert((ndy * dist) * (ndy * dist) >= (dy * radius) * (dy * radius)) by (nonlinear_arith)
            requires
                dy * radius >= 0 ==> ndy * dist >= dy * radius,
                dy * radius < 0 ==> ndy * dist <= dy * radius,
        ;
        // summed and rearranged, the squared push length dominates
        assert((ndx * ndx + ndy * ndy) * (dist * dist) == (ndx * dist) * (ndx * dist) + (ndy
            * dist) * (ndy * dist)) by (nonlinear_arith);
        assert((dx * radius) * (dx * radius) + (dy * radius) * (dy * radius) == d2 * (radius
            * radius)) by (nonlinear_arith)
            requires
                d2 == dx * dx + dy * dy,
        ;
        assert(d2 * (radius * radius) >= (dist * dist) * (radius * radius)) by (nonlinear_arith)
            requires
                dist * dist <= d2,
                0 < radius,
        ;
        assert(ndx * ndx + ndy * ndy >= radius * radius) by (nonlinear_arith)
            requires
                (ndx * ndx + ndy * ndy) * (dist * dist) >= (dist * dist) * (radius * radius),
                1 <= dist,
        ;
    }
}

/// The resolved particle lies on or outside the box, and stays inside the
/// fixed-point domain.
pub proof fn lemma_resolve_rect_ok(pt: ParticleModel, cx: int, cy: int, hx: int, hy: int)
    requires
        particle_ok(pt),
        -OBST_LIMIT <= cx <= OBST_LIMIT,
        -OBST_LIMIT <= cy <= OBST_LIMIT,
        0 < hx <= OBST_LIMIT,
        0 < hy <= OBST_LIMIT,
    ensures
        particle_ok(resolve_rect(pt, cx, cy, hx, hy)),
        mag(resolve_rect(pt, cx, cy, hx, hy).x - cx) >= hx || mag(
            resolve_rect(pt, cx, cy, hx, hy).y - cy,
        ) >= hy,
{
}

/// Resolution against any one obstacle keeps the particle in the domain.
pub proof fn lemma_resolve_one_ok(pt: ParticleModel, o: ObstacleModel)
    requires
        particle_ok(pt),
        obstacle_ok(o),
    ensures
        particle_ok(resolve_one(pt, o)),
{
    match o {
        ObstacleModel::Circle { cx, cy, radius } => lemma_resolve_circle_ok(pt, cx, cy, radius),
        ObstacleModel::Aabb { cx, cy, hx, hy } => lemma_resolve_rect_ok(pt, cx, cy, hx, hy),
    }
}

/// Resolution against any prefix of the store keeps the particle in the
/// domain.
pub proof fn lemma_resolve_upto_ok(pt: ParticleModel, obs: Seq<ObstacleModel>, n: int)
    requires
        particle_ok(pt),
        n <= obs.len(),
        forall|k: int| 0 <= k < obs.len() ==> obstacle_ok(#[trigger] obs[k]),
    ensures
        particle_ok(resolve_upto(pt, obs, n)),
    decreases n,
{
    if n > 0 {
        lemma_resolve_upto_ok(pt, obs, n - 1);
        lemma_resolve_one_ok(resolve_upto(pt, obs, n - 1), obs[n - 1]);
    }
}

/// Resolve one particle against one circle, exactly as `resolve_circle`
/// states it.
fn resolve_circle_exec(pt: Particle, cx: i64, cy: i64, radius: i64) -> (r: Particle)
    requires
        particle_ok(pt@),
        -OBST_LIMIT <= cx <= OBST_LIMIT,
        -OBST_LIMIT <= cy <= OBST_LIMIT,
        0 < radius <= OBST_LIMIT,
    ensures
        r@ == resolve_circle(pt@, cx as int, cy as int, radius as int),
        particle_ok(r@),
{
    proof {
        lemma_resolve_circle_ok(pt@, cx as int, cy as int, radius as int);
    }
    let dx: i64 = pt.x - cx;
    let dy: i64 = pt.y - cy;
    proof {
        lemma_mul_mag(dx as int, dx as int, 5_000_000, 5_000_000);
        lemma_mul_mag(dy as int, dy as int, 5_000_000, 5_000_000);
        lemma_mul_mag(radius as int, radius as int, OBST_LIMIT as int, OBST_LIMIT as int);
        assert(0 <= dx * dx + dy * dy) by (nonlinear_arith);
    }
    let d2: i64 = dx * dx + dy * dy;
    let r2: i64 = radius * radius;
    if d2 >= r2 {
        pt
    } else if d2 == 0 {
        Particle { x: cx, y: cy + radius, vx: pt.vx, vy: -pt.vy }
    } else {
        let dist_w: u64 = isqrt_u64(d2 as u64);
        let dist: i64 = dist_w as i64;
        proof {
            lemma_sqrt_floor_bounds(d2 as int);
            assert(1 <= dist && dist < radius && -dist <= dx <= dist && -dist <= dy <= dist)
                by (nonlinear_arith)
                requires
                    d2 == dx * dx + dy * dy,
                    0 < d2,
                    d2 < radius * radius,
                    0 < radius,
                    dist * dist <= d2,
                    d2 < (dist + 1) * (dist + 1),
                    0 <= dist,
            ;
            lemma_mul_mag(dx as int, radius as int, 1_000_000, 1_000_000);
            lemma_mul_mag(dy as int, radius as int, 1_000_000, 1_000_000);
        }
        let ndx: i64 = cdiv_i64(dx * radius, dist);
        let ndy: i64 = cdiv_i64(dy * radius, dist);
        proof {
            assert(-(radius * dist) <= dx * radius <= radius * dist && -(radius * dist) <= dy
                * radius <= radius * dist) by (nonlinear_arith)
                requires
                    -dist <= dx <= dist,
                    -dist <= dy <= dist,
                    0 < radius,
            ;
            lemma_cdiv_away_mag(dx * radius as int, dist as int, radius as int);
            lemma_cdiv_away_mag(dy * radius as int, dist as int, radius as int);
        }
        let nx: i64 = cx + ndx;
        let ny: i64 = cy + ndy;
        proof {
            lemma_mul_mag(pt.vx as int, dx as int, VEL_LIMIT as int, 1_000_000);
            lemma_mul_mag(pt.vy as int, dy as int, VEL_LIMIT as int, 1_000_000);
        }
        let dd: i128 = pt.vx as i128 * dx as i128 + pt.vy as i128 * dy as i128;
        proof {
            lemma_mul_mag(2 * dd as int, dx as int, 32_000_000_000_000, 1_000_000);
            lemma_mul_mag(2 * dd as int, dy as int, 32_000_000_000_000, 1_000_000);
        }
        let nvx: i64 = clamp_i128(
            pt.vx as i128 - tdiv_i128(2 * dd * dx as i128, d2 as i128),
            VEL_LIMIT,
        );
        let nvy: i64 = clamp_i128(
            pt.vy as i128 - tdiv_i128(2 * dd * dy as i128, d2 as i128),
            VEL_LIMIT,
        );
        Particle { x: nx, y: ny, vx: nvx, vy: nvy }
    }
}

/// Resolve one particle against one box, exactly as `resolve_rect` states
/// it.
fn resolve_rect_exec(pt: Particle, cx: i64, cy: i64, hx: i64, hy: i64) -> (r: Particle)
    requires
        particle_ok(pt@),
        -OBST_LIMIT <= cx <= OBST_LIMIT,
        -OBST_LIMIT <= cy <= OBST_LIMIT,
        0 < hx <= OBST_LIMIT,
        0 < hy <= OBST_LIMIT,
    ensures
        r@ == resolve_rect(pt@, cx as int, cy as int, hx as int, hy as int),
        particle_ok(r@),
{
    let dx: i64 = pt.x - cx;
    let dy: i64 = pt.y - cy;
    let adx: i64 = if dx >= 0 {
        dx
    } else {
        -dx
    };
    let ady: i64 = if dy >= 0 {
        dy
    } else {
        -dy
    };
    if adx < hx && ady < hy {
        if hx - adx <= hy - ady {
            Particle {
                x: if dx >= 0 {
                    cx + hx
                } else {
                    cx - hx
                },
                y: pt.y,
                vx: -pt.vx,
                vy: pt.vy,
            }
        } else {
            Particle {
                x: pt.x,
                y: if dy >= 0 {
                    cy + hy
                } else {
                    cy - hy
                },
                vx: pt.vx,
                vy: -pt.vy,
            }
        }
    } else {
        pt
    }
}

/// Resolve one particle against one obstacle.
fn resolve_one_exec(pt: Particle, o: &Obstacle) -> (r: Particle)
    requires
        particle_ok(pt@),
        obstacle_ok(o@),
    ensures
        r@ == resolve_one(pt@, o@),
        particle_ok(r@),
{
    match *o {
        Obstacle::Circle { cx, cy, radius } => resolve_circle_exec(pt, cx, cy, radius),
        Obstacle::Aabb { cx, cy, hx, hy } => resolve_rect_exec(pt, cx, cy, hx, hy),
    }
}

/// Resolve every particle against every obstacle in store order, exactly
/// as `spec_resolve` states it.
pub fn resolve_all(ps: &mut Vec<Particle>, obs: &Vec<Obstacle>)
    requires
        forall|k: int| 0 <= k < old(ps)@.len() ==> particle_ok(#[trigger] old(ps)@[k]@),
        forall|k: int| 0 <= k < obs@.len() ==> obstacle_ok(#[trigger] obs@[k]@),
    ensures
        final(ps)@.len() == old(ps)@.len(),
        forall|k: int|
            0 <= k < final(ps)@.len() ==> #[trigger] final(ps)@[k]@ == spec_resolve(
                particle_views(old(ps)@),
                obstacle_views(obs@),
            )[k],
        forall|k: int| 0 <= k < final(ps)@.len() ==> particle_ok(#[trigger] final(ps)@[k]@),
{
    let ghost orig = ps@;
    let ghost ov = obstacle_views(obs@);
    let mut k: usize = 0;
    while k < ps.len()
        invariant
            k <= ps@.len(),
            ps@.len() == orig.len(),
            ov == obstacle_views(obs@),
            forall|t: int| 0 <= t < orig.len() ==> particle_ok(#[trigger] orig[t]@),
            forall|t: int| 0 <= t < obs@.len() ==> obstacle_ok(#[trigger] obs@[t]@),
            forall|t: int| k <= t < orig.len() ==> #[trigger] ps@[t] == orig[t],
            forall|t: int|
                0 <= t < k ==> #[trigger] ps@[t]@ == resolve_upto(orig[t]@, ov, ov.len() as int),
            forall|t: int| 0 <= t < k ==> particle_ok(#[trigger] ps@[t]@),
        decreases ps@.len() - k,
    {
        let mut pt = ps[k];
        let mut t: usize = 0;
        while t < obs.len()
            invariant
                t <= obs@.len(),
                ov == obstacle_views(obs@),
                ov.len() == obs@.len(),
                forall|u: int| 0 <= u < obs@.len() ==> obstacle_ok(#[trigger] obs@[u]@),
                pt@ == resolve_upto(orig[k as int]@, ov, t as int),
                particle_ok(pt@),
            decreases obs@.len() - t,
        {
            proof {
                assert(ov[t as int] == obs@[t as int]@);
            }
            pt = resolve_one_exec(pt, &obs[t]);
            t = t + 1;
        }
        ps.set(k, pt);
        k = k + 1;
    }
    proof {
        assert forall|t: int| 0 <= t < ps@.len() implies #[trigger] ps@[t]@ == spec_resolve(
            particle_views(orig),
            ov,
        )[t] by {
            assert(particle_views(orig)[t] == orig[t]@);
        }
    }
}

} // verus!

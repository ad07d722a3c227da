//! Fixed-point arithmetic: the domain limits, the rounding modes the
//! simulation uses, and an integer square root.

use vstd::prelude::*;
use vstd::arithmetic::div_mod::{
    lemma_basic_div, lemma_div_by_multiple, lemma_div_is_ordered, lemma_div_pos_is_pos,
    lemma_fundamental_div_mod, lemma_fundamental_div_mod_converse,
};

verus! {

/// Largest magnitude a particle coordinate may reach (scaled units).
pub const POS_LIMIT: i64 = 4_000_000;

/// Largest magnitude a velocity component may reach (scaled units).
pub const VEL_LIMIT: i64 = 8_000_000;

/// Largest magnitude for obstacle centers, radii and half-extents.
pub const OBST_LIMIT: i64 = 1_000_000;

/// Largest stiffness, damping or gravity component a configuration may use.
pub const PARAM_LIMIT: i64 = 1_000_000;

/// Number of `dt` ticks in one time unit.
pub const TIME_SCALE: i64 = 1000;

/// Largest admissible `dt` for a single step (one full time unit).
pub const DT_LIMIT: i64 = 1000;

/// Largest number of bonds a state may hold.
pub const BOND_LIMIT: usize = 1_000_000;

/// Division rounding toward zero, the rounding used by the force and
/// integration arithmetic. (The spec-mode `/` rounds toward negative
/// infinity on a negative dividend, so the negative case is spelled out.)
pub open spec fn tdiv(a: int, b: int) -> int {
    if a >= 0 {
        a / b
    } else {
        -((-a) / b)
    }
}

/// Division rounding away from zero, used when pushing a particle out of an
/// obstacle so the correction never falls short of the surface.
pub open spec fn cdiv_away(a: int, b: int) -> int {
    if a >= 0 {
        (a + b - 1) / b
    } else {
        -((-a + b - 1) / b)
    }
}

/// Clamp into `[-lim, lim]`: the guard that keeps the fixed-point state
/// inside its domain when a configuration is unstable.
pub open spec fn clamp_to(a: int, lim: int) -> int {
    if a > lim {
        lim
    } else if a < -lim {
        -lim
    } else {
        a
    }
}

/// The magnitude of an integer.
pub open spec fn mag(a: int) -> int {
    if a >= 0 {
        a
    } else {
        -a
    }
}

/// The integer square root, rounded down.
pub open spec fn sqrt_floor(n: int) -> int
    decreases n,
{
    if n <= 0 {
        0
    } else {
        let r = sqrt_floor(n - 1);
        if (r + 1) * (r + 1) <= n {
            r + 1
        } else {
            r
        }
    }
}

pub proof fn lemma_sqrt_floor_bounds(n: int)
    requires
        0 <= n,
    ensures
        0 <= sqrt_floor(n),
        sqrt_floor(n) * sqrt_floor(n) <= n,
        n < (sqrt_floor(n) + 1) * (sqrt_floor(n) + 1),
    decreases n,
{
    if n > 0 {
        lemma_sqrt_floor_bounds(n - 1);
        let r = sqrt_floor(n - 1);
        if (r + 1) * (r + 1) <= n {
            assert(n < (r + 2) * (r + 2)) by (nonlinear_arith)
                requires
                    n - 1 < (r + 1) * (r + 1),
                    0 <= r,
            ;
        }
    }
}

/// The floor square root is the only nonnegative `r` with
/// `r * r <= n < (r + 1) * (r + 1)`.
pub proof fn lemma_sqrt_floor_is(n: int, r: int)
    requires
        0 <= n,
        0 <= r,
        r * r <= n,
        n < (r + 1) * (r + 1),
    ensures
        r == sqrt_floor(n),
{
    lemma_sqrt_floor_bounds(n);
    let s = sqrt_floor(n);
    assert(r == s) by (nonlinear_arith)
        requires
            0 <= r,
            0 <= s,
            r * r <= n,
            n < (r + 1) * (r + 1),
            s * s <= n,
            n < (s + 1) * (s + 1),
    ;
}

/// Truncating division undoes an exact multiple.
pub proof fn lemma_tdiv_exact(a: int, b: int)
    requires
        1 <= b,
    ensures
        tdiv(a * b, b) == a,
{
    if a >= 0 {
        lemma_div_by_multiple(a, b);
    } else {
        assert((-a) * b == -(a * b) && a * b < 0) by (nonlinear_arith)
            requires
                a < 0,
                1 <= b,
        ;
        lemma_div_by_multiple(-a, b);
    }
}

/// A magnitude bound on the dividend gives one on the truncated quotient,
/// and the quotient keeps the dividend's sign.
pub proof fn lemma_tdiv_mag(a: int, b: int, m: int)
    requires
        1 <= b,
        0 <= m,
        -(m * b) <= a <= m * b,
    ensures
        -m <= tdiv(a, b) <= m,
        a >= 0 ==> tdiv(a, b) >= 0,
        a <= 0 ==> tdiv(a, b) <= 0,
{
    lemma_div_by_multiple(m, b);
    if a >= 0 {
        lemma_div_pos_is_pos(a, b);
        lemma_div_is_ordered(a, m * b, b);
    } else {
        lemma_div_pos_is_pos(-a, b);
        lemma_div_is_ordered(-a, m * b, b);
    }
}

/// Away-from-zero division: the quotient times the divisor covers the
/// dividend, keeps its sign, and obeys the same magnitude bound.
pub proof fn lemma_cdiv_away_mag(a: int, b: int, m: int)
    requires
        1 <= b,
        0 <= m,
        -(m * b) <= a <= m * b,
    ensures
        -m <= cdiv_away(a, b) <= m,
        a >= 0 ==> cdiv_away(a, b) >= 0 && cdiv_away(a, b) * b >= a,
        a <= 0 ==> cdiv_away(a, b) <= 0 && cdiv_away(a, b) * b <= a,
{
    if a >= 0 {
        lemma_cdiv_away_mag_nonneg(a, b, m);
        if a == 0 {
            lemma_basic_div(b - 1, b);
        }
    } else {
        lemma_cdiv_away_mag_nonneg(-a, b, m);
        assert((-((-a + b - 1) / b)) * b == -(((-a + b - 1) / b) * b)) by (nonlinear_arith);
    }
}

proof fn lemma_cdiv_away_mag_nonneg(a: int, b: int, m: int)
    requires
        1 <= b,
        0 <= m,
        0 <= a <= m * b,
    ensures
        0 <= (a + b - 1) / b <= m,
        ((a + b - 1) / b) * b >= a,
{
    let q = (a + b - 1) / b;
    lemma_div_pos_is_pos(a + b - 1, b);
    lemma_fundamental_div_mod(a + b - 1, b);
    let rem = (a + b - 1) % b;
    assert(q * b == a + b - 1 - rem) by (nonlinear_arith)
        requires
            a + b - 1 == b * q + rem,
    ;
    // q <= m: a + b - 1 <= m * b + b - 1 = (m + 1) * b - 1, whose quotient is m + (b-1)/b
    lemma_div_is_ordered(a + b - 1, m * b + b - 1, b);
    assert(m * b + b - 1 == m * b + (b - 1)) by (nonlinear_arith);
    lemma_fundamental_div_mod_converse(m * b + b - 1, b, m, b - 1);
}

/// Clamping lands inside the limits and is the identity there.
pub proof fn lemma_clamp_to(a: int, lim: int)
    requires
        0 < lim,
    ensures
        -lim <= clamp_to(a, lim) <= lim,
        -lim <= a <= lim ==> clamp_to(a, lim) == a,
{
}

/// Magnitude bound for a product of magnitude-bounded factors.
pub proof fn lemma_mul_mag(a: int, b: int, ma: int, mb: int)
    by (nonlinear_arith)
    requires
        -ma <= a <= ma,
        -mb <= b <= mb,
        0 <= ma,
        0 <= mb,
    ensures
        -(ma * mb) <= a * b <= ma * mb,
{
}

/// Truncating division on machine integers; mirrors `tdiv`.
pub fn tdiv_i128(a: i128, b: i128) -> (q: i128)
    requires
        1 <= b,
        i128::MIN < a,
    ensures
        q == tdiv(a as int, b as int),
        -a <= q <= a || a <= q <= -a,
{
    proof {
        if a >= 0 {
            assert(a <= a * b && 0 <= a * b) by (nonlinear_arith)
                requires
                    0 <= a,
                    1 <= b,
            ;
            lemma_tdiv_mag(a as int, b as int, a as int);
        } else {
            assert(-a <= (-a) * b && 0 <= (-a) * b) by (nonlinear_arith)
                requires
                    a < 0,
                    1 <= b,
            ;
            lemma_tdiv_mag(a as int, b as int, -a as int);
        }
    }
    if a >= 0 {
        ((a as u128) / (b as u128)) as i128
    } else {
        -((((-a) as u128) / (b as u128)) as i128)
    }
}

/// Away-from-zero division on machine integers; mirrors `cdiv_away`.
pub fn cdiv_i64(a: i64, b: i64) -> (q: i64)
    requires
        1 <= b,
        -1_000_000_000_000_000_000 <= a <= 1_000_000_000_000_000_000,
        b <= 1_000_000_000_000_000_000,
    ensures
        q == cdiv_away(a as int, b as int),
        -a <= q <= a || a <= q <= -a,
{
    proof {
        if a >= 0 {
            assert(a <= a * b && 0 <= a * b) by (nonlinear_arith)
                requires
                    0 <= a,
                    1 <= b,
            ;
            lemma_cdiv_away_mag(a as int, b as int, a as int);
        } else {
            assert(-a <= (-a) * b && 0 <= (-a) * b) by (nonlinear_arith)
                requires
                    a < 0,
                    1 <= b,
            ;
            lemma_cdiv_away_mag(a as int, b as int, -a as int);
        }
    }
    if a >= 0 {
        (((a as u64) + (b as u64) - 1) / (b as u64)) as i64
    } else {
        -(((((-a) as u64) + (b as u64) - 1) / (b as u64)) as i64)
    }
}

/// Clamp a wide intermediate back into the `i64` domain; mirrors `clamp_to`.
pub fn clamp_i128(a: i128, lim: i64) -> (r: i64)
    requires
        0 < lim,
    ensures
        r == clamp_to(a as int, lim as int),
{
    if a > lim as i128 {
        lim
    } else if a < -(lim as i128) {
        -lim
    } else {
        a as i64
    }
}

/// Integer square root by bisection; mirrors `sqrt_floor`.
pub fn isqrt_u64(n: u64) -> (r: u64)
    requires
        n < 0x4_0000_0000_0000,
    ensures
        r == sqrt_floor(n as int),
        r * r <= n,
        n < (r + 1) * (r + 1),
        r <= 0x200_0000,
{
    let mut lo: u64 = 0;
    let mut hi: u64 = 0x200_0000;
    while lo + 1 < hi
        invariant
            lo < hi <= 0x200_0000,
            (lo as int) * (lo as int) <= n as int,
            (n as int) < (hi as int) * (hi as int),
        decreases hi - lo,
    {
        let mid: u64 = lo + (hi - lo) / 2;
        assert(lo < mid < hi);
        assert(mid * mid <= 0x4_0000_0000_0000) by (nonlinear_arith)
            requires
                mid <= 0x200_0000u64,
        ;
        if mid * mid <= n {
            lo = mid;
        } else {
            hi = mid;
        }
    }
    proof {
        lemma_sqrt_floor_is(n as int, lo as int);
    }
    lo
}

} // verus!

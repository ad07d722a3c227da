//! The topology builder: from mesh dimensions, the canonical bond set.
//!
//! Particle `idx = row * cols + col` is bonded to its right neighbor
//! `idx + 1` when `col < cols - 1` and to its lower neighbor `idx + cols`
//! when `row < rows - 1`. The list is built once at construction and never
//! changes, which replaces an all-pairs spring search with a single pass
//! over a precomputed list.

use vstd::prelude::*;
use vstd::arithmetic::div_mod::{
    lemma_div_by_multiple, lemma_fundamental_div_mod, lemma_fundamental_div_mod_converse,
    lemma_mod_bound, lemma_mod_multiples_basic,
};
use crate::num::{PARAM_LIMIT, POS_LIMIT};
use crate::state::{bond_ok, bond_views, Bond, BondModel};

verus! {

/// The bonds contributed by particle indices below `n`, in index order,
/// each horizontal bond before the vertical one of the same particle.
pub open spec fn grid_bonds_upto(rows: int, cols: int, rest: int, stiffness: int, n: int) -> Seq<
    BondModel,
>
    decreases n,
{
    if n <= 0 {
        Seq::empty()
    } else {
        let idx = n - 1;
        let prev = grid_bonds_upto(rows, cols, rest, stiffness, idx);
        let with_h = if idx % cols < cols - 1 {
            prev.push(BondModel { i: idx, j: idx + 1, rest, stiffness })
        } else {
            prev
        };
        if idx / cols < rows - 1 {
            with_h.push(BondModel { i: idx, j: idx + cols, rest, stiffness })
        } else {
            with_h
        }
    }
}

/// The full canonical bond set of a `rows` by `cols` mesh.
pub open spec fn grid_bonds(rows: int, cols: int, rest: int, stiffness: int) -> Seq<BondModel> {
    grid_bonds_upto(rows, cols, rest, stiffness, rows * cols)
}

/// How many bonds the particles below `n` contribute: one per complete
/// horizontal neighbor, one per complete vertical neighbor.
pub open spec fn grid_count_upto(rows: int, cols: int, n: int) -> int {
    (n / cols) * (cols - 1) + (n % cols) + (if n <= (rows - 1) * cols {
        n
    } else {
        (rows - 1) * cols
    })
}

proof fn lemma_grid_count_upto(rows: int, cols: int, rest: int, stiffness: int, n: int)
    requires
        1 <= rows,
        1 <= cols,
        0 <= n <= rows * cols,
    ensures
        grid_bonds_upto(rows, cols, rest, stiffness, n).len() == grid_count_upto(rows, cols, n),
    decreases n,
{
    if n == 0 {
        lemma_mod_bound(0, cols);
        lemma_fundamental_div_mod_converse(0, cols, 0, 0);
        assert(0 <= (rows - 1) * cols) by (nonlinear_arith)
            requires
                1 <= rows,
                1 <= cols,
        ;
        assert(grid_bonds_upto(rows, cols, rest, stiffness, 0).len() == 0);
        assert(grid_count_upto(rows, cols, 0) == 0);
    } else {
        let idx = n - 1;
        lemma_grid_count_upto(rows, cols, rest, stiffness, idx);
        let q = idx / cols;
        let s = idx % cols;
        lemma_mod_bound(idx, cols);
        lemma_fundamental_div_mod(idx, cols);
        assert(idx == q * cols + s) by (nonlinear_arith)
            requires
                idx == cols * q + s,
        ;
        // the division and remainder of n follow from those of idx
        if s < cols - 1 {
            lemma_fundamental_div_mod_converse(n, cols, q, s + 1);
        } else {
            assert(n == (q + 1) * cols + 0) by (nonlinear_arith)
                requires
                    idx == q * cols + s,
                    s == cols - 1,
                    n == idx + 1,
            ;
            lemma_fundamental_div_mod_converse(n, cols, q + 1, 0);
            assert((q + 1) * (cols - 1) == q * (cols - 1) + (cols - 1)) by (nonlinear_arith);
        }
        // the vertical guard agrees with the count's boundary
        assert((q < rows - 1 ==> n <= (rows - 1) * cols) && (q >= rows - 1 ==> idx >= (rows - 1)
            * cols)) by (nonlinear_arith)
            requires
                idx == q * cols + s,
                0 <= s < cols,
                1 <= cols,
                n == idx + 1,
        ;
    }
}

/// The canonical bond set of a mesh holds exactly
/// `rows * (cols - 1) + cols * (rows - 1)` bonds.
pub proof fn lemma_grid_bond_count(rows: int, cols: int, rest: int, stiffness: int)
    requires
        1 <= rows,
        1 <= cols,
    ensures
        grid_bonds(rows, cols, rest, stiffness).len() == rows * (cols - 1) + cols * (rows - 1),
{
    let n = rows * cols;
    assert(0 <= n) by (nonlinear_arith)
        requires
            1 <= rows,
            1 <= cols,
            n == rows * cols,
    ;
    lemma_grid_count_upto(rows, cols, rest, stiffness, n);
    lemma_div_by_multiple(rows, cols);
    lemma_mod_multiples_basic(rows, cols);
    assert(n > (rows - 1) * cols && (rows - 1) * cols == cols * (rows - 1)) by (nonlinear_arith)
        requires
            n == rows * cols,
            1 <= cols,
    ;
}

/// Every bond of a mesh joins two distinct valid particle indices and
/// carries the given rest length and stiffness.
pub proof fn lemma_grid_bonds_ok(rows: int, cols: int, rest: int, stiffness: int, n: int)
    requires
        1 <= rows,
        1 <= cols,
        0 <= n <= rows * cols,
        0 <= rest <= POS_LIMIT,
        0 <= stiffness <= PARAM_LIMIT,
    ensures
        forall|t: int|
            0 <= t < grid_bonds_upto(rows, cols, rest, stiffness, n).len() ==> bond_ok(
                #[trigger] grid_bonds_upto(rows, cols, rest, stiffness, n)[t],
                rows * cols,
            ),
    decreases n,
{
    if n > 0 {
        let idx = n - 1;
        lemma_grid_bonds_ok(rows, cols, rest, stiffness, idx);
        let q = idx / cols;
        let s = idx % cols;
        lemma_mod_bound(idx, cols);
        lemma_fundamental_div_mod(idx, cols);
        assert((s < cols - 1 ==> idx + 1 < rows * cols) && (q < rows - 1 ==> idx + cols < rows
            * cols)) by (nonlinear_arith)
            requires
                idx == cols * q + s,
                0 <= s < cols,
                1 <= cols,
                idx < rows * cols,
        ;
        let prev = grid_bonds_upto(rows, cols, rest, stiffness, idx);
        let cur = grid_bonds_upto(rows, cols, rest, stiffness, n);
        assert forall|t: int| 0 <= t < cur.len() implies bond_ok(cur[t], rows * cols) by {
            if t < prev.len() {
                assert(cur[t] == prev[t]);
                assert(bond_ok(prev[t], rows * cols));
            } else if s < cols - 1 && q < rows - 1 {
                assert(cur[prev.len() as int] == (BondModel {
                    i: idx,
                    j: idx + 1,
                    rest,
                    stiffness,
                }));
                assert(cur[prev.len() as int + 1] == (BondModel {
                    i: idx,
                    j: idx + cols,
                    rest,
                    stiffness,
                }));
            } else if s < cols - 1 {
                assert(cur[prev.len() as int] == (BondModel {
                    i: idx,
                    j: idx + 1,
                    rest,
                    stiffness,
                }));
            } else {
                assert(cur[prev.len() as int] == (BondModel {
                    i: idx,
                    j: idx + cols,
                    rest,
                    stiffness,
                }));
            }
        }
    }
}

/// Build the canonical bond list of a `rows` by `cols` mesh, giving every
/// bond the same rest length and stiffness.
pub fn grid_topology(rows: usize, cols: usize, rest: i64, stiffness: i64) -> (bonds: Vec<Bond>)
    requires
        1 <= rows,
        1 <= cols,
        rows * cols <= 500_000,
        0 <= rest <= POS_LIMIT,
        0 <= stiffness <= PARAM_LIMIT,
    ensures
        bond_views(bonds@) == grid_bonds(rows as int, cols as int, rest as int, stiffness as int),
{
    let total: usize = rows * cols;
    proof {
        assert(cols <= total) by (nonlinear_arith)
            requires
                total == rows * cols,
                1 <= rows,
        ;
    }
    let mut bonds: Vec<Bond> = Vec::new();
    let mut idx: usize = 0;
    while idx < total
        invariant
            idx <= total,
            total == rows * cols,
            total <= 500_000,
            1 <= rows,
            1 <= cols,
            cols <= total,
            bond_views(bonds@) == grid_bonds_upto(
                rows as int,
                cols as int,
                rest as int,
                stiffness as int,
                idx as int,
            ),
        decreases total - idx,
    {
        let row = idx / cols;
        let col = idx % cols;
        if col + 1 < cols {
            bonds.push(Bond { i: idx, j: idx + 1, rest, stiffness });
        }
        if row + 1 < rows {
            bonds.push(Bond { i: idx, j: idx + cols, rest, stiffness });
        }
        proof {
            assert(bond_views(bonds@) =~= grid_bonds_upto(
                rows as int,
                cols as int,
                rest as int,
                stiffness as int,
                idx as int + 1,
            ));
        }
        idx = idx + 1;
    }
    bonds
}

} // verus!

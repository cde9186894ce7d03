//! Backward kernel: the gradient of a scalar loss with respect to the
//! operator's input, given the upstream gradient with respect to the
//! output. For output entry `d(i,j)` the contribution to row `i` is the
//! upstream weight of the pair times `(x[i,k] - x[j,k]) / d(i,j)`, rounded
//! toward zero; when two rows coincide (distance zero) the contribution is
//! defined to be exactly zero, never an undefined value.

use crate::kernels::forward::{dist, forward_ok, lemma_dist_nonneg, lemma_dist_symmetric};
use crate::matrix::{lemma_flat_index, Matrix, MAX_DIM, MAX_VAL};
use crate::num::{div_trunc, div_trunc_spec, lemma_div_trunc_bound, lemma_div_trunc_neg};
use vstd::prelude::*;

verus! {

/// What the pair `(i, j)` adds to the gradient entry at row `i`, column
/// `k`: zero when the distance is zero, else the combined upstream weight
/// of the ordered pairs `(i, j)` and `(j, i)` times the coordinate
/// difference, divided by the distance and rounded toward zero.
pub open spec fn grad_term(x: Matrix, g: Matrix, i: int, j: int, k: int) -> int {
    if dist(x, i, j) == 0 {
        0
    } else {
        div_trunc_spec((g.idx(i, j) + g.idx(j, i)) * (x.idx(i, k) - x.idx(j, k)), dist(x, i, j))
    }
}

/// Sum of the contributions of the pairs `(i, 0) .. (i, m-1)` to the
/// gradient entry at row `i`, column `k`.
pub open spec fn grad_prefix(x: Matrix, g: Matrix, i: int, k: int, m: int) -> int
    decreases m,
{
    if m <= 0 {
        0
    } else {
        grad_prefix(x, g, i, k, m - 1) + grad_term(x, g, i, m - 1, k)
    }
}

/// The gradient of the loss with respect to input entry `(i, k)`: the sum
/// of the contributions of all pairs. The pair `(i, i)` contributes zero
/// because the diagonal distance is zero.
pub open spec fn grad_entry(x: Matrix, g: Matrix, i: int, k: int) -> int {
    grad_prefix(x, g, i, k, x.rows as int)
}

/// The backward kernel's output holds exactly the gradient entries.
pub open spec fn backward_ok(x: Matrix, g: Matrix, gx: Matrix) -> bool {
    &&& gx.wf()
    &&& gx.rows == x.rows
    &&& gx.cols == x.cols
    &&& forall|i: int, k: int|
        0 <= i < x.rows && 0 <= k < x.cols ==> gx.idx(i, k) == #[trigger] grad_entry(x, g, i, k)
}

proof fn lemma_grad_term_bound(x: Matrix, g: Matrix, i: int, j: int, k: int)
    requires
        x.wf(),
        x.in_range(),
        g.wf(),
        g.in_range(),
        g.rows == x.rows,
        g.cols == x.rows,
        0 <= i < x.rows,
        0 <= j < x.rows,
        0 <= k < x.cols,
    ensures
        -4398046511104 <= grad_term(x, g, i, j, k) <= 4398046511104,
{
    if dist(x, i, j) != 0 {
        lemma_dist_nonneg(x, i, j);
        x.lemma_idx_in_range(i, k);
        x.lemma_idx_in_range(j, k);
        g.lemma_idx_in_range(i, j);
        g.lemma_idx_in_range(j, i);
        let w = g.idx(i, j) + g.idx(j, i);
        let e = x.idx(i, k) - x.idx(j, k);
        assert(-4398046511104 <= w * e <= 4398046511104) by (nonlinear_arith)
            requires
                -2097152 <= w <= 2097152,
                -2097152 <= e <= 2097152,
        ;
        lemma_div_trunc_bound(w * e, dist(x, i, j));
    }
}

/// Two coinciding rows are at distance zero and contribute exactly zero
/// to the gradient: the degenerate case is defined, finite and silent.
pub proof fn lemma_identical_rows_grad_zero(x: Matrix, g: Matrix, i: int, j: int, k: int)
    requires
        forall|t: int| 0 <= t < x.cols ==> #[trigger] x.idx(i, t) == x.idx(j, t),
    ensures
        dist(x, i, j) == 0,
        grad_term(x, g, i, j, k) == 0,
{
    lemma_equal_rows_sq_zero(x, i, j, x.cols as int);
}

proof fn lemma_equal_rows_sq_zero(x: Matrix, i: int, j: int, m: int)
    requires
        m <= x.cols,
        forall|t: int| 0 <= t < x.cols ==> #[trigger] x.idx(i, t) == x.idx(j, t),
    ensures
        crate::kernels::forward::sq_dist_prefix(x, i, j, m) == 0,
    decreases m,
{
    if m > 0 {
        lemma_equal_rows_sq_zero(x, i, j, m - 1);
        let a = x.idx(i, m - 1);
        let b = x.idx(j, m - 1);
        assert(a == b);
        assert((a - b) * (a - b) == 0) by (nonlinear_arith)
            requires
                a == b,
        ;
    }
}

/// What a pair adds to one of its rows is the exact negation of what it
/// adds to the other, so the two contributions of a pair cancel in the
/// gradient of any loss that weighs both orders equally.
pub proof fn lemma_grad_term_antisymmetric(x: Matrix, g: Matrix, i: int, j: int, k: int)
    ensures
        grad_term(x, g, j, i, k) == -grad_term(x, g, i, j, k),
{
    lemma_dist_symmetric(x, i, j);
    if dist(x, i, j) != 0 {
        lemma_dist_nonneg(x, i, j);
        let w = g.idx(i, j) + g.idx(j, i);
        let e = x.idx(i, k) - x.idx(j, k);
        assert((g.idx(j, i) + g.idx(i, j)) * (x.idx(j, k) - x.idx(i, k)) == -(w * e))
            by (nonlinear_arith)
            requires
                w == g.idx(i, j) + g.idx(j, i),
                e == x.idx(i, k) - x.idx(j, k),
        ;
        lemma_div_trunc_neg(w * e, dist(x, i, j));
    }
}

/// One pair's contribution, read off the cached distance matrix.
fn pair_term(x: &Matrix, g: &Matrix, dmat: &Matrix, i: usize, j: usize, k: usize) -> (t: i64)
    requires
        x.wf(),
        x.in_range(),
        g.wf(),
        g.in_range(),
        g.rows == x.rows,
        g.cols == x.rows,
        forward_ok(*x, *dmat),
        i < x.rows,
        j < x.rows,
        k < x.cols,
    ensures
        t == grad_term(*x, *g, i as int, j as int, k as int),
        -4398046511104 <= t <= 4398046511104,
{
    let dij = dmat.get(i, j);
    proof {
        lemma_dist_nonneg(*x, i as int, j as int);
        lemma_grad_term_bound(*x, *g, i as int, j as int, k as int);
    }
    if dij == 0 {
        0
    } else {
        proof {
            x.lemma_idx_in_range(i as int, k as int);
            x.lemma_idx_in_range(j as int, k as int);
            g.lemma_idx_in_range(i as int, j as int);
            g.lemma_idx_in_range(j as int, i as int);
        }
        let w = g.get(i, j) + g.get(j, i);
        let e = x.get(i, k) - x.get(j, k);
        proof {
            assert(-4398046511104 <= (w as int) * (e as int) <= 4398046511104)
                by (nonlinear_arith)
                requires
                    -2097152 <= w <= 2097152,
                    -2097152 <= e <= 2097152,
            ;
        }
        div_trunc(w * e, dij)
    }
}

/// Native backward kernel: for every input entry, sum the contributions
/// of all pairs its row takes part in. The distance matrix is recomputed
/// from the saved input, as the autodiff node stores only that input.
pub fn pairwise_distance_backward(x: &Matrix, g: &Matrix) -> (gx: Matrix)
    requires
        x.wf(),
        x.in_range(),
        g.wf(),
        g.in_range(),
        g.rows == x.rows,
        g.cols == x.rows,
    ensures
        backward_ok(*x, *g, gx),
{
    let n = x.row_count();
    let d = x.col_count();
    let dmat = crate::kernels::forward::pairwise_distance_direct(x);
    let mut data: Vec<i64> = Vec::new();
    let mut i: usize = 0;
    while i < n
        invariant
            x.wf(),
            x.in_range(),
            g.wf(),
            g.in_range(),
            g.rows == x.rows,
            g.cols == x.rows,
            n == x.rows,
            d == x.cols,
            forward_ok(*x, dmat),
            i <= n,
            data.len() == i * d,
            forall|a: int, c: int|
                0 <= a < i && 0 <= c < d ==> data@[a * (d as int) + c] == #[trigger] grad_entry(
                    *x,
                    *g,
                    a,
                    c,
                ),
        decreases n - i,
    {
        let mut k: usize = 0;
        while k < d
            invariant
                x.wf(),
                x.in_range(),
                g.wf(),
                g.in_range(),
                g.rows == x.rows,
                g.cols == x.rows,
                n == x.rows,
                d == x.cols,
                forward_ok(*x, dmat),
                i < n,
                k <= d,
                data.len() == i * d + k,
                forall|a: int, c: int|
                    0 <= a < i && 0 <= c < d ==> data@[a * (d as int) + c] == #[trigger] grad_entry(
                        *x,
                        *g,
                        a,
                        c,
                    ),
                forall|c: int|
                    0 <= c < k ==> data@[i * (d as int) + c] == #[trigger] grad_entry(
                        *x,
                        *g,
                        i as int,
                        c,
                    ),
            decreases d - k,
        {
            let mut acc: i64 = 0;
            let mut j: usize = 0;
            while j < n
                invariant
                    x.wf(),
                    x.in_range(),
                    g.wf(),
                    g.in_range(),
                    g.rows == x.rows,
                    g.cols == x.rows,
                    n == x.rows,
                    d == x.cols,
                    forward_ok(*x, dmat),
                    i < n,
                    k < d,
                    j <= n,
                    acc == grad_prefix(*x, *g, i as int, k as int, j as int),
                    -(j * 4398046511104) <= acc <= j * 4398046511104,
                decreases n - j,
            {
                let t = pair_term(x, g, &dmat, i, j, k);
                acc = acc + t;
                j = j + 1;
            }
            let ghost data0 = data@;
            data.push(acc);
            proof {
                assert forall|a: int, c: int| 0 <= a < i && 0 <= c < d implies data@[a * (d as int)
                    + c] == #[trigger] grad_entry(*x, *g, a, c) by {
                    lemma_flat_index(i as int, d as int, a, c);
                    assert(data0[a * (d as int) + c] == grad_entry(*x, *g, a, c));
                }
            }
            k = k + 1;
        }
        proof {
            assert((i + 1) * (d as int) == i * (d as int) + d) by (nonlinear_arith);
            assert forall|a: int, c: int| 0 <= a < i + 1 && 0 <= c < d implies data@[a * (d as int)
                + c] == #[trigger] grad_entry(*x, *g, a, c) by {
                if a < i {
                } else {
                    assert(data@[i * (d as int) + c] == grad_entry(*x, *g, i as int, c));
                }
            }
        }
        i = i + 1;
    }
    let gx = Matrix { data, rows: n, cols: d };
    proof {
        assert forall|i2: int, k2: int| 0 <= i2 < n && 0 <= k2 < d implies gx.idx(i2, k2)
            == #[trigger] grad_entry(*x, *g, i2, k2) by {
            lemma_flat_index(n as int, d as int, i2, k2);
        }
    }
    gx
}

/// Batched (GPU-style) backward kernel: exactly the same contributions,
/// reduced in the opposite order. The reduction is over exact integers,
/// where addition is associative and commutative, so this path returns
/// entry for entry the gradient of the native kernel.
pub fn pairwise_distance_backward_jit(x: &Matrix, g: &Matrix) -> (gx: Matrix)
    requires
        x.wf(),
        x.in_range(),
        g.wf(),
        g.in_range(),
        g.rows == x.rows,
        g.cols == x.rows,
    ensures
        backward_ok(*x, *g, gx),
{
    let n = x.row_count();
    let d = x.col_count();
    let dmat = crate::kernels::forward::pairwise_distance_expanded(x);
    let mut data: Vec<i64> = Vec::new();
    let mut i: usize = 0;
    while i < n
        invariant
            x.wf(),
            x.in_range(),
            g.wf(),
            g.in_range(),
            g.rows == x.rows,
            g.cols == x.rows,
            n == x.rows,
            d == x.cols,
            forward_ok(*x, dmat),
            i <= n,
            data.len() == i * d,
            forall|a: int, c: int|
                0 <= a < i && 0 <= c < d ==> data@[a * (d as int) + c] == #[trigger] grad_entry(
                    *x,
                    *g,
                    a,
                    c,
                ),
        decreases n - i,
    {
        let mut k: usize = 0;
        while k < d
            invariant
                x.wf(),
                x.in_range(),
                g.wf(),
                g.in_range(),
                g.rows == x.rows,
                g.cols == x.rows,
                n == x.rows,
                d == x.cols,
                forward_ok(*x, dmat),
                i < n,
                k <= d,
                data.len() == i * d + k,
                forall|a: int, c: int|
                    0 <= a < i && 0 <= c < d ==> data@[a * (d as int) + c] == #[trigger] grad_entry(
                        *x,
                        *g,
                        a,
                        c,
                    ),
                forall|c: int|
                    0 <= c < k ==> data@[i * (d as int) + c] == #[trigger] grad_entry(
                        *x,
                        *g,
                        i as int,
                        c,
                    ),
            decreases d - k,
        {
            let mut acc: i64 = 0;
            let mut j: usize = n;
            while j > 0
                invariant
                    x.wf(),
                    x.in_range(),
                    g.wf(),
                    g.in_range(),
                    g.rows == x.rows,
                    g.cols == x.rows,
                    n == x.rows,
                    d == x.cols,
                    forward_ok(*x, dmat),
                    i < n,
                    k < d,
                    j <= n,
                    acc == grad_prefix(*x, *g, i as int, k as int, n as int) - grad_prefix(
                        *x,
                        *g,
                        i as int,
                        k as int,
                        j as int,
                    ),
                    -((n - j) * 4398046511104) <= acc <= (n - j) * 4398046511104,
                decreases j,
            {
                j = j - 1;
                let t = pair_term(x, g, &dmat, i, j, k);
                acc = acc + t;
            }
            let ghost data0 = data@;
            data.push(acc);
            proof {
                assert forall|a: int, c: int| 0 <= a < i && 0 <= c < d implies data@[a * (d as int)
                    + c] == #[trigger] grad_entry(*x, *g, a, c) by {
                    lemma_flat_index(i as int, d as int, a, c);
                    assert(data0[a * (d as int) + c] == grad_entry(*x, *g, a, c));
                }
            }
            k = k + 1;
        }
        proof {
            assert((i + 1) * (d as int) == i * (d as int) + d) by (nonlinear_arith);
            assert forall|a: int, c: int| 0 <= a < i + 1 && 0 <= c < d implies data@[a * (d as int)
                + c] == #[trigger] grad_entry(*x, *g, a, c) by {
                if a < i {
                } else {
                    assert(data@[i * (d as int) + c] == grad_entry(*x, *g, i as int, c));
                }
            }
        }
        i = i + 1;
    }
    let gx = Matrix { data, rows: n, cols: d };
    proof {
        assert forall|i2: int, k2: int| 0 <= i2 < n && 0 <= k2 < d implies gx.idx(i2, k2)
            == #[trigger] grad_entry(*x, *g, i2, k2) by {
            lemma_flat_index(n as int, d as int, i2, k2);
        }
    }
    gx
}

} // verus!

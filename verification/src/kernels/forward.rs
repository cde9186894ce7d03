//! Forward kernel: the pairwise Euclidean distance matrix of the rows of a
//! rank-2 input, in exact fixed-point arithmetic. The distance is the floor
//! square root of the exact squared distance, so the output is symmetric,
//! has an exactly zero diagonal, and is non-negative everywhere.

use crate::matrix::{lemma_flat_index, Matrix, MAX_DIM, MAX_VAL};
use crate::num::{isqrt, isqrt_spec, lemma_isqrt_spec_bounds};
use vstd::prelude::*;

verus! {

/// Largest value a full squared distance can take.
pub const MAX_SQ_DIST: i64 = 65536 * 4 * 1048576 * 1048576;

/// Sum of squared differences of rows `i` and `j` over the first `k`
/// coordinates.
pub open spec fn sq_dist_prefix(x: Matrix, i: int, j: int, k: int) -> int
    decreases k,
{
    if k <= 0 {
        0
    } else {
        sq_dist_prefix(x, i, j, k - 1) + (x.idx(i, k - 1) - x.idx(j, k - 1)) * (x.idx(i, k - 1)
            - x.idx(j, k - 1))
    }
}

/// Exact squared Euclidean distance between rows `i` and `j`.
pub open spec fn sq_dist(x: Matrix, i: int, j: int) -> int {
    sq_dist_prefix(x, i, j, x.cols as int)
}

/// The distance the forward kernel produces: the floor square root of the
/// exact squared distance.
pub open spec fn dist(x: Matrix, i: int, j: int) -> int {
    isqrt_spec(sq_dist(x, i, j))
}

proof fn lemma_sq_dist_prefix_symmetric(x: Matrix, i: int, j: int, k: int)
    ensures
        sq_dist_prefix(x, i, j, k) == sq_dist_prefix(x, j, i, k),
    decreases k,
{
    if k > 0 {
        lemma_sq_dist_prefix_symmetric(x, i, j, k - 1);
        let a = x.idx(i, k - 1);
        let b = x.idx(j, k - 1);
        assert((a - b) * (a - b) == (b - a) * (b - a)) by (nonlinear_arith);
    }
}

proof fn lemma_sq_dist_prefix_diag(x: Matrix, i: int, k: int)
    ensures
        sq_dist_prefix(x, i, i, k) == 0,
    decreases k,
{
    if k > 0 {
        lemma_sq_dist_prefix_diag(x, i, k - 1);
    }
}

proof fn lemma_sq_dist_prefix_nonneg(x: Matrix, i: int, j: int, k: int)
    ensures
        0 <= sq_dist_prefix(x, i, j, k),
    decreases k,
{
    if k > 0 {
        lemma_sq_dist_prefix_nonneg(x, i, j, k - 1);
        let a = x.idx(i, k - 1);
        let b = x.idx(j, k - 1);
        assert(0 <= (a - b) * (a - b)) by (nonlinear_arith);
    }
}

proof fn lemma_sq_dist_prefix_bound(x: Matrix, i: int, j: int, k: int)
    requires
        x.wf(),
        x.in_range(),
        0 <= i < x.rows,
        0 <= j < x.rows,
        0 <= k <= x.cols,
    ensures
        sq_dist_prefix(x, i, j, k) <= k * 4398046511104,
    decreases k,
{
    if k > 0 {
        lemma_sq_dist_prefix_bound(x, i, j, k - 1);
        x.lemma_idx_in_range(i, k - 1);
        x.lemma_idx_in_range(j, k - 1);
        let a = x.idx(i, k - 1);
        let b = x.idx(j, k - 1);
        assert((a - b) * (a - b) <= 4398046511104) by (nonlinear_arith)
            requires
                -2097152 <= a - b <= 2097152,
        ;
    }
}

/// The forward output is symmetric: the distance from row `i` to row `j`
/// equals the distance from row `j` to row `i`, for every input.
pub proof fn lemma_dist_symmetric(x: Matrix, i: int, j: int)
    ensures
        dist(x, i, j) == dist(x, j, i),
{
    lemma_sq_dist_prefix_symmetric(x, i, j, x.cols as int);
}

/// The diagonal of the forward output is exactly zero, for every input.
pub proof fn lemma_dist_diag_zero(x: Matrix, i: int)
    ensures
        dist(x, i, i) == 0,
{
    lemma_sq_dist_prefix_diag(x, i, x.cols as int);
}

/// Every entry of the forward output is non-negative, for every input.
pub proof fn lemma_dist_nonneg(x: Matrix, i: int, j: int)
    ensures
        0 <= dist(x, i, j),
{
    lemma_sq_dist_prefix_nonneg(x, i, j, x.cols as int);
    lemma_isqrt_spec_bounds(sq_dist(x, i, j));
}

/// The forward kernel's output matrix holds exactly the pairwise distances
/// of the input's rows.
pub open spec fn forward_ok(x: Matrix, out: Matrix) -> bool {
    &&& out.wf()
    &&& out.rows == x.rows
    &&& out.cols == x.rows
    &&& forall|i: int, j: int|
        0 <= i < x.rows && 0 <= j < x.rows ==> out.idx(i, j) == #[trigger] dist(x, i, j)
}

/// Cross-backend consistency: any two outputs that meet the forward
/// contract — as the native and the just-in-time kernels both do — hold
/// the same entry at every position.
pub proof fn lemma_cross_backend_agreement(x: Matrix, out1: Matrix, out2: Matrix)
    requires
        forward_ok(x, out1),
        forward_ok(x, out2),
    ensures
        forall|i: int, j: int|
            0 <= i < x.rows && 0 <= j < x.rows ==> out1.idx(i, j) == #[trigger] out2.idx(i, j),
{
    assert forall|i: int, j: int|
        0 <= i < x.rows && 0 <= j < x.rows implies out1.idx(i, j) == #[trigger] out2.idx(
        i,
        j,
    ) by {
        assert(out1.idx(i, j) == dist(x, i, j));
        assert(out2.idx(i, j) == dist(x, i, j));
    }
}

/// Compute the floor square root of a bounded squared distance and return
/// it as a matrix entry.
fn dist_entry(ssum: i64) -> (v: i64)
    requires
        0 <= ssum <= MAX_SQ_DIST,
    ensures
        v == isqrt_spec(ssum as int),
{
    let r = isqrt(ssum as u64);
    proof {
        assert(r < 0x8000_0000) by (nonlinear_arith)
            requires
                0 <= r,
                (r as int) * (r as int) <= ssum as int,
                ssum <= 288230376151711744,
        ;
    }
    r as i64
}

/// Native (CPU-path) forward kernel, in the direct formulation: for every
/// ordered pair of rows, sum the squared coordinate differences and take
/// the floor square root.
pub fn pairwise_distance_direct(x: &Matrix) -> (out: Matrix)
    requires
        x.wf(),
        x.in_range(),
    ensures
        forward_ok(*x, out),
{
    let n = x.row_count();
    let d = x.col_count();
    let mut data: Vec<i64> = Vec::new();
    let mut i: usize = 0;
    while i < n
        invariant
            x.wf(),
            x.in_range(),
            n == x.rows,
            d == x.cols,
            i <= n,
            data.len() == i * n,
            forall|a: int, b: int|
                0 <= a < i && 0 <= b < n ==> data@[a * (n as int) + b] == #[trigger] dist(*x, a, b),
        decreases n - i,
    {
        let mut j: usize = 0;
        while j < n
            invariant
                x.wf(),
                x.in_range(),
                n == x.rows,
                d == x.cols,
                i < n,
                j <= n,
                data.len() == i * n + j,
                forall|a: int, b: int|
                    0 <= a < i && 0 <= b < n ==> data@[a * (n as int) + b] == #[trigger] dist(
                        *x,
                        a,
                        b,
                    ),
                forall|b: int|
                    0 <= b < j ==> data@[i * (n as int) + b] == #[trigger] dist(*x, i as int, b),
            decreases n - j,
        {
            let mut ssum: i64 = 0;
            let mut k: usize = 0;
            while k < d
                invariant
                    x.wf(),
                    x.in_range(),
                    n == x.rows,
                    d == x.cols,
                    i < n,
                    j < n,
                    k <= d,
                    ssum == sq_dist_prefix(*x, i as int, j as int, k as int),
                    0 <= ssum <= k * 4398046511104,
                decreases d - k,
            {
                let a = x.get(i, k);
                let b = x.get(j, k);
                proof {
                    x.lemma_idx_in_range(i as int, k as int);
                    x.lemma_idx_in_range(j as int, k as int);
                }
                let diff = a - b;
                proof {
                    assert((diff as int) * (diff as int) <= 4398046511104) by (nonlinear_arith)
                        requires
                            -2097152 <= diff <= 2097152,
                    ;
                    assert(0 <= (diff as int) * (diff as int)) by (nonlinear_arith);
                }
                let sq = diff * diff;
                ssum = ssum + sq;
                k = k + 1;
            }
            proof {
                assert(ssum <= 65536 * 4398046511104);
                assert(MAX_SQ_DIST == 65536 * 4398046511104);
            }
            let v = dist_entry(ssum);
            let ghost data0 = data@;
            data.push(v);
            proof {
                assert forall|a: int, b: int| 0 <= a < i && 0 <= b < n implies data@[a * (n as int)
                    + b] == #[trigger] dist(*x, a, b) by {
                    lemma_flat_index(i as int, n as int, a, b);
                    assert(data0[a * (n as int) + b] == dist(*x, a, b));
                }
            }
            j = j + 1;
        }
        proof {
            assert((i + 1) * (n as int) == i * (n as int) + n) by (nonlinear_arith);
            assert forall|a: int, b: int| 0 <= a < i + 1 && 0 <= b < n implies data@[a * (n as int)
                + b] == #[trigger] dist(*x, a, b) by {
                if a < i {
                } else {
                    assert(data@[i * (n as int) + b] == dist(*x, i as int, b));
                }
            }
        }
        i = i + 1;
    }
    let out = Matrix { data, rows: n, cols: n };
    proof {
        assert forall|i2: int, j2: int| 0 <= i2 < n && 0 <= j2 < n implies out.idx(i2, j2)
            == #[trigger] dist(*x, i2, j2) by {
            lemma_flat_index(n as int, n as int, i2, j2);
        }
    }
    out
}

/// Sum of squared entries of row `i` over the first `k` coordinates.
pub open spec fn sq_norm_prefix(x: Matrix, i: int, k: int) -> int
    decreases k,
{
    if k <= 0 {
        0
    } else {
        sq_norm_prefix(x, i, k - 1) + x.idx(i, k - 1) * x.idx(i, k - 1)
    }
}

/// Squared Euclidean norm of row `i`.
pub open spec fn sq_norm(x: Matrix, i: int) -> int {
    sq_norm_prefix(x, i, x.cols as int)
}

/// Inner product of rows `i` and `j` over the first `k` coordinates.
pub open spec fn dot_prefix(x: Matrix, i: int, j: int, k: int) -> int
    decreases k,
{
    if k <= 0 {
        0
    } else {
        dot_prefix(x, i, j, k - 1) + x.idx(i, k - 1) * x.idx(j, k - 1)
    }
}

/// Inner product of rows `i` and `j`.
pub open spec fn dot(x: Matrix, i: int, j: int) -> int {
    dot_prefix(x, i, j, x.cols as int)
}

proof fn lemma_expand_prefix(x: Matrix, i: int, j: int, k: int)
    ensures
        sq_dist_prefix(x, i, j, k) == sq_norm_prefix(x, i, k) + sq_norm_prefix(x, j, k) - 2
            * dot_prefix(x, i, j, k),
    decreases k,
{
    if k > 0 {
        lemma_expand_prefix(x, i, j, k - 1);
        let a = x.idx(i, k - 1);
        let b = x.idx(j, k - 1);
        assert((a - b) * (a - b) == a * a + b * b - 2 * (a * b)) by (nonlinear_arith);
    }
}

/// The two acceptable formulations of the squared distance agree exactly:
/// the sum of squared differences equals the expanded form over norms and
/// the inner product. This is why the native and the batched kernel return
/// the same matrix.
pub proof fn lemma_expanded_eq_direct(x: Matrix, i: int, j: int)
    ensures
        sq_dist(x, i, j) == sq_norm(x, i) + sq_norm(x, j) - 2 * dot(x, i, j),
{
    lemma_expand_prefix(x, i, j, x.cols as int);
}

proof fn lemma_sq_norm_prefix_bound(x: Matrix, i: int, k: int)
    requires
        x.wf(),
        x.in_range(),
        0 <= i < x.rows,
        0 <= k <= x.cols,
    ensures
        0 <= sq_norm_prefix(x, i, k) <= k * 1099511627776,
    decreases k,
{
    if k > 0 {
        lemma_sq_norm_prefix_bound(x, i, k - 1);
        x.lemma_idx_in_range(i, k - 1);
        let a = x.idx(i, k - 1);
        assert(0 <= a * a <= 1099511627776) by (nonlinear_arith)
            requires
                -1048576 <= a <= 1048576,
        ;
    }
}

proof fn lemma_dot_prefix_bound(x: Matrix, i: int, j: int, k: int)
    requires
        x.wf(),
        x.in_range(),
        0 <= i < x.rows,
        0 <= j < x.rows,
        0 <= k <= x.cols,
    ensures
        -(k * 1099511627776) <= dot_prefix(x, i, j, k) <= k * 1099511627776,
    decreases k,
{
    if k > 0 {
        lemma_dot_prefix_bound(x, i, j, k - 1);
        x.lemma_idx_in_range(i, k - 1);
        x.lemma_idx_in_range(j, k - 1);
        let a = x.idx(i, k - 1);
        let b = x.idx(j, k - 1);
        assert(-1099511627776 <= a * b <= 1099511627776) by (nonlinear_arith)
            requires
                -1048576 <= a <= 1048576,
                -1048576 <= b <= 1048576,
        ;
    }
}

/// Squared norms of all rows, the first factor of the batched formulation.
fn row_sq_norms(x: &Matrix) -> (norms: Vec<i64>)
    requires
        x.wf(),
        x.in_range(),
    ensures
        norms.len() == x.rows,
        forall|a: int| 0 <= a < x.rows ==> norms@[a] == #[trigger] sq_norm(*x, a),
        forall|a: int| 0 <= a < x.rows ==> 0 <= #[trigger] norms@[a] <= 72057594037927936,
{
    let n = x.row_count();
    let d = x.col_count();
    let mut norms: Vec<i64> = Vec::new();
    let mut i: usize = 0;
    while i < n
        invariant
            x.wf(),
            x.in_range(),
            n == x.rows,
            d == x.cols,
            i <= n,
            norms.len() == i,
            forall|a: int| 0 <= a < i ==> norms@[a] == #[trigger] sq_norm(*x, a),
            forall|a: int| 0 <= a < i ==> 0 <= #[trigger] norms@[a] <= 72057594037927936,
        decreases n - i,
    {
        let mut acc: i64 = 0;
        let mut k: usize = 0;
        while k < d
            invariant
                x.wf(),
                x.in_range(),
                n == x.rows,
                d == x.cols,
                i < n,
                k <= d,
                acc == sq_norm_prefix(*x, i as int, k as int),
                0 <= acc <= k * 1099511627776,
            decreases d - k,
        {
            let a = x.get(i, k);
            proof {
                x.lemma_idx_in_range(i as int, k as int);
                assert(0 <= (a as int) * (a as int) <= 1099511627776) by (nonlinear_arith)
                    requires
                        -1048576 <= a <= 1048576,
                ;
            }
            let sq = a * a;
            acc = acc + sq;
            k = k + 1;
        }
        norms.push(acc);
        i = i + 1;
    }
    norms
}

/// Batched (GPU-style) forward kernel, in the expanded formulation: the
/// squared distance is assembled from row norms and an inner product, the
/// pre-square-root value is clamped at zero as the design requires, and
/// the floor square root is taken. It returns exactly the same matrix as
/// the direct kernel.
pub fn pairwise_distance_expanded(x: &Matrix) -> (out: Matrix)
    requires
        x.wf(),
        x.in_range(),
    ensures
        forward_ok(*x, out),
{
    let n = x.row_count();
    let d = x.col_count();
    let norms = row_sq_norms(x);
    let mut data: Vec<i64> = Vec::new();
    let mut i: usize = 0;
    while i < n
        invariant
            x.wf(),
            x.in_range(),
            n == x.rows,
            d == x.cols,
            norms.len() == n,
            forall|a: int| 0 <= a < n ==> norms@[a] == #[trigger] sq_norm(*x, a),
            forall|a: int| 0 <= a < n ==> 0 <= #[trigger] norms@[a] <= 72057594037927936,
            i <= n,
            data.len() == i * n,
            forall|a: int, b: int|
                0 <= a < i && 0 <= b < n ==> data@[a * (n as int) + b] == #[trigger] dist(*x, a, b),
        decreases n - i,
    {
        let mut j: usize = 0;
        while j < n
            invariant
                x.wf(),
                x.in_range(),
                n == x.rows,
                d == x.cols,
                norms.len() == n,
                forall|a: int| 0 <= a < n ==> norms@[a] == #[trigger] sq_norm(*x, a),
                forall|a: int| 0 <= a < n ==> 0 <= #[trigger] norms@[a] <= 72057594037927936,
                i < n,
                j <= n,
                data.len() == i * n + j,
                forall|a: int, b: int|
                    0 <= a < i && 0 <= b < n ==> data@[a * (n as int) + b] == #[trigger] dist(
                        *x,
                        a,
                        b,
                    ),
                forall|b: int|
                    0 <= b < j ==> data@[i * (n as int) + b] == #[trigger] dist(*x, i as int, b),
            decreases n - j,
        {
            let mut dacc: i64 = 0;
            let mut k: usize = 0;
            while k < d
                invariant
                    x.wf(),
                    x.in_range(),
                    n == x.rows,
                    d == x.cols,
                    i < n,
                    j < n,
                    k <= d,
                    dacc == dot_prefix(*x, i as int, j as int, k as int),
                    -(k * 1099511627776) <= dacc <= k * 1099511627776,
                decreases d - k,
            {
                let a = x.get(i, k);
                let b = x.get(j, k);
                proof {
                    x.lemma_idx_in_range(i as int, k as int);
                    x.lemma_idx_in_range(j as int, k as int);
                    assert(-1099511627776 <= (a as int) * (b as int) <= 1099511627776)
                        by (nonlinear_arith)
                        requires
                            -1048576 <= a <= 1048576,
                            -1048576 <= b <= 1048576,
                    ;
                }
                let p = a * b;
                dacc = dacc + p;
                k = k + 1;
            }
            let pre = norms[i] + norms[j] - 2 * dacc;
            proof {
                lemma_expand_prefix(*x, i as int, j as int, d as int);
                lemma_sq_dist_prefix_nonneg(*x, i as int, j as int, d as int);
                lemma_sq_dist_prefix_bound(*x, i as int, j as int, d as int);
                assert(MAX_SQ_DIST == 65536 * 4398046511104);
                assert(norms@[i as int] == sq_norm(*x, i as int));
                assert(norms@[j as int] == sq_norm(*x, j as int));
                assert(pre == sq_dist(*x, i as int, j as int));
            }
            let clamped = if pre < 0 {
                0
            } else {
                pre
            };
            proof {
                assert(clamped == sq_dist(*x, i as int, j as int));
            }
            let v = dist_entry(clamped);
            let ghost data0 = data@;
            data.push(v);
            proof {
                assert forall|a: int, b: int| 0 <= a < i && 0 <= b < n implies data@[a * (n as int)
                    + b] == #[trigger] dist(*x, a, b) by {
                    lemma_flat_index(i as int, n as int, a, b);
                    assert(data0[a * (n as int) + b] == dist(*x, a, b));
                }
            }
            j = j + 1;
        }
        proof {
            assert((i + 1) * (n as int) == i * (n as int) + n) by (nonlinear_arith);
            assert forall|a: int, b: int| 0 <= a < i + 1 && 0 <= b < n implies data@[a * (n as int)
                + b] == #[trigger] dist(*x, a, b) by {
                if a < i {
                } else {
                    assert(data@[i * (n as int) + b] == dist(*x, i as int, b));
                }
            }
        }
        i = i + 1;
    }
    let out = Matrix { data, rows: n, cols: n };
    proof {
        assert forall|i2: int, j2: int| 0 <= i2 < n && 0 <= j2 < n implies out.idx(i2, j2)
            == #[trigger] dist(*x, i2, j2) by {
            lemma_flat_index(n as int, n as int, i2, j2);
        }
    }
    out
}

/// Sum over the first `m` coordinates of the products of the differences
/// row `i` minus row `j` and row `j` minus row `l`.
spec fn cross_prefix(x: Matrix, i: int, j: int, l: int, m: int) -> int
    decreases m,
{
    if m <= 0 {
        0
    } else {
        cross_prefix(x, i, j, l, m - 1) + (x.idx(i, m - 1) - x.idx(j, m - 1)) * (x.idx(j, m - 1)
            - x.idx(l, m - 1))
    }
}

proof fn lemma_triangle_expand(x: Matrix, i: int, j: int, l: int, m: int)
    ensures
        sq_dist_prefix(x, i, l, m) == sq_dist_prefix(x, i, j, m) + 2 * cross_prefix(x, i, j, l, m)
            + sq_dist_prefix(x, j, l, m),
    decreases m,
{
    if m > 0 {
        lemma_triangle_expand(x, i, j, l, m - 1);
        let u = x.idx(i, m - 1) - x.idx(j, m - 1);
        let v = x.idx(j, m - 1) - x.idx(l, m - 1);
        let w = x.idx(i, m - 1) - x.idx(l, m - 1);
        assert(w == u + v);
        assert(w * w == u * u + 2 * (u * v) + v * v) by (nonlinear_arith)
            requires
                w == u + v,
        ;
    }
}

proof fn lemma_cs_psd(x: Matrix, i: int, j: int, l: int, m: int, p: int, q: int)
    ensures
        sq_dist_prefix(x, i, j, m) * p * p + 2 * cross_prefix(x, i, j, l, m) * p * q
            + sq_dist_prefix(x, j, l, m) * q * q >= 0,
    decreases m,
{
    if m > 0 {
        lemma_cs_psd(x, i, j, l, m - 1, p, q);
        let u = x.idx(i, m - 1) - x.idx(j, m - 1);
        let v = x.idx(j, m - 1) - x.idx(l, m - 1);
        let a1 = sq_dist_prefix(x, i, j, m - 1);
        let s1 = cross_prefix(x, i, j, l, m - 1);
        let b1 = sq_dist_prefix(x, j, l, m - 1);
        let a2 = sq_dist_prefix(x, i, j, m);
        let s2 = cross_prefix(x, i, j, l, m);
        let b2 = sq_dist_prefix(x, j, l, m);
        assert(a2 * p * p == a1 * p * p + (u * p) * (u * p)) by (nonlinear_arith)
            requires
                a2 == a1 + u * u,
        ;
        assert(2 * s2 * p * q == 2 * s1 * p * q + 2 * ((u * p) * (v * q))) by (nonlinear_arith)
            requires
                s2 == s1 + u * v,
        ;
        assert(b2 * q * q == b1 * q * q + (v * q) * (v * q)) by (nonlinear_arith)
            requires
                b2 == b1 + v * v,
        ;
        assert((u * p + v * q) * (u * p + v * q) == (u * p) * (u * p) + 2 * ((u * p) * (v * q)) + (
        v * q) * (v * q)) by (nonlinear_arith);
        assert((u * p + v * q) * (u * p + v * q) >= 0) by (nonlinear_arith);
    }
}

proof fn lemma_cs_zero(x: Matrix, i: int, j: int, l: int, m: int)
    requires
        sq_dist_prefix(x, j, l, m) == 0,
    ensures
        cross_prefix(x, i, j, l, m) == 0,
    decreases m,
{
    if m > 0 {
        let u = x.idx(i, m - 1) - x.idx(j, m - 1);
        let v = x.idx(j, m - 1) - x.idx(l, m - 1);
        lemma_sq_dist_prefix_nonneg(x, j, l, m - 1);
        assert(v * v >= 0) by (nonlinear_arith);
        assert(v * v == 0);
        assert(v == 0) by (nonlinear_arith)
            requires
                v * v == 0,
        ;
        assert(u * v == 0) by (nonlinear_arith)
            requires
                v == 0,
        ;
        lemma_cs_zero(x, i, j, l, m - 1);
    }
}

proof fn lemma_cauchy_schwarz(x: Matrix, i: int, j: int, l: int, m: int)
    ensures
        cross_prefix(x, i, j, l, m) * cross_prefix(x, i, j, l, m) <= sq_dist_prefix(x, i, j, m)
            * sq_dist_prefix(x, j, l, m),
{
    let a = sq_dist_prefix(x, i, j, m);
    let s = cross_prefix(x, i, j, l, m);
    let b = sq_dist_prefix(x, j, l, m);
    lemma_sq_dist_prefix_nonneg(x, i, j, m);
    lemma_sq_dist_prefix_nonneg(x, j, l, m);
    if b == 0 {
        lemma_cs_zero(x, i, j, l, m);
        assert(s * s <= a * b) by (nonlinear_arith)
            requires
                s == 0,
                b == 0,
        ;
    } else {
        lemma_cs_psd(x, i, j, l, m, b, -s);
        assert(s * s <= a * b) by (nonlinear_arith)
            requires
                a * b * b + 2 * s * b * (-s) + b * (-s) * (-s) >= 0,
                b > 0,
        ;
    }
}

/// Approximate triangle inequality of the floor-rooted metric: for every
/// input and every triple of rows, the distance from `i` to `l` exceeds
/// the sum of the distances through `j` by at most one unit, the slack
/// that rounding the three square roots down can introduce.
pub proof fn lemma_triangle_inequality(x: Matrix, i: int, j: int, l: int)
    ensures
        dist(x, i, l) <= dist(x, i, j) + dist(x, j, l) + 1,
{
    let m = x.cols as int;
    let a = sq_dist_prefix(x, i, j, m);
    let b = sq_dist_prefix(x, j, l, m);
    let c = sq_dist_prefix(x, i, l, m);
    let s = cross_prefix(x, i, j, l, m);
    lemma_triangle_expand(x, i, j, l, m);
    lemma_cauchy_schwarz(x, i, j, l, m);
    lemma_sq_dist_prefix_nonneg(x, i, j, m);
    lemma_sq_dist_prefix_nonneg(x, j, l, m);
    lemma_sq_dist_prefix_nonneg(x, i, l, m);
    let ra = isqrt_spec(a);
    let rb = isqrt_spec(b);
    let rc = isqrt_spec(c);
    lemma_isqrt_spec_bounds(a);
    lemma_isqrt_spec_bounds(b);
    lemma_isqrt_spec_bounds(c);
    assert(s < (ra + 1) * (rb + 1)) by (nonlinear_arith)
        requires
            s * s <= a * b,
            a < (ra + 1) * (ra + 1),
            b < (rb + 1) * (rb + 1),
            0 <= a,
            0 <= b,
            0 <= ra,
            0 <= rb,
    ;
    assert(c < (ra + rb + 2) * (ra + rb + 2)) by (nonlinear_arith)
        requires
            c == a + 2 * s + b,
            a < (ra + 1) * (ra + 1),
            b < (rb + 1) * (rb + 1),
            s < (ra + 1) * (rb + 1),
            0 <= ra,
            0 <= rb,
    ;
    assert(rc <= ra + rb + 1) by (nonlinear_arith)
        requires
            rc * rc <= c,
            c < (ra + rb + 2) * (ra + rb + 2),
            0 <= rc,
            0 <= ra,
            0 <= rb,
    ;
}

} // verus!

//! The tensor model the kernels compute on: a dense, row-major, rank-2
//! matrix of fixed-point values stored as `i64`, with shape and range
//! invariants that keep every kernel computation free of overflow.

use vstd::prelude::*;

verus! {

/// Largest row or column count a matrix may have.
pub const MAX_DIM: usize = 65536;

/// Largest magnitude a kernel input entry may have.
pub const MAX_VAL: i64 = 1048576;

/// Why an input was rejected before any kernel ran.
#[derive(Debug, Clone, Copy, PartialEq, Eq, Structural)]
pub enum DistanceError {
    /// Rows of unequal length, or a dimension above `MAX_DIM`.
    ShapeMismatch,
    /// An entry with magnitude above `MAX_VAL`.
    ValueOutOfRange,
}

/// A dense rank-2 tensor of fixed-point values, stored row-major.
#[derive(Debug, Clone)]
pub struct Matrix {
    pub data: Vec<i64>,
    pub rows: usize,
    pub cols: usize,
}

/// A row index and a column index address one entry of a row-major buffer.
pub proof fn lemma_flat_index(rows: int, cols: int, i: int, k: int)
    by (nonlinear_arith)
    requires
        0 <= i < rows,
        0 <= k < cols,
    ensures
        0 <= i * cols + k < rows * cols,
{
}

impl Matrix {
    /// Shape well-formedness: the buffer holds exactly `rows * cols`
    /// entries and neither dimension exceeds `MAX_DIM`.
    pub open spec fn wf(self) -> bool {
        &&& self.data.len() == self.rows * self.cols
        &&& self.rows <= MAX_DIM
        &&& self.cols <= MAX_DIM
    }

    /// Every entry has magnitude at most `MAX_VAL`.
    pub open spec fn in_range(self) -> bool {
        forall|t: int|
            0 <= t < self.data.len() ==> -(MAX_VAL as int) <= #[trigger] self.data@[t]
                <= MAX_VAL as int
    }

    /// The entry in row `i`, column `k`, as a mathematical integer.
    pub open spec fn idx(self, i: int, k: int) -> int
        recommends
            self.wf(),
            0 <= i < self.rows,
            0 <= k < self.cols,
    {
        self.data@[i * (self.cols as int) + k] as int
    }

    /// An addressed entry of an in-range matrix is bounded by `MAX_VAL`.
    pub proof fn lemma_idx_in_range(self, i: int, k: int)
        requires
            self.wf(),
            self.in_range(),
            0 <= i < self.rows,
            0 <= k < self.cols,
        ensures
            -(MAX_VAL as int) <= self.idx(i, k) <= MAX_VAL as int,
    {
        lemma_flat_index(self.rows as int, self.cols as int, i, k);
    }

    /// Number of rows.
    pub fn row_count(&self) -> (n: usize)
        ensures
            n == self.rows,
    {
        self.rows
    }

    /// Number of columns.
    pub fn col_count(&self) -> (n: usize)
        ensures
            n == self.cols,
    {
        self.cols
    }

    /// Read one entry.
    pub fn get(&self, i: usize, k: usize) -> (v: i64)
        requires
            self.wf(),
            i < self.rows,
            k < self.cols,
        ensures
            v as int == self.idx(i as int, k as int),
    {
        proof {
            lemma_flat_index(self.rows as int, self.cols as int, i as int, k as int);
        }
        self.data[i * self.cols + k]
    }
}

/// All rows of the nested sequence have the length of the first, and both
/// dimensions fit under `MAX_DIM`.
pub open spec fn shape_ok(s: Seq<Vec<i64>>) -> bool {
    &&& s.len() <= MAX_DIM
    &&& (s.len() > 0 ==> s[0]@.len() <= MAX_DIM)
    &&& forall|i: int| 0 <= i < s.len() ==> (#[trigger] s[i])@.len() == s[0]@.len()
}

/// Every value of the nested rows has magnitude at most `MAX_VAL`.
pub open spec fn values_ok(s: Seq<Vec<i64>>) -> bool {
    forall|i: int, k: int|
        0 <= i < s.len() && 0 <= k < s[i]@.len() ==> -(MAX_VAL as int) <= #[trigger] s[i]@[k]
            <= MAX_VAL as int
}

impl Matrix {
    /// Build a matrix from nested rows, rejecting ragged or oversized
    /// shapes and out-of-range values before any kernel can run.
    pub fn from_rows(entries: &Vec<Vec<i64>>) -> (result: Result<Matrix, DistanceError>)
        ensures
            result is Ok <==> shape_ok(entries@) && values_ok(entries@),
            result == Err::<Matrix, DistanceError>(DistanceError::ShapeMismatch) <==> !shape_ok(
                entries@,
            ),
            result == Err::<Matrix, DistanceError>(DistanceError::ValueOutOfRange) <==> shape_ok(
                entries@,
            ) && !values_ok(entries@),
            result matches Ok(m) ==> {
                &&& m.wf()
                &&& m.in_range()
                &&& m.rows == entries.len()
                &&& (entries.len() > 0 ==> m.cols == entries[0].len())
                &&& (entries.len() == 0 ==> m.cols == 0)
                &&& forall|i: int, k: int|
                    0 <= i < m.rows && 0 <= k < m.cols ==> #[trigger] m.idx(i, k)
                        == entries@[i]@[k]
            },
    {
        let ghost s = entries@;
        let n = entries.len();
        if n > MAX_DIM {
            return Err(DistanceError::ShapeMismatch);
        }
        let d = if n > 0 {
            entries[0].len()
        } else {
            0
        };
        if d > MAX_DIM {
            return Err(DistanceError::ShapeMismatch);
        }
        let mut i: usize = 0;
        while i < n
            invariant
                n == entries.len(),
                s == entries@,
                i <= n,
                n > 0 ==> d == entries[0].len(),
                forall|r: int| 0 <= r < i ==> (#[trigger] s[r])@.len() == d,
            decreases n - i,
        {
            if entries[i].len() != d {
                assert(!shape_ok(s));
                return Err(DistanceError::ShapeMismatch);
            }
            i = i + 1;
        }
        assert(shape_ok(s));
        let mut data: Vec<i64> = Vec::new();
        let mut r: usize = 0;
        while r < n
            invariant
                n == entries.len(),
                s == entries@,
                n <= MAX_DIM,
                d <= MAX_DIM,
                r <= n,
                forall|q: int| 0 <= q < n ==> (#[trigger] s[q])@.len() == d,
                data.len() == r * d,
                forall|q: int, k: int|
                    0 <= q < r && 0 <= k < d ==> data@[q * (d as int) + k] == #[trigger] s[q]@[k],
                forall|t: int|
                    0 <= t < data.len() ==> -(MAX_VAL as int) <= #[trigger] data@[t] <= MAX_VAL
                        as int,
            decreases n - r,
        {
            let row = &entries[r];
            let mut k: usize = 0;
            while k < d
                invariant
                    n == entries.len(),
                    s == entries@,
                    n <= MAX_DIM,
                    d <= MAX_DIM,
                    r < n,
                    k <= d,
                    row == &entries[r as int],
                    row.len() == d,
                    forall|q: int| 0 <= q < n ==> (#[trigger] s[q])@.len() == d,
                    data.len() == r * d + k,
                    forall|q: int, kk: int|
                        0 <= q < r && 0 <= kk < d ==> data@[q * (d as int) + kk]
                            == #[trigger] s[q]@[kk],
                    forall|kk: int|
                        0 <= kk < k ==> #[trigger] data@[r * (d as int) + kk] == s[r as int]@[kk],
                    forall|t: int|
                        0 <= t < data.len() ==> -(MAX_VAL as int) <= #[trigger] data@[t] <= MAX_VAL
                            as int,
                decreases d - k,
            {
                let v = row[k];
                if v > MAX_VAL || v < -MAX_VAL {
                    assert(s[r as int]@[k as int] == v);
                    assert(!values_ok(s));
                    return Err(DistanceError::ValueOutOfRange);
                }
                let ghost data0 = data@;
                data.push(v);
                proof {
                    assert forall|q: int, kk: int|
                        0 <= q < r && 0 <= kk < d implies data@[q * (d as int) + kk]
                        == #[trigger] s[q]@[kk] by {
                        lemma_flat_index(r as int, d as int, q, kk);
                        assert(data0[q * (d as int) + kk] == s[q]@[kk]);
                    }
                }
                k = k + 1;
            }
            proof {
                assert((r + 1) * (d as int) == r * (d as int) + d) by (nonlinear_arith);
            }
            r = r + 1;
        }
        proof {
            assert forall|q: int, kk: int|
                0 <= q < n && 0 <= kk < s[q]@.len() implies -(MAX_VAL as int)
                <= #[trigger] s[q]@[kk] <= MAX_VAL as int by {
                lemma_flat_index(n as int, d as int, q, kk);
                assert(data@[q * (d as int) + kk] == s[q]@[kk]);
            }
            assert(values_ok(s));
        }
        let m = Matrix { data, rows: n, cols: d };
        assert(m.wf());
        assert forall|i2: int, k2: int| 0 <= i2 < m.rows && 0 <= k2 < m.cols implies #[trigger] m
            .idx(i2, k2) == s[i2]@[k2] by {
            lemma_flat_index(n as int, d as int, i2, k2);
        }
        Ok(m)
    }

    /// Copy the matrix back out as nested rows.
    pub fn to_rows(&self) -> (out: Vec<Vec<i64>>)
        requires
            self.wf(),
        ensures
            out.len() == self.rows,
            forall|i: int| 0 <= i < self.rows ==> (#[trigger] out@[i])@.len() == self.cols,
            forall|i: int, k: int|
                0 <= i < self.rows && 0 <= k < self.cols ==> #[trigger] out@[i]@[k] as int
                    == self.idx(i, k),
    {
        let mut out: Vec<Vec<i64>> = Vec::new();
        let mut i: usize = 0;
        while i < self.rows
            invariant
                self.wf(),
                i <= self.rows,
                out.len() == i,
                forall|q: int| 0 <= q < i ==> (#[trigger] out@[q])@.len() == self.cols,
                forall|q: int, k: int|
                    0 <= q < i && 0 <= k < self.cols ==> #[trigger] out@[q]@[k] as int
                        == self.idx(q, k),
            decreases self.rows - i,
        {
            let mut row: Vec<i64> = Vec::new();
            let mut k: usize = 0;
            while k < self.cols
                invariant
                    self.wf(),
                    i < self.rows,
                    k <= self.cols,
                    row.len() == k,
                    forall|kk: int|
                        0 <= kk < k ==> #[trigger] row@[kk] as int == self.idx(i as int, kk),
                decreases self.cols - k,
            {
                let v = self.get(i, k);
                row.push(v);
                k = k + 1;
            }
            out.push(row);
            i = i + 1;
        }
        out
    }
}

} // verus!

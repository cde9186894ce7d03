//! The capability traits that let a compute backend carry the
//! pairwise-distance operator, and the concrete backends of this crate.

use crate::matrix::{DistanceError, Matrix, MAX_DIM, MAX_VAL};
use vstd::prelude::*;

pub mod backward;
pub mod forward;
pub mod kernel;

use forward::{forward_ok, pairwise_distance_direct, pairwise_distance_expanded};

verus! {

/// A compute backend that supports the pairwise-distance operator. Every
/// implementation must return exactly the pairwise distance matrix of the
/// input's rows.
pub trait Backend: Sized {
    fn euclidean_pairwise_distance(x: &Matrix) -> (out: Matrix)
        requires
            x.wf(),
            x.in_range(),
        ensures
            forward_ok(*x, out),
    ;
}

/// A backend that is additionally differentiable: it still computes the
/// same forward output, and the autodiff graph may register backward nodes
/// for it.
pub trait AutodiffBackend: Backend {

}

/// The native CPU backend: nested iteration in the direct formulation.
pub struct CpuBackend;

impl Backend for CpuBackend {
    fn euclidean_pairwise_distance(x: &Matrix) -> (out: Matrix) {
        pairwise_distance_direct(x)
    }
}

/// The just-in-time compiled backend path: the batched expanded
/// formulation that a GPU workgroup kernel uses, with the clamp at zero
/// before the square root. It returns the same matrix as the CPU backend.
pub struct JitBackend;

impl Backend for JitBackend {
    fn euclidean_pairwise_distance(x: &Matrix) -> (out: Matrix) {
        pairwise_distance_expanded(x)
    }
}

/// The autodiff wrapper over an inner backend, as the graph sees it: the
/// forward value is the inner backend's, unchanged.
pub struct Autodiff<B> {
    marker: core::marker::PhantomData<B>,
}

impl<B: Backend> Backend for Autodiff<B> {
    fn euclidean_pairwise_distance(x: &Matrix) -> (out: Matrix) {
        B::euclidean_pairwise_distance(x)
    }
}

impl<B: Backend> AutodiffBackend for Autodiff<B> {

}

/// The operator boundary the optimizer calls: the pairwise Euclidean
/// distance matrix of the input's rows, computed by the active backend.
/// The output is square, symmetric, non-negative, and exactly zero on the
/// diagonal.
pub fn pairwise_distance<B: Backend>(x: &Matrix) -> (out: Matrix)
    requires
        x.wf(),
        x.in_range(),
    ensures
        forward_ok(*x, out),
        forall|i: int, j: int|
            0 <= i < out.rows && 0 <= j < out.rows ==> #[trigger] out.idx(i, j) == out.idx(j, i),
        forall|i: int| 0 <= i < out.rows ==> #[trigger] out.idx(i, i) == 0,
        forall|i: int, j: int|
            0 <= i < out.rows && 0 <= j < out.rows ==> 0 <= #[trigger] out.idx(i, j),
{
    let out = B::euclidean_pairwise_distance(x);
    proof {
        assert forall|i: int, j: int|
            0 <= i < out.rows && 0 <= j < out.rows implies #[trigger] out.idx(i, j) == out.idx(
            j,
            i,
        ) && 0 <= out.idx(i, j) by {
            forward::lemma_dist_symmetric(*x, i, j);
            forward::lemma_dist_nonneg(*x, i, j);
        }
        assert forall|i: int| 0 <= i < out.rows implies #[trigger] out.idx(i, i) == 0 by {
            forward::lemma_dist_diag_zero(*x, i);
        }
    }
    out
}

/// Checked operator entry: validate the input's shape and value range,
/// then dispatch to the active backend. Succeeds exactly on well-formed,
/// in-range inputs; a structural fault is surfaced before any kernel runs
/// and no partial result is ever returned.
pub fn pairwise_distance_checked<B: Backend>(x: &Matrix) -> (r: Result<Matrix, DistanceError>)
    ensures
        r is Ok <==> x.wf() && x.in_range(),
        r == Err::<Matrix, DistanceError>(DistanceError::ShapeMismatch) <==> !x.wf(),
        r == Err::<Matrix, DistanceError>(DistanceError::ValueOutOfRange) <==> x.wf()
            && !x.in_range(),
        r matches Ok(out) ==> forward_ok(*x, out),
{
    if x.rows > MAX_DIM || x.cols > MAX_DIM {
        return Err(DistanceError::ShapeMismatch);
    }
    proof {
        assert((x.rows as int) * (x.cols as int) <= 65536 * 65536) by (nonlinear_arith)
            requires
                0 <= x.rows <= 65536,
                0 <= x.cols <= 65536,
        ;
    }
    let expect = (x.rows as u64) * (x.cols as u64);
    if x.data.len() as u64 != expect {
        return Err(DistanceError::ShapeMismatch);
    }
    let mut t: usize = 0;
    while t < x.data.len()
        invariant
            x.wf(),
            t <= x.data.len(),
            forall|q: int|
                0 <= q < t ==> -(MAX_VAL as int) <= #[trigger] x.data@[q] <= MAX_VAL as int,
        decreases x.data.len() - t,
    {
        let v = x.data[t];
        if v > MAX_VAL || v < -MAX_VAL {
            return Err(DistanceError::ValueOutOfRange);
        }
        t = t + 1;
    }
    Ok(pairwise_distance::<B>(x))
}

} // verus!

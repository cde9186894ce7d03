//! Autodiff node registration: invoking the operator under a differentiable
//! backend produces an output tensor together with a graph node. The node
//! saves exactly the input (the only quantity the backward formula needs),
//! runs the backward kernel only when the graph asks for the gradient
//! (never eagerly), and releases the saved input afterwards or when the
//! graph prunes the node.

use crate::kernels::backward::{backward_ok, pairwise_distance_backward};
use crate::kernels::forward::forward_ok;
use crate::kernels::AutodiffBackend;
use crate::matrix::Matrix;
use vstd::prelude::*;

verus! {

/// The lifecycle of a tensor this operator produced, as the graph sees it.
pub enum NodeState {
    /// No gradient was requested: the graph retains nothing.
    Untracked,
    /// Part of the graph: the input is saved for the backward pass, which
    /// has not run yet.
    Recorded { input: Matrix },
    /// The backward pass has run once; the saved input was released.
    Differentiated,
    /// The graph pruned the node before any backward pass; the saved
    /// input was released.
    Discarded,
}

/// An output tensor of the operator together with its autodiff node.
pub struct TrackedTensor {
    pub value: Matrix,
    pub state: NodeState,
}

impl TrackedTensor {
    /// A tracked node saves a well-formed input whose forward output is
    /// exactly the held value.
    pub open spec fn inv(self) -> bool {
        match self.state {
            NodeState::Recorded { input } => {
                &&& input.wf()
                &&& input.in_range()
                &&& forward_ok(input, self.value)
            },
            _ => true,
        }
    }
}

/// Invoke the operator under autodiff backend `B`: run the forward kernel
/// and, exactly when a gradient is required, register a node that saves
/// the input. No gradient is computed here; backward work happens only if
/// the graph later requests it.
pub fn forward_tracked<B: AutodiffBackend>(x: Matrix, requires_grad: bool) -> (t: TrackedTensor)
    requires
        x.wf(),
        x.in_range(),
    ensures
        t.inv(),
        forward_ok(x, t.value),
        requires_grad ==> t.state == (NodeState::Recorded { input: x }),
        !requires_grad ==> t.state == NodeState::Untracked,
{
    let value = B::euclidean_pairwise_distance(&x);
    if requires_grad {
        TrackedTensor { value, state: NodeState::Recorded { input: x } }
    } else {
        TrackedTensor { value, state: NodeState::Untracked }
    }
}

/// The graph's reverse traversal reached the node: run the backward kernel
/// on the saved input and the upstream gradient, release the input, and
/// move the node to its differentiated state. Happens at most once, since
/// the node leaves its tracked state here.
pub fn backward_step(t: TrackedTensor, g: &Matrix) -> (r: (Matrix, TrackedTensor))
    requires
        t.inv(),
        t.state matches NodeState::Recorded { input },
        g.wf(),
        g.in_range(),
        g.rows == t.value.rows,
        g.cols == t.value.cols,
    ensures
        r.1.value == t.value,
        r.1.state == NodeState::Differentiated,
        t.state matches NodeState::Recorded { input } ==> backward_ok(input, *g, r.0),
{
    let TrackedTensor { value, state } = t;
    match state {
        NodeState::Recorded { input } => {
            let gx = pairwise_distance_backward(&input, g);
            (gx, TrackedTensor { value, state: NodeState::Differentiated })
        },
        _ => vstd::pervasive::unreached(),
    }
}

/// The graph pruned the node: drop the saved input without ever running
/// the backward kernel (no wasted work), keeping the forward value.
pub fn discard(t: TrackedTensor) -> (r: TrackedTensor)
    ensures
        r.value == t.value,
        r.state == NodeState::Discarded,
{
    let TrackedTensor { value, state: _ } = t;
    TrackedTensor { value, state: NodeState::Discarded }
}

} // verus!

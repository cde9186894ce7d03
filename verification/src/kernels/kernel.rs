//! Kernel-binding cache for the just-in-time path: compiled kernels are
//! keyed by input shape and device identity, compiled lazily on first use,
//! and looked up without recompilation afterwards — at most one binding
//! ever exists per distinct key.

use crate::kernels::forward::{forward_ok, pairwise_distance_expanded};
use crate::matrix::Matrix;
use vstd::prelude::*;

verus! {

/// The key a compiled kernel is cached under: the input shape and the
/// identity of the device it was compiled for.
#[derive(Debug, Clone, Copy, PartialEq, Eq, Structural)]
pub struct KernelKey {
    pub rows: usize,
    pub cols: usize,
    pub device: usize,
}

/// The process-wide cache of compiled kernel bindings. A binding is
/// addressed by the slot the cache assigned when it was first compiled.
pub struct KernelCache {
    pub keys: Vec<KernelKey>,
}

impl KernelCache {
    /// Some slot already holds a binding for `key`.
    pub open spec fn has_key(self, key: KernelKey) -> bool {
        exists|t: int| 0 <= t < self.keys.len() && self.keys@[t] == key
    }

    /// No key is bound twice: at most one compilation per distinct key.
    pub open spec fn inv(self) -> bool {
        forall|a: int, b: int|
            0 <= a < b < self.keys.len() ==> #[trigger] self.keys@[a] != #[trigger] self.keys@[b]
    }

    /// An empty cache, as the process starts.
    pub fn new() -> (c: KernelCache)
        ensures
            c.inv(),
            c.keys@.len() == 0,
    {
        KernelCache { keys: Vec::new() }
    }

    /// The slot of the binding for `key`, compiling at most once: a hit
    /// leaves the cache unchanged, a miss appends exactly the one missing
    /// binding. Bindings of other keys are never touched, so concurrent
    /// readers of cached slots stay valid.
    pub fn get_or_insert(&mut self, key: KernelKey) -> (slot: usize)
        requires
            old(self).inv(),
            old(self).keys.len() < 1000000,
        ensures
            final(self).inv(),
            slot < final(self).keys.len(),
            final(self).keys@[slot as int] == key,
            final(self).has_key(key),
            old(self).has_key(key) ==> *final(self) == *old(self),
            !old(self).has_key(key) ==> final(self).keys@ == old(self).keys@.push(key),
    {
        let mut t: usize = 0;
        while t < self.keys.len()
            invariant
                *self == *old(self),
                self.inv(),
                t <= self.keys.len(),
                forall|q: int| 0 <= q < t ==> self.keys@[q] != key,
            decreases self.keys.len() - t,
        {
            let cand = self.keys[t];
            if cand.rows == key.rows && cand.cols == key.cols && cand.device == key.device {
                proof {
                    assert(self.keys@[t as int] == key);
                }
                return t;
            }
            t = t + 1;
        }
        let slot = self.keys.len();
        self.keys.push(key);
        proof {
            assert(!old(self).has_key(key));
            assert forall|a: int, b: int| 0 <= a < b < self.keys.len() implies #[trigger] self
                .keys@[a] != #[trigger] self.keys@[b] by {
                if b == self.keys.len() - 1 {
                    assert(self.keys@[a] != key);
                }
            }
        }
        slot
    }
}

/// Dispatch one forward call on the just-in-time path: get or create the
/// binding for the input's shape on the given device (compiling at most
/// once per key), then run the batched kernel. Repeated calls with one
/// shape and device reuse the cached binding.
pub fn jit_dispatch(cache: &mut KernelCache, device: usize, x: &Matrix) -> (out: Matrix)
    requires
        old(cache).inv(),
        old(cache).keys.len() < 1000000,
        x.wf(),
        x.in_range(),
    ensures
        final(cache).inv(),
        final(cache).has_key(KernelKey { rows: x.rows, cols: x.cols, device }),
        old(cache).has_key(KernelKey { rows: x.rows, cols: x.cols, device }) ==> *final(cache)
            == *old(cache),
        forward_ok(*x, out),
{
    let key = KernelKey { rows: x.row_count(), cols: x.col_count(), device };
    let _slot = cache.get_or_insert(key);
    pairwise_distance_expanded(x)
}

} // verus!

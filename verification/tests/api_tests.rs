use fast_umap::chart::ChartConfig;
use fast_umap::graph::{backward_step, discard, forward_tracked, NodeState};
use fast_umap::kernels::kernel::{jit_dispatch, KernelCache, KernelKey};
use fast_umap::kernels::{pairwise_distance_checked, Autodiff, CpuBackend, JitBackend};
use fast_umap::matrix::{DistanceError, Matrix};

fn mat(rows: Vec<Vec<i64>>) -> Matrix {
    Matrix::from_rows(&rows).unwrap()
}

#[test]
fn from_rows_rejects_ragged_input() {
    let r = Matrix::from_rows(&vec![vec![1, 2], vec![3]]);
    assert_eq!(r.unwrap_err(), DistanceError::ShapeMismatch);
}

#[test]
fn from_rows_rejects_out_of_range_values() {
    let r = Matrix::from_rows(&vec![vec![0, 0], vec![0, 1048577]]);
    assert_eq!(r.unwrap_err(), DistanceError::ValueOutOfRange);
    let r = Matrix::from_rows(&vec![vec![-1048577]]);
    assert_eq!(r.unwrap_err(), DistanceError::ValueOutOfRange);
}

#[test]
fn from_rows_accepts_boundary_values() {
    let m = mat(vec![vec![1048576, -1048576]]);
    assert_eq!(m.get(0, 0), 1048576);
    assert_eq!(m.get(0, 1), -1048576);
}

#[test]
fn to_rows_round_trips() {
    let rows = vec![vec![1, -2, 3], vec![4, 5, -6]];
    let m = mat(rows.clone());
    assert_eq!(m.to_rows(), rows);
}

#[test]
fn checked_operator_rejects_malformed_shape() {
    // A buffer that does not match its declared shape never reaches a
    // kernel: the structural error is surfaced first.
    let bad = Matrix { data: vec![1, 2, 3], rows: 2, cols: 2 };
    let r = pairwise_distance_checked::<CpuBackend>(&bad);
    assert_eq!(r.unwrap_err(), DistanceError::ShapeMismatch);
}

#[test]
fn checked_operator_rejects_out_of_range_entries() {
    let bad = Matrix { data: vec![0, 9999999], rows: 2, cols: 1 };
    let r = pairwise_distance_checked::<CpuBackend>(&bad);
    assert_eq!(r.unwrap_err(), DistanceError::ValueOutOfRange);
}

#[test]
fn checked_operator_accepts_valid_input() {
    let x = mat(vec![vec![0, 0], vec![3, 4]]);
    let out = pairwise_distance_checked::<JitBackend>(&x).unwrap();
    assert_eq!(out.to_rows(), vec![vec![0, 5], vec![5, 0]]);
}

#[test]
fn tracked_forward_records_input() {
    let x = mat(vec![vec![0, 0], vec![3, 4]]);
    let t = forward_tracked::<Autodiff<CpuBackend>>(x, true);
    assert_eq!(t.value.to_rows(), vec![vec![0, 5], vec![5, 0]]);
    match &t.state {
        NodeState::Recorded { input } => {
            assert_eq!(input.to_rows(), vec![vec![0, 0], vec![3, 4]]);
        },
        _ => panic!("expected a recorded node"),
    }
}

#[test]
fn untracked_forward_records_nothing() {
    let x = mat(vec![vec![0, 0], vec![3, 4]]);
    let t = forward_tracked::<Autodiff<JitBackend>>(x, false);
    assert_eq!(t.value.to_rows(), vec![vec![0, 5], vec![5, 0]]);
    assert!(matches!(t.state, NodeState::Untracked));
}

#[test]
fn backward_step_differentiates_once() {
    let x = mat(vec![vec![0, 0], vec![3, 4]]);
    let t = forward_tracked::<Autodiff<CpuBackend>>(x, true);
    let g = mat(vec![vec![1, 1], vec![1, 1]]);
    let (gx, t) = backward_step(t, &g);
    assert_eq!(gx.to_rows(), vec![vec![-1, -1], vec![1, 1]]);
    assert!(matches!(t.state, NodeState::Differentiated));
    assert_eq!(t.value.to_rows(), vec![vec![0, 5], vec![5, 0]]);
}

#[test]
fn discard_prunes_without_backward_work() {
    let x = mat(vec![vec![0], vec![3]]);
    let t = forward_tracked::<Autodiff<CpuBackend>>(x, true);
    let t = discard(t);
    assert!(matches!(t.state, NodeState::Discarded));
    assert_eq!(t.value.to_rows(), vec![vec![0, 3], vec![3, 0]]);
}

#[test]
fn kernel_cache_compiles_once_per_key() {
    let mut cache = KernelCache::new();
    let key = KernelKey { rows: 64, cols: 2, device: 0 };
    let first = cache.get_or_insert(key);
    let again = cache.get_or_insert(key);
    assert_eq!(first, again);
    assert_eq!(cache.keys.len(), 1);

    let other = KernelKey { rows: 64, cols: 2, device: 1 };
    let slot = cache.get_or_insert(other);
    assert_ne!(slot, first);
    assert_eq!(cache.keys.len(), 2);
    assert_eq!(cache.get_or_insert(key), first);
}

#[test]
fn chart_config_defaults() {
    let c = ChartConfig::default();
    assert_eq!(c.caption, "fast-umap");
    assert_eq!(c.path, "plot.png");
    assert_eq!(c.width, 1000);
    assert_eq!(c.height, 1000);
}

#[test]
fn chart_builder_overrides_and_falls_back() {
    let c = ChartConfig::builder()
        .caption("embedding")
        .path("out/embedding.png")
        .width(640)
        .build();
    assert_eq!(c.caption, "embedding");
    assert_eq!(c.path, "out/embedding.png");
    assert_eq!(c.width, 640);
    assert_eq!(c.height, 1000);
}

#[test]
fn jit_dispatch_caches_binding_per_shape() {
    let mut cache = KernelCache::new();
    let x = mat(vec![vec![0, 0], vec![3, 4]]);
    let out = jit_dispatch(&mut cache, 0, &x);
    assert_eq!(out.to_rows(), vec![vec![0, 5], vec![5, 0]]);
    assert_eq!(cache.keys.len(), 1);

    let y = mat(vec![vec![1, 1], vec![0, 0]]);
    jit_dispatch(&mut cache, 0, &y);
    assert_eq!(cache.keys.len(), 1);

    jit_dispatch(&mut cache, 1, &y);
    assert_eq!(cache.keys.len(), 2);
}

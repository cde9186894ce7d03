use fast_umap::kernels::forward::{pairwise_distance_direct, pairwise_distance_expanded};
use fast_umap::kernels::{pairwise_distance, CpuBackend, JitBackend};
use fast_umap::matrix::Matrix;

fn mat(rows: Vec<Vec<i64>>) -> Matrix {
    Matrix::from_rows(&rows).unwrap()
}

#[test]
fn forward_three_four_five() {
    // Rows 0 and 2 coincide; rows 0 and 1 span a 3-4-5 right triangle.
    let x = mat(vec![vec![0, 0], vec![3, 4], vec![0, 0]]);
    let out = pairwise_distance::<CpuBackend>(&x);
    let expected = vec![vec![0, 5, 0], vec![5, 0, 5], vec![0, 5, 0]];
    assert_eq!(out.to_rows(), expected);
}

#[test]
fn forward_output_is_symmetric() {
    let x = mat(vec![vec![1, 7, -3], vec![4, -2, 0], vec![-5, 5, 5], vec![0, 0, 9]]);
    let out = pairwise_distance::<CpuBackend>(&x);
    let n = out.row_count();
    for i in 0..n {
        for j in 0..n {
            assert_eq!(out.get(i, j), out.get(j, i));
        }
    }
}

#[test]
fn forward_diagonal_is_exactly_zero() {
    let x = mat(vec![vec![123, -456], vec![789, 1000], vec![-1000000, 1000000]]);
    let out = pairwise_distance::<CpuBackend>(&x);
    for i in 0..out.row_count() {
        assert_eq!(out.get(i, i), 0);
    }
}

#[test]
fn forward_entries_are_non_negative() {
    let x = mat(vec![vec![-9, 8], vec![7, -6], vec![-5, 4], vec![3, -2]]);
    let out = pairwise_distance::<CpuBackend>(&x);
    for i in 0..out.row_count() {
        for j in 0..out.col_count() {
            assert!(out.get(i, j) >= 0);
        }
    }
}

#[test]
fn forward_rounds_square_roots_down() {
    // Squared distance 2 between the rows: the entry is floor(sqrt(2)) = 1.
    let x = mat(vec![vec![0, 0], vec![1, 1]]);
    let out = pairwise_distance::<CpuBackend>(&x);
    assert_eq!(out.to_rows(), vec![vec![0, 1], vec![1, 0]]);
}

#[test]
fn forward_empty_and_single_row() {
    let empty = mat(vec![]);
    let out = pairwise_distance::<CpuBackend>(&empty);
    assert_eq!(out.row_count(), 0);
    assert_eq!(out.col_count(), 0);

    let single = mat(vec![vec![42, -17, 5]]);
    let out = pairwise_distance::<CpuBackend>(&single);
    assert_eq!(out.to_rows(), vec![vec![0]]);
}

#[test]
fn cross_backend_outputs_agree() {
    // The native direct kernel and the batched expanded kernel return the
    // same matrix, entry for entry.
    let x = mat(vec![
        vec![10, -20, 30, 5],
        vec![-7, 14, 0, 81],
        vec![0, 0, 0, 0],
        vec![1000, 999, -998, 3],
        vec![10, -20, 30, 5],
    ]);
    let a = pairwise_distance_direct(&x);
    let b = pairwise_distance_expanded(&x);
    assert_eq!(a.to_rows(), b.to_rows());
    let c = pairwise_distance::<JitBackend>(&x);
    assert_eq!(a.to_rows(), c.to_rows());
}

#[test]
fn triangle_inequality_with_unit_slack() {
    // Collinear points at squared distances 3, 3 and 12: the floor roots
    // are 1, 1 and 3, which needs exactly the one unit of slack.
    let x = mat(vec![vec![0, 0, 0], vec![1, 1, 1], vec![2, 2, 2]]);
    let out = pairwise_distance::<CpuBackend>(&x);
    let n = out.row_count();
    for i in 0..n {
        for j in 0..n {
            for l in 0..n {
                assert!(out.get(i, l) <= out.get(i, j) + out.get(j, l) + 1);
            }
        }
    }
    assert_eq!(out.get(0, 2), 3);
    assert_eq!(out.get(0, 1) + out.get(1, 2), 2);
}

#[test]
fn triangle_inequality_sampled_triples() {
    let x = mat(vec![
        vec![0, 0],
        vec![3, 4],
        vec![-5, 12],
        vec![8, -15],
        vec![7, 7],
        vec![-1, -1],
    ]);
    let out = pairwise_distance::<CpuBackend>(&x);
    let n = out.row_count();
    for i in 0..n {
        for j in 0..n {
            for l in 0..n {
                assert!(out.get(i, l) <= out.get(i, j) + out.get(j, l) + 1);
            }
        }
    }
}

#[test]
fn forward_largest_allowed_values() {
    let x = mat(vec![vec![-1048576], vec![1048576]]);
    let out = pairwise_distance::<CpuBackend>(&x);
    assert_eq!(out.get(0, 1), 2097152);
    assert_eq!(out.get(1, 0), 2097152);
}

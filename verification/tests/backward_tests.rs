use fast_umap::kernels::backward::{pairwise_distance_backward, pairwise_distance_backward_jit};
use fast_umap::matrix::Matrix;

fn mat(rows: Vec<Vec<i64>>) -> Matrix {
    Matrix::from_rows(&rows).unwrap()
}

fn ones(n: usize) -> Matrix {
    mat(vec![vec![1; n]; n])
}

#[test]
fn backward_three_four_five_sum_gradient() {
    // Gradient of the sum of all output entries: rows 0 and 2 coincide, so
    // their mutual contribution is zero and only the pull toward row 1
    // remains; every entry is finite and defined.
    let x = mat(vec![vec![0, 0], vec![3, 4], vec![0, 0]]);
    let g = ones(3);
    let gx = pairwise_distance_backward(&x, &g);
    let expected = vec![vec![-1, -1], vec![2, 2], vec![-1, -1]];
    assert_eq!(gx.to_rows(), expected);
}

#[test]
fn backward_exact_division() {
    // One pair at distance 3, upstream weight 10 on one order only:
    // the combined weight of the pair divides exactly.
    let x = mat(vec![vec![0], vec![3]]);
    let g = mat(vec![vec![0, 10], vec![0, 0]]);
    let gx = pairwise_distance_backward(&x, &g);
    assert_eq!(gx.to_rows(), vec![vec![-10], vec![10]]);
}

#[test]
fn backward_contributions_cancel_pairwise() {
    // The contribution a pair adds to one row is the exact negation of
    // what it adds to the other, so a symmetric upstream gradient makes
    // the gradient entries of a two-row input cancel.
    let x = mat(vec![vec![2, -1], vec![-4, 7]]);
    let g = ones(2);
    let gx = pairwise_distance_backward(&x, &g);
    let rows = gx.to_rows();
    assert_eq!(rows[0][0], -rows[1][0]);
    assert_eq!(rows[0][1], -rows[1][1]);
}

#[test]
fn backward_identical_rows_give_zero() {
    // Every pair is at distance zero: the degenerate case is defined to
    // contribute exactly zero, never an undefined value.
    let x = mat(vec![vec![5, 5], vec![5, 5], vec![5, 5]]);
    let g = ones(3);
    let gx = pairwise_distance_backward(&x, &g);
    assert_eq!(gx.to_rows(), vec![vec![0, 0], vec![0, 0], vec![0, 0]]);
}

#[test]
fn backward_truncates_toward_zero() {
    // Distance floor(sqrt(2)) = 1, so each pair term is (+-2)/1; with a
    // distance of 5 and weight 2 the quotient 6/5 truncates to 1.
    let x = mat(vec![vec![0, 0], vec![3, 4], vec![3, 3]]);
    let g = ones(3);
    let gx = pairwise_distance_backward(&x, &g);
    // Row 0: toward row 1 over distance 5: 2*(0-3)/5 = -1, 2*(0-4)/5 = -1;
    //        toward row 2 over distance isqrt(18) = 4: 2*(0-3)/4 = -1 each.
    assert_eq!(gx.to_rows()[0], vec![-2, -2]);
}

#[test]
fn backward_zero_upstream_gives_zero() {
    let x = mat(vec![vec![1, 2], vec![3, 4]]);
    let g = mat(vec![vec![0, 0], vec![0, 0]]);
    let gx = pairwise_distance_backward(&x, &g);
    assert_eq!(gx.to_rows(), vec![vec![0, 0], vec![0, 0]]);
}

#[test]
fn analytic_gradient_matches_finite_difference() {
    // Finite-difference check of the analytic gradient: the loss is the
    // sum of all output entries. The library's gradient rounds each pair
    // term toward zero and roots each distance down, so it matches the
    // real-valued finite difference within the fixed-point resolution
    // (one unit per neighbor term), not bit-exactly.
    let rows: Vec<Vec<i64>> = vec![
        vec![500, 100, 200],
        vec![0, 300, 400],
        vec![200, 200, 0],
        vec![400, 0, 100],
    ];
    let x = mat(rows.clone());
    let g = ones(4);
    let gx = pairwise_distance_backward(&x, &g);

    let f = |vals: &Vec<Vec<f64>>| -> f64 {
        let mut total = 0.0f64;
        for i in 0..vals.len() {
            for j in 0..vals.len() {
                let mut sq = 0.0f64;
                for k in 0..vals[i].len() {
                    let d = vals[i][k] - vals[j][k];
                    sq += d * d;
                }
                total += sq.sqrt();
            }
        }
        total
    };

    let base: Vec<Vec<f64>> = rows.iter().map(|r| r.iter().map(|&v| v as f64).collect()).collect();
    let h = 0.5f64;
    for i in 0..4 {
        for k in 0..3 {
            let mut up = base.clone();
            up[i][k] += h;
            let mut down = base.clone();
            down[i][k] -= h;
            let fd = (f(&up) - f(&down)) / (2.0 * h);
            let analytic = gx.get(i, k) as f64;
            let err = (analytic - fd).abs();
            assert!(
                err <= 4.0,
                "entry ({}, {}): analytic {} vs finite difference {}",
                i,
                k,
                analytic,
                fd
            );
        }
    }
}

#[test]
fn cross_backend_gradients_agree() {
    // The native gather-order reduction and the batched reverse-order
    // reduction return the same gradient, entry for entry.
    let x = mat(vec![vec![10, -20, 30], vec![-7, 14, 0], vec![0, 0, 0], vec![9, 9, 9]]);
    let g = mat(vec![
        vec![1, 2, 3, 4],
        vec![-1, 0, 5, -6],
        vec![7, -8, 9, 10],
        vec![0, 11, -12, 13],
    ]);
    let a = pairwise_distance_backward(&x, &g);
    let b = pairwise_distance_backward_jit(&x, &g);
    assert_eq!(a.to_rows(), b.to_rows());
}

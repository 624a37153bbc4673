use matc::{gauss, jacobi, Mat};

fn bits_vec(v: &[f64]) -> Vec<u64> {
    v.iter().map(|x| x.to_bits()).collect()
}

fn floats(v: &[u64]) -> Vec<f64> {
    v.iter().map(|x| f64::from_bits(*x)).collect()
}

fn mat_of(n: usize, v: &[f64]) -> Mat {
    Mat::from_vec(n, bits_vec(v))
}

fn assert_close(got: &[u64], want: &[f64], tol: f64) {
    let got = floats(got);
    assert_eq!(got.len(), want.len());
    for (g, w) in got.iter().zip(want.iter()) {
        assert!((g - w).abs() < tol, "{g} !~ {w}");
    }
}

#[test]
fn concrete_two_by_two() {
    let a = mat_of(2, &[2.0, 1.0, 5.0, 7.0]);
    let b = bits_vec(&[11.0, 13.0]);
    let x = gauss(a, b).unwrap();
    assert_close(&x, &[7.1111, -3.2222], 1e-4);
}

#[test]
fn concrete_two_by_two_iterative() {
    // The same system is strictly diagonally dominant by rows
    // (|2| > |1| and |7| > |5|), so the Jacobi sweeps converge on it too.
    let a = mat_of(2, &[2.0, 1.0, 5.0, 7.0]);
    let b = bits_vec(&[11.0, 13.0]);
    let x = jacobi(&a, &b, 1e-10f64.to_bits(), 1000).expect("dominant system converges");
    assert_close(&x, &[7.1111, -3.2222], 1e-4);
}

#[test]
fn one_by_one() {
    let a = mat_of(1, &[5.0]);
    let b = bits_vec(&[10.0]);
    let x = gauss(a, b).unwrap();
    assert_close(&x, &[2.0], 1e-12);
}

#[test]
fn pivoting_zero_diagonal() {
    // Without row exchange the first pivot would be an exact zero.
    let a = mat_of(2, &[0.0, 1.0, 1.0, 0.0]);
    let b = bits_vec(&[3.0, 2.0]);
    let x = gauss(a, b).unwrap();
    assert_close(&x, &[2.0, 3.0], 1e-12);
}

#[test]
fn pivot_tie_is_handled() {
    // Both rows offer the same scaled pivot quantity 0.5 in column 0.
    let a = mat_of(2, &[2.0, 4.0, 3.0, -6.0]);
    let b = bits_vec(&[6.0, -3.0]);
    let x = gauss(a, b).unwrap();
    assert_close(&x, &[1.0, 1.0], 1e-12);
}

#[test]
fn round_trip_direct() {
    // b is built as A * x; the solver has to give x back within tolerance.
    let n = 5;
    let entries: Vec<f64> = (0..n * n)
        .map(|k| {
            let off = ((k * 7 + 3) % 11) as f64 - 5.0;
            if k % (n + 1) == 0 { off + 40.0 } else { off }
        })
        .collect();
    let x_true: Vec<f64> = (0..n).map(|k| (k as f64) - 2.5).collect();
    let a = mat_of(n, &entries);
    let b = a.mul_vec(&bits_vec(&x_true));
    let x = gauss(a, b).unwrap();
    assert_close(&x, &x_true, 1e-6);
}

#[test]
fn round_trip_direct_larger() {
    let n = 12;
    let entries: Vec<f64> = (0..n * n)
        .map(|k| {
            let off = ((k * 13 + 5) % 17) as f64 - 8.0;
            if k % (n + 1) == 0 { off + 100.0 } else { off }
        })
        .collect();
    let x_true: Vec<f64> = (0..n).map(|k| ((k * 3 % 7) as f64) - 3.0).collect();
    let a = mat_of(n, &entries);
    let b = a.mul_vec(&bits_vec(&x_true));
    let x = gauss(a, b).unwrap();
    assert_close(&x, &x_true, 1e-6);
}

#[test]
fn gauss_is_deterministic() {
    let entries = [3.0, -1.5, 0.25, 7.5, 2.0, -4.0, 1.0, 0.5, 6.0];
    let rhs = [1.0, -2.0, 3.5];
    let x1 = gauss(mat_of(3, &entries), bits_vec(&rhs)).unwrap();
    let x2 = gauss(mat_of(3, &entries), bits_vec(&rhs)).unwrap();
    // Bit-identical, not merely close.
    assert_eq!(x1, x2);
}

#[test]
fn jacobi_converges_on_dominant_system() {
    // Strictly diagonally dominant by rows.
    let a = mat_of(2, &[4.0, 1.0, 2.0, 5.0]);
    let x_true = [1.0, 2.0];
    let b = a.mul_vec(&bits_vec(&x_true));
    let a2 = mat_of(2, &[4.0, 1.0, 2.0, 5.0]);
    let x = jacobi(&a2, &b, 1e-10f64.to_bits(), 1000).expect("dominant system converges");
    assert_close(&x, &x_true, 1e-6);
}

#[test]
fn jacobi_exact_on_diagonal_system() {
    let a = mat_of(2, &[2.0, 0.0, 0.0, 4.0]);
    let b = bits_vec(&[2.0, 4.0]);
    let x = jacobi(&a, &b, 1e-9f64.to_bits(), 10).unwrap();
    assert_eq!(floats(&x), vec![1.0, 1.0]);
}

#[test]
fn jacobi_reports_divergence() {
    // Far from diagonally dominant; the sweeps diverge, so the budget is
    // exhausted and the explicit failure value comes back.
    let a = mat_of(2, &[1.0, 2.0, 3.0, 1.0]);
    let b = bits_vec(&[1.0, 1.0]);
    assert!(jacobi(&a, &b, 1e-9f64.to_bits(), 60).is_none());
}

#[test]
fn jacobi_zero_budget_fails() {
    let a = mat_of(1, &[2.0]);
    let b = bits_vec(&[2.0]);
    assert!(jacobi(&a, &b, 1e-9f64.to_bits(), 0).is_none());
}

#[test]
fn mul_vec_exact() {
    let a = mat_of(2, &[1.0, 2.0, 3.0, 4.0]);
    let r = a.mul_vec(&bits_vec(&[5.0, 6.0]));
    assert_eq!(floats(&r), vec![17.0, 39.0]);
}

#[test]
fn matrix_get_set_swap() {
    let mut a = mat_of(2, &[1.0, 2.0, 3.0, 4.0]);
    assert_eq!(a.get(0, 1), 2.0f64.to_bits());
    a.set(0, 1, 9.0f64.to_bits());
    assert_eq!(a.get(0, 1), 9.0f64.to_bits());
    a.swap_rows(0, 1);
    assert_eq!(floats(&a.data), vec![3.0, 4.0, 1.0, 9.0]);
    a.swap_rows(1, 1);
    assert_eq!(floats(&a.data), vec![3.0, 4.0, 1.0, 9.0]);
}

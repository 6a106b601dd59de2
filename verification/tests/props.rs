use rsmath::Matrix;
use rsmath::MatrixError;

fn mat(rows: usize, cols: usize, vals: &[f64]) -> Matrix {
    let data: Vec<u64> = vals.iter().map(|v| v.to_bits()).collect();
    Matrix::from_data(rows, cols, data).unwrap()
}

fn vals(m: &Matrix) -> Vec<f64> {
    m.as_vec().iter().map(|b| f64::from_bits(*b)).collect()
}

fn approx_all(m: &Matrix, expected: &[f64]) -> bool {
    let got = vals(m);
    got.len() == expected.len()
        && got.iter().zip(expected.iter()).all(|(a, b)| (a - b).abs() < 1e-9)
}

#[test]
fn add_commutes() {
    let a = mat(2, 3, &[1.5, -2.0, 3.25, 0.5, 7.0, -0.125]);
    let b = mat(2, 3, &[4.0, 0.75, -6.5, 2.0, -3.0, 9.0]);
    assert_eq!(a.add(&b).unwrap(), b.add(&a).unwrap());
}

#[test]
fn add_then_sub_round_trips() {
    let a = mat(2, 2, &[1.0, 2.0, 3.0, 4.0]);
    let b = mat(2, 2, &[5.0, 6.0, 7.0, 8.0]);
    let back = a.add(&b).unwrap().sub(&b).unwrap();
    assert_eq!(back, a);
}

#[test]
fn mul_identity_both_sides() {
    let a = mat(3, 3, &[1.0, -2.5, 3.0, 0.0, 5.5, -6.0, 7.0, 8.0, 9.25]);
    let i3 = Matrix::identity(3).unwrap();
    assert_eq!(a.mul(&i3).unwrap(), a);
    assert_eq!(i3.mul(&a).unwrap(), a);
}

#[test]
fn mul_identity_rectangular() {
    let a = mat(2, 3, &[1.0, 2.0, 3.0, 4.0, 5.0, 6.0]);
    let i3 = Matrix::identity(3).unwrap();
    let i2 = Matrix::identity(2).unwrap();
    assert_eq!(a.mul(&i3).unwrap(), a);
    assert_eq!(i2.mul(&a).unwrap(), a);
}

#[test]
fn transpose_involution() {
    let a = mat(2, 3, &[1.0, -2.0, 3.5, 4.0, 0.0, -6.25]);
    assert_eq!(a.transpose().transpose(), a);
}

#[test]
fn inverse_times_matrix_is_identity() {
    let a = mat(2, 2, &[1.0, 2.0, 3.0, 4.0]);
    let inv = a.inverse().unwrap();
    assert!(approx_all(&a.mul(&inv).unwrap(), &[1.0, 0.0, 0.0, 1.0]));

    let a = mat(3, 3, &[1.0, 2.0, 3.0, 4.0, 6.0, 8.0, 9.0, 10.0, 12.0]);
    let inv = a.inverse().unwrap();
    assert!(approx_all(
        &a.mul(&inv).unwrap(),
        &[1.0, 0.0, 0.0, 0.0, 1.0, 0.0, 0.0, 0.0, 1.0],
    ));
}

#[test]
fn solve_satisfies_system() {
    let a = mat(2, 2, &[1.0, 2.0, 3.0, 4.0]);
    let b = mat(2, 1, &[5.0, 6.0]);
    let x = a.solve(&b).unwrap();
    assert!(approx_all(&a.mul(&x).unwrap(), &[5.0, 6.0]));

    let a = mat(3, 3, &[2.0, 1.0, -1.0, -3.0, -1.0, 2.0, -2.0, 1.0, 2.0]);
    let b = mat(3, 1, &[8.0, -11.0, -3.0]);
    let x = a.solve(&b).unwrap();
    assert!(approx_all(&a.mul(&x).unwrap(), &[8.0, -11.0, -3.0]));
}

#[test]
fn from_data_length_mismatch() {
    let data: Vec<u64> = vec![1.0f64.to_bits(), 2.0f64.to_bits(), 3.0f64.to_bits()];
    assert_eq!(
        Matrix::from_data(2, 2, data).unwrap_err(),
        MatrixError::DimensionMismatch
    );
}

#[test]
fn from_data_zero_dimension() {
    assert_eq!(
        Matrix::from_data(0, 5, Vec::new()).unwrap_err(),
        MatrixError::ZeroDimension
    );
    assert_eq!(
        Matrix::from_data(3, 0, Vec::new()).unwrap_err(),
        MatrixError::ZeroDimension
    );
}

#[test]
fn new_zero_dimension() {
    assert_eq!(Matrix::new(0, 3).unwrap_err(), MatrixError::ZeroDimension);
    assert_eq!(Matrix::new(3, 0).unwrap_err(), MatrixError::ZeroDimension);
    assert_eq!(Matrix::identity(0).unwrap_err(), MatrixError::ZeroDimension);
}

#[test]
fn new_is_zero_filled() {
    let m = Matrix::new(2, 3).unwrap();
    assert_eq!(m.rows(), 2);
    assert_eq!(m.cols(), 3);
    for row in 0..m.rows() {
        for col in 0..m.cols() {
            assert_eq!(f64::from_bits(m.get(row, col).unwrap()), 0.0);
        }
    }
}

#[test]
fn get_out_of_bounds() {
    let m = mat(2, 2, &[1.0, 2.0, 3.0, 4.0]);
    assert_eq!(m.get(5, 0).unwrap_err(), MatrixError::IndexOutOfBounds);
    assert_eq!(m.get(0, 2).unwrap_err(), MatrixError::IndexOutOfBounds);
    assert_eq!(m.index(2, 0).unwrap_err(), MatrixError::IndexOutOfBounds);
}

#[test]
fn set_and_get() {
    let mut m = mat(2, 3, &[1.0, 2.0, 3.0, 4.0, 5.0, 6.0]);
    m.set(0, 0, 7.0f64.to_bits()).unwrap();
    assert_eq!(f64::from_bits(m.get(0, 0).unwrap()), 7.0);
    assert_eq!(f64::from_bits(m.get(1, 2).unwrap()), 6.0);
    assert_eq!(
        m.set(0, 3, 1.0f64.to_bits()).unwrap_err(),
        MatrixError::IndexOutOfBounds
    );
    assert_eq!(f64::from_bits(m.get(0, 1).unwrap()), 2.0);
}

#[test]
fn index_is_row_major() {
    let m = mat(2, 3, &[1.0, 2.0, 3.0, 4.0, 5.0, 6.0]);
    assert_eq!(m.index(0, 0).unwrap(), 0);
    assert_eq!(m.index(1, 2).unwrap(), 5);
}

#[test]
fn add_shape_mismatch() {
    let a = mat(2, 2, &[1.0, 2.0, 3.0, 4.0]);
    let b = mat(2, 3, &[1.0, 2.0, 3.0, 4.0, 5.0, 6.0]);
    assert_eq!(a.add(&b).unwrap_err(), MatrixError::DimensionMismatch);
    assert_eq!(a.sub(&b).unwrap_err(), MatrixError::DimensionMismatch);
}

#[test]
fn mul_inner_dimension_mismatch() {
    let a = mat(2, 2, &[1.0, 2.0, 3.0, 4.0]);
    let b = mat(3, 2, &[1.0, 2.0, 3.0, 4.0, 5.0, 6.0]);
    assert_eq!(a.mul(&b).unwrap_err(), MatrixError::DimensionMismatch);
}

#[test]
fn square_only_operations() {
    let a = mat(2, 3, &[1.0, 2.0, 3.0, 4.0, 5.0, 6.0]);
    assert_eq!(a.determinant().unwrap_err(), MatrixError::NotSquare);
    assert_eq!(a.inverse().unwrap_err(), MatrixError::NotSquare);
    let b = mat(2, 1, &[1.0, 2.0]);
    assert_eq!(a.solve(&b).unwrap_err(), MatrixError::NotSquare);
}

#[test]
fn solve_shape_mismatch() {
    let a = mat(2, 2, &[1.0, 2.0, 3.0, 4.0]);
    let b = mat(3, 1, &[1.0, 2.0, 3.0]);
    assert_eq!(a.solve(&b).unwrap_err(), MatrixError::DimensionMismatch);
    let b = mat(2, 2, &[1.0, 2.0, 3.0, 4.0]);
    assert_eq!(a.solve(&b).unwrap_err(), MatrixError::DimensionMismatch);
}

#[test]
fn exactly_singular_matrices_fail() {
    let a = mat(2, 2, &[1.0, 2.0, 2.0, 4.0]);
    assert_eq!(a.determinant().unwrap_err(), MatrixError::Singular);
    assert_eq!(a.inverse().unwrap_err(), MatrixError::Singular);
    let b = mat(2, 1, &[1.0, 2.0]);
    assert_eq!(a.solve(&b).unwrap_err(), MatrixError::Singular);

    let z = Matrix::new(3, 3).unwrap();
    assert_eq!(z.determinant().unwrap_err(), MatrixError::Singular);
}

#[test]
fn lu_factors_and_pivots() {
    // Pivoting selects row 1 (|3| > |1|), and the multiplier 1/3 lands in
    // the lower factor's cell.
    let a = mat(2, 2, &[1.0, 2.0, 3.0, 4.0]);
    let (lu, pivots) = Matrix::lu_decomposition(&a).unwrap();
    assert_eq!(pivots, vec![1, 1]);
    assert_eq!(
        vals(&lu),
        vec![3.0, 4.0, 1.0 / 3.0, 2.0 - 4.0 / 3.0]
    );
    // The caller's matrix is untouched.
    assert_eq!(vals(&a), vec![1.0, 2.0, 3.0, 4.0]);
}

#[test]
fn lu_pivots_by_absolute_value() {
    let a = mat(2, 2, &[-3.0, 1.0, 1.0, 1.0]);
    let (lu, pivots) = Matrix::lu_decomposition(&a).unwrap();
    assert_eq!(pivots, vec![0, 1]);
    assert_eq!(vals(&lu), vec![-3.0, 1.0, -1.0 / 3.0, 1.0 + 1.0 / 3.0]);
}

#[test]
fn lu_pivot_trace_records_each_step() {
    let a = mat(3, 3, &[1.0, 2.0, 3.0, 4.0, 6.0, 8.0, 9.0, 10.0, 12.0]);
    let (lu, pivots) = Matrix::lu_decomposition(&a).unwrap();
    assert_eq!(pivots, vec![2, 1, 2]);
    assert_eq!(f64::from_bits(lu.get(0, 0).unwrap()), 9.0);
    assert_eq!(f64::from_bits(lu.get(0, 2).unwrap()), 12.0);
}

#[test]
fn back_substitution_solves_factored_system() {
    let a = mat(2, 2, &[2.0, 0.0, 0.0, 2.0]);
    let (lu, pivots) = Matrix::lu_decomposition(&a).unwrap();
    let b = mat(2, 1, &[2.0, 4.0]);
    let x = lu.back_substitution(&pivots, b).unwrap();
    assert_eq!(vals(&x), vec![1.0, 2.0]);
}

#[test]
fn equality_is_bit_for_bit() {
    let a = mat(1, 2, &[0.0, 1.0]);
    let b = mat(1, 2, &[-0.0, 1.0]);
    let c = mat(1, 2, &[0.0, 1.0]);
    assert!(a != b);
    assert!(a == c);
    let d = mat(2, 1, &[0.0, 1.0]);
    assert!(a != d);
}

#[test]
fn determinant_sign_tracks_row_swaps() {
    // One swap: the diagonal product 3 * (2 - 4/3) is negated.
    let a = mat(2, 2, &[1.0, 2.0, 3.0, 4.0]);
    assert_eq!(f64::from_bits(a.determinant().unwrap()), -2.0);
    // No swap needed: determinant of an upper-triangular matrix is the
    // diagonal product.
    let u = mat(2, 2, &[3.0, 5.0, 0.0, 2.0]);
    assert_eq!(f64::from_bits(u.determinant().unwrap()), 6.0);
}

#[test]
fn identity_matrix_layout() {
    let i3 = Matrix::identity(3).unwrap();
    assert_eq!(
        vals(&i3),
        vec![1.0, 0.0, 0.0, 0.0, 1.0, 0.0, 0.0, 0.0, 1.0]
    );
}

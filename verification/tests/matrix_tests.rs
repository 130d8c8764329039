//! Construction, equality, arithmetic and transpose of matrices.

use tracer_math::matrix::{Matrix, MatrixError};
use tracer_math::tuple::Tuple;

fn units(v: f64) -> i128 {
    (v * 100_000.0).round() as i128
}

fn uvec(vals: &[f64]) -> Vec<i128> {
    vals.iter().map(|&v| units(v)).collect()
}

fn mat(w: usize, h: usize, vals: &[f64]) -> Matrix {
    Matrix::new(w, h, uvec(vals)).unwrap()
}

#[test]
fn test_new_matrix() {
    let matrix = Matrix::size(2, 2);

    assert_eq!(matrix.data, vec![0i128; 4])
}

#[test]
fn test_new_matrix_wrong_length() {
    let result = Matrix::new(2, 2, uvec(&[1.0, 2.0, 3.0]));

    assert_eq!(result.unwrap_err(), MatrixError::DimensionMismatch);
}

#[test]
fn test_index_matrix() {
    let matrix = mat(2, 2, &[1.0, 2.0, 3.0, 4.0]);

    assert_eq!(matrix.get(0, 0).unwrap(), units(1.0));
    assert_eq!(matrix.get(0, 1).unwrap(), units(2.0));
    assert_eq!(matrix.get(1, 0).unwrap(), units(3.0));
    assert_eq!(matrix.get(1, 1).unwrap(), units(4.0));
}

#[test]
fn test_index_matrix_out_of_range() {
    let matrix = mat(2, 2, &[1.0, 2.0, 3.0, 4.0]);

    assert_eq!(matrix.get(2, 0).unwrap_err(), MatrixError::IndexOutOfRange);
    assert_eq!(matrix.get(0, 2).unwrap_err(), MatrixError::IndexOutOfRange);
}

#[test]
fn test_set_matrix() {
    let mut matrix = Matrix::size(2, 2);

    matrix.set(1, 0, units(7.0)).unwrap();

    assert_eq!(matrix.get(1, 0).unwrap(), units(7.0));
    assert_eq!(matrix.get(0, 0).unwrap(), 0);
    assert_eq!(
        matrix.set(2, 2, units(1.0)).unwrap_err(),
        MatrixError::IndexOutOfRange
    );
}

#[test]
fn test_add_matrix_ok() {
    let matrix = mat(2, 2, &[1.0; 4]);
    let other = mat(2, 2, &[1.0; 4]);
    let result = mat(2, 2, &[2.0; 4]);

    assert_eq!(matrix.add(&other).unwrap(), result);
}

#[test]
fn test_add_matrix_fail() {
    let matrix = Matrix::size(2, 2);
    let other = Matrix::size(3, 2);

    assert_eq!(matrix.add(&other).unwrap_err(), MatrixError::DimensionMismatch);
}

#[test]
fn test_sub_matrix_ok() {
    let matrix = mat(2, 2, &[1.0; 4]);
    let other = mat(2, 2, &[1.0; 4]);
    let result = mat(2, 2, &[0.0; 4]);

    assert_eq!(matrix.sub(&other).unwrap(), result);
}

#[test]
fn test_sub_matrix_fail() {
    let matrix = Matrix::size(2, 2);
    let other = Matrix::size(3, 2);

    assert_eq!(matrix.sub(&other).unwrap_err(), MatrixError::DimensionMismatch);
}

#[test]
fn test_mul_matrix_scalar() {
    let matrix = mat(2, 2, &[1.0, 1.0, 1.0, 1.0]);
    let scalar = units(4.0);
    let result = mat(2, 2, &[4.0, 4.0, 4.0, 4.0]);

    assert_eq!(matrix.mul_scalar(scalar), result);
}

#[test]
fn test_mul_matrix_scalar_fraction() {
    let matrix = mat(2, 2, &[1.0, -2.0, 3.5, 0.00001]);
    let result = mat(2, 2, &[0.5, -1.0, 1.75, 0.00001]);

    // 0.00001 * 0.5 rounds half away from zero, up to one grid unit.
    assert_eq!(matrix.mul_scalar(units(0.5)), result);
}

#[test]
fn test_mul_matrices_ok() {
    let matrix = mat(
        4,
        4,
        &[
            1.0, 2.0, 3.0, 4.0, 5.0, 6.0, 7.0, 8.0, 9.0, 8.0, 7.0, 6.0, 5.0, 4.0, 3.0, 2.0,
        ],
    );

    let other = mat(
        4,
        4,
        &[
            -2.0, 1.0, 2.0, 3.0, 3.0, 2.0, 1.0, -1.0, 4.0, 3.0, 6.0, 5.0, 1.0, 2.0, 7.0, 8.0,
        ],
    );

    let result = mat(
        4,
        4,
        &[
            20.0, 22.0, 50.0, 48.0, 44.0, 54.0, 114.0, 108.0, 40.0, 58.0, 110.0, 102.0, 16.0,
            26.0, 46.0, 42.0,
        ],
    );

    assert_eq!(matrix.mul(&other).unwrap().data, result.data);
}

#[test]
fn test_mul_matrices_fail() {
    let matrix = Matrix::size(2, 2);
    let other = Matrix::size(3, 2);

    assert_eq!(matrix.mul(&other).unwrap_err(), MatrixError::DimensionMismatch);
}

#[test]
fn test_mul_matrix_tuple_ok() {
    let matrix = mat(
        4,
        4,
        &[
            1.0, 2.0, 3.0, 4.0, 2.0, 4.0, 4.0, 2.0, 8.0, 6.0, 4.0, 1.0, 0.0, 0.0, 0.0, 1.0,
        ],
    );
    let tuple = Tuple::new(units(1.0), units(2.0), units(3.0), units(1.0));
    let result = Tuple::new(units(18.0), units(24.0), units(33.0), units(1.0));

    assert_eq!(matrix.mul_tuple(&tuple).unwrap(), result);
}

#[test]
fn test_mul_matrix_tuple_fail() {
    let matrix = Matrix::size(4, 3);
    let narrow = Matrix::size(2, 4);
    let tuple = Tuple::new(units(1.0), units(2.0), units(3.0), units(1.0));

    assert_eq!(
        matrix.mul_tuple(&tuple).unwrap_err(),
        MatrixError::DimensionMismatch
    );
    assert_eq!(
        narrow.mul_tuple(&tuple).unwrap_err(),
        MatrixError::IndexOutOfRange
    );
}

#[test]
fn test_cmp_matrix() {
    let m1 = mat(
        4,
        4,
        &[
            1.0, 2.0, 3.0, 4.0, 5.0, 6.0, 7.0, 8.0, 9.0, 8.0, 7.0, 6.0, 5.0, 4.0, 3.0, 2.0,
        ],
    );
    let m2 = mat(
        4,
        4,
        &[
            1.0, 2.0, 3.0, 4.0, 5.0, 6.0, 7.0, 8.0, 9.0, 8.0, 7.0, 6.0, 5.0, 4.0, 3.0, 2.0,
        ],
    );
    let m3 = mat(
        4,
        4,
        &[
            2.0, 3.0, 4.0, 5.0, 6.0, 7.0, 8.0, 9.0, 8.0, 7.0, 6.0, 5.0, 4.0, 3.0, 2.0, 1.0,
        ],
    );

    assert_eq!(m1, m2);
    assert_ne!(m1, m3);
}

#[test]
fn test_cmp_matrix_tolerance() {
    let m1 = mat(2, 2, &[1.0, 2.0, 3.0, 4.0]);
    let close = mat(2, 2, &[1.001, 2.0, 3.0, 3.999]);
    let far = mat(2, 2, &[1.002, 2.0, 3.0, 4.0]);

    assert_eq!(m1, close);
    assert_ne!(m1, far);
}

#[test]
fn test_mul_identity_matrix() {
    let matrix = mat(
        4,
        4,
        &[
            0.0, 1.0, 2.0, 4.0, 1.0, 2.0, 4.0, 8.0, 2.0, 4.0, 8.0, 17.0, 4.0, 8.0, 16.0, 32.0,
        ],
    );
    let identity = matrix.identity();

    assert_eq!(matrix.mul(&identity).unwrap(), matrix);
}

#[test]
fn test_mul_identity_matrix_left() {
    let matrix = mat(
        4,
        4,
        &[
            0.5, 1.0, 2.0, 4.0, 1.0, 2.25, 4.0, 8.0, 2.0, 4.0, 8.0, 17.0, 4.0, 8.0, 16.0, 32.0,
        ],
    );
    let identity = Matrix::identity_matrix(4);

    assert_eq!(identity.mul(&matrix).unwrap(), matrix);
}

#[test]
fn test_mul_identity_matrix_tuple() {
    let matrix = Matrix::size(4, 4).identity();
    let tuple = Tuple::new(units(1.0), units(2.0), units(3.0), units(4.0));

    assert_eq!(matrix.mul_tuple(&tuple).unwrap(), tuple);
}

#[test]
fn test_transpose_matrix() {
    let matrix = mat(
        4,
        4,
        &[
            0.0, 9.0, 3.0, 0.0, 9.0, 8.0, 0.0, 8.0, 1.0, 8.0, 5.0, 3.0, 0.0, 0.0, 5.0, 8.0,
        ],
    );
    let transposed = mat(
        4,
        4,
        &[
            0.0, 9.0, 1.0, 0.0, 9.0, 8.0, 8.0, 0.0, 3.0, 0.0, 5.0, 5.0, 0.0, 8.0, 3.0, 8.0,
        ],
    );

    assert_eq!(matrix.transpose(), transposed);
}

#[test]
fn test_transpose_identity_matrix() {
    let matrix = Matrix::size(2, 2).identity();

    assert_eq!(matrix.transpose(), matrix);
}

#[test]
fn test_transpose_twice_is_identity() {
    let matrix = mat(3, 3, &[1.0, 5.0, 0.0, -3.0, 2.0, -7.0, 0.0, 6.0, -3.0]);

    assert_eq!(matrix.transpose().transpose().data, matrix.data);
}

#[test]
fn test_mul_associative_within_tolerance() {
    let a = mat(2, 2, &[1.5, -2.25, 0.125, 3.0]);
    let b = mat(2, 2, &[0.33333, 4.0, -1.2, 2.5]);
    let c = mat(2, 2, &[2.0, -0.5, 1.25, 0.75]);

    let left = a.mul(&b).unwrap().mul(&c).unwrap();
    let right = a.mul(&b.mul(&c).unwrap()).unwrap();

    assert_eq!(left, right);
}

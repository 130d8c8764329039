//! The determinant / minor / cofactor / inverse family, with the classic
//! fixtures.

use tracer_math::matrix::{Matrix, MatrixError};

fn units(v: f64) -> i128 {
    (v * 100_000.0).round() as i128
}

fn uvec(vals: &[f64]) -> Vec<i128> {
    vals.iter().map(|&v| units(v)).collect()
}

fn mat(w: usize, h: usize, vals: &[f64]) -> Matrix {
    Matrix::new(w, h, uvec(vals)).unwrap()
}

/// A determinant-scale value (twenty decimal places) from an integer.
fn det_val(v: i64) -> i128 {
    (v as i128) * 100_000_000_000_000_000_000
}

#[test]
fn test_det_matrix_2x2() {
    let matrix = mat(2, 2, &[1.0, 5.0, -3.0, 2.0]);
    let determinant = det_val(17);

    assert_eq!(matrix.determinant().unwrap(), determinant);
}

#[test]
fn test_det_formula_2x2() {
    // determinant of [[a, b], [c, d]] is a*d - b*c
    let matrix = mat(2, 2, &[3.0, 7.0, -2.0, 5.0]);

    assert_eq!(matrix.determinant().unwrap(), det_val(3 * 5 - 7 * (-2)));
}

#[test]
fn test_det_matrix_3x3() {
    let matrix = mat(3, 3, &[1.0, 2.0, 6.0, -5.0, 8.0, -4.0, 2.0, 6.0, 4.0]);

    assert_eq!(matrix.cofactor(0, 0).unwrap(), det_val(56));
    assert_eq!(matrix.cofactor(0, 1).unwrap(), det_val(12));
    assert_eq!(matrix.cofactor(0, 2).unwrap(), det_val(-46));
    assert_eq!(matrix.determinant().unwrap(), det_val(-196));
}

#[test]
fn test_det_matrix_4x4() {
    let matrix = mat(
        4,
        4,
        &[
            -2.0, -8.0, 3.0, 5.0, -3.0, 1.0, 7.0, 3.0, 1.0, 2.0, -9.0, 6.0, -6.0, 7.0, 7.0,
            -9.0,
        ],
    );

    assert_eq!(matrix.cofactor(0, 0).unwrap(), det_val(690));
    assert_eq!(matrix.cofactor(0, 1).unwrap(), det_val(447));
    assert_eq!(matrix.cofactor(0, 2).unwrap(), det_val(210));
    assert_eq!(matrix.cofactor(0, 3).unwrap(), det_val(51));
    assert_eq!(matrix.determinant().unwrap(), det_val(-4071));
}

#[test]
fn test_det_matrix_nonsq() {
    let matrix = Matrix::size(3, 4);

    assert_eq!(matrix.determinant().unwrap_err(), MatrixError::NonSquareMatrix);
}

#[test]
fn test_submatrix_3x3() {
    let matrix = mat(3, 3, &[1.0, 5.0, 0.0, -3.0, 2.0, -7.0, 0.0, 6.0, -3.0]);
    let submatrix = mat(2, 2, &[-3.0, 2.0, 0.0, 6.0]);

    assert_eq!(matrix.submatrix(0, 2).unwrap(), submatrix);
}

#[test]
fn test_submatrix_4x4() {
    let matrix = mat(
        4,
        4,
        &[
            -6.0, 1.0, 1.0, 6.0, -8.0, 5.0, 8.0, 6.0, -1.0, 0.0, 8.0, 2.0, -7.0, 1.0, -1.0, 1.0,
        ],
    );
    let submatrix = mat(3, 3, &[-6.0, 1.0, 6.0, -8.0, 8.0, 6.0, -7.0, -1.0, 1.0]);

    assert_eq!(matrix.submatrix(2, 1).unwrap(), submatrix);
}

#[test]
fn test_submatrix_out_of_range() {
    let matrix = mat(2, 2, &[1.0, 2.0, 3.0, 4.0]);

    assert_eq!(matrix.submatrix(2, 0).unwrap_err(), MatrixError::IndexOutOfRange);
}

#[test]
fn test_minor_3x3() {
    let matrix = mat(3, 3, &[3.0, 5.0, 0.0, 2.0, -1.0, -7.0, 6.0, -1.0, 5.0]);
    let submatrix = matrix.submatrix(1, 0).unwrap();

    assert_eq!(matrix.minor(1, 0).unwrap(), submatrix.determinant().unwrap())
}

#[test]
fn test_cofactor() {
    let matrix = mat(3, 3, &[3.0, 5.0, 0.0, 2.0, -1.0, -7.0, 6.0, -1.0, 5.0]);

    assert_eq!(matrix.minor(0, 0).unwrap(), matrix.cofactor(0, 0).unwrap());
    assert_eq!(matrix.minor(1, 0).unwrap(), -matrix.cofactor(1, 0).unwrap());
}

#[test]
fn test_minor_nonsq() {
    let matrix = Matrix::size(3, 4);

    assert_eq!(matrix.minor(0, 0).unwrap_err(), MatrixError::NonSquareMatrix);
    assert_eq!(matrix.cofactor(0, 0).unwrap_err(), MatrixError::NonSquareMatrix);
}

#[test]
fn test_is_invertible() {
    let matrix = mat(
        4,
        4,
        &[
            6.0, 4.0, 4.0, 4.0, 5.0, 5.0, 7.0, 6.0, 4.0, -9.0, 3.0, -7.0, 9.0, 1.0, 7.0, -6.0,
        ],
    );

    assert_eq!(matrix.determinant().unwrap(), det_val(-2120));
    assert!(matrix.is_invertible().unwrap());
}

#[test]
fn test_invertible_fail() {
    let matrix = mat(
        4,
        4,
        &[
            -4.0, 2.0, -2.0, -3.0, 9.0, 6.0, 2.0, 6.0, 0.0, -5.0, 1.0, -5.0, 0.0, 0.0, 0.0, 0.0,
        ],
    );

    assert_eq!(matrix.determinant().unwrap(), det_val(0));
    assert!(!matrix.is_invertible().unwrap());
}

#[test]
fn test_inverse_singular_matrix() {
    let matrix = mat(
        4,
        4,
        &[
            -4.0, 2.0, -2.0, -3.0, 9.0, 6.0, 2.0, 6.0, 0.0, -5.0, 1.0, -5.0, 0.0, 0.0, 0.0, 0.0,
        ],
    );

    assert_eq!(matrix.inverse().unwrap_err(), MatrixError::SingularMatrix);
}

#[test]
fn test_inverse_nonsq() {
    let matrix = Matrix::size(3, 4);

    assert_eq!(matrix.inverse().unwrap_err(), MatrixError::NonSquareMatrix);
}

#[test]
fn test_invert_matrix() {
    let m1 = mat(
        4,
        4,
        &[
            -5.0, 2.0, 6.0, -8.0, 1.0, -5.0, 1.0, 8.0, 7.0, 7.0, -6.0, -7.0, 1.0, -3.0, 7.0,
            4.0,
        ],
    );

    let b1 = m1.inverse().unwrap();

    assert_eq!(m1.determinant().unwrap(), det_val(532));
    assert_eq!(m1.cofactor(2, 3).unwrap(), det_val(-160));
    assert_eq!(b1.get(3, 2).unwrap(), units(-0.30075));
    assert_eq!(m1.cofactor(3, 2).unwrap(), det_val(105));
    assert_eq!(b1.get(2, 3).unwrap(), units(0.19737));
    assert_eq!(
        b1,
        mat(
            4,
            4,
            &[
                0.21805, 0.45113, 0.24060, -0.04511, -0.80827, -1.45677, -0.44361, 0.52068,
                -0.07895, -0.22368, -0.05263, 0.19737, -0.52256, -0.81391, -0.30075, 0.30639
            ]
        )
    );

    let m2 = mat(
        4,
        4,
        &[
            8.0, -5.0, 9.0, 2.0, 7.0, 5.0, 6.0, 1.0, -6.0, 0.0, 9.0, 6.0, -3.0, 0.0, -9.0, -4.0,
        ],
    );

    let b2 = m2.inverse().unwrap();

    assert_eq!(
        b2,
        mat(
            4,
            4,
            &[
                -0.15385, -0.15385, -0.28205, -0.53846, -0.07692, 0.12308, 0.02564, 0.03077,
                0.35897, 0.35897, 0.43590, 0.92308, -0.69231, -0.69231, -0.76923, -1.92308
            ]
        )
    );

    let m3 = mat(
        4,
        4,
        &[
            9.0, 3.0, 0.0, 9.0, -5.0, -2.0, -6.0, -3.0, -4.0, 9.0, 6.0, 4.0, -7.0, 6.0, 6.0,
            2.0,
        ],
    );

    let b3 = m3.inverse().unwrap();

    assert_eq!(
        b3,
        mat(
            4,
            4,
            &[
                -0.04074, -0.07778, 0.14444, -0.22222, -0.07778, 0.03333, 0.36667, -0.33333,
                -0.02901, -0.14630, -0.10926, 0.12963, 0.17778, 0.06667, -0.26667, 0.33333
            ]
        )
    )
}

#[test]
fn test_mul_product_with_inverse() {
    let a = mat(
        4,
        4,
        &[
            3.0, -9.0, 7.0, 3.0, 3.0, -8.0, 2.0, -9.0, -4.0, 4.0, 4.0, 1.0, -6.0, 5.0, -1.0,
            1.0,
        ],
    );

    let b = mat(
        4,
        4,
        &[
            8.0, 2.0, 2.0, 2.0, 3.0, -1.0, 7.0, 0.0, 7.0, 0.0, 5.0, 4.0, 6.0, -2.0, 0.0, 5.0,
        ],
    );

    let c = a.mul(&b).unwrap();
    let result = c.mul(&b.inverse().unwrap()).unwrap();

    assert_eq!(a, result);
}

#[test]
fn test_mul_inverse_is_identity() {
    let a = mat(
        4,
        4,
        &[
            -5.0, 2.0, 6.0, -8.0, 1.0, -5.0, 1.0, 8.0, 7.0, 7.0, -6.0, -7.0, 1.0, -3.0, 7.0,
            4.0,
        ],
    );

    let product = a.mul(&a.inverse().unwrap()).unwrap();

    assert_eq!(product, Matrix::identity_matrix(4));
}

use cggmp21::birkhoff_error::BirkhoffError;
use cggmp21::birkhoff_matrix::BirkhoffMatrix;
use cggmp21::scalar::{NonZeroScalar, Scalar};

fn sc(v: u64) -> Scalar {
    Scalar::from_u64(v)
}

fn matrix_of(rows: &[&[u64]]) -> BirkhoffMatrix {
    BirkhoffMatrix::new(rows.iter().map(|r| r.iter().map(|v| sc(*v)).collect()).collect())
}

#[test]
fn test_new() {
    let matrix = BirkhoffMatrix::new(vec![
        vec![sc(1), sc(2), sc(3)],
        vec![sc(4), sc(5), sc(6)],
    ]);

    assert_eq!(matrix.rows(), 2);
    assert_eq!(matrix.cols(), 3);

    assert_eq!(matrix.get(0, 0), sc(1));
    assert_eq!(matrix.get(0, 1), sc(2));
    assert_eq!(matrix.get(0, 2), sc(3));
    assert_eq!(matrix.get(1, 0), sc(4));
    assert_eq!(matrix.get(1, 1), sc(5));
    assert_eq!(matrix.get(1, 2), sc(6));
}

#[test]
fn test_new_with_size() {
    let matrix = BirkhoffMatrix::new_with_size(2, 3, sc(10));

    assert_eq!(matrix.rows(), 2);
    assert_eq!(matrix.cols(), 3);

    for i in 0..matrix.rows() {
        for j in 0..matrix.cols() {
            assert_eq!(matrix.get(i, j), sc(10));
        }
    }
}

#[test]
fn test_create_identity_matrix() {
    let matrix = BirkhoffMatrix::create_identity_matrix(3);

    assert_eq!(matrix.rows(), 3);
    assert_eq!(matrix.cols(), 3);
    assert!(matrix.is_identity());
}

#[test]
fn happy_test_get_non_zero_coefficient_by_row() {
    let matrix = matrix_of(&[&[0, 2, 3], &[0, 0, 6]]);

    assert_eq!(matrix.get_non_zero_coefficient_by_row(0, 0), Some(1));
    assert_eq!(matrix.get_non_zero_coefficient_by_row(0, 1), Some(1));
    assert_eq!(matrix.get_non_zero_coefficient_by_row(1, 1), Some(2));
}

#[test]
fn unhappy_test_get_non_zero_coefficient_by_row() {
    let matrix = matrix_of(&[&[0, 0, 0], &[0, 0, 6]]);

    assert_eq!(matrix.get_non_zero_coefficient_by_row(0, 0), None);
}

#[test]
fn happy_test_is_identity() {
    let matrix = matrix_of(&[&[1, 0, 0], &[0, 1, 0], &[0, 0, 1]]);

    assert!(matrix.is_identity());
}

#[test]
fn unhappy_test_is_identity() {
    let matrix = matrix_of(&[&[1, 0, 0], &[0, 1, 0]]);

    assert!(!matrix.is_identity());
}

#[test]
fn happy_test_is_diagonal() {
    let matrix = matrix_of(&[&[1, 0, 0], &[0, 24325346, 0], &[0, 0, 1]]);

    assert!(matrix.is_diagonal());
}

#[test]
fn unhappy_test_is_diagonal() {
    let matrix = matrix_of(&[&[1, 0, 0], &[0, 24325346, 0], &[1, 0, 1]]);

    assert!(!matrix.is_diagonal());
}

#[test]
fn happy_test_is_square() {
    let matrix = matrix_of(&[&[1, 2, 3], &[4, 5, 6], &[7, 8, 9]]);

    assert!(matrix.is_square());
}

#[test]
fn unhappy_test_is_square() {
    let matrix = matrix_of(&[&[1, 2, 3], &[4, 5, 6]]);

    assert!(!matrix.is_square());
}

#[test]
fn happy_test_mod_inverse_cell() {
    let matrix = matrix_of(&[&[0, 2, 3], &[4, 5, 6], &[7, 8, 9]]);

    for i in 0..matrix.rows() {
        for j in 0..matrix.cols() {
            if matrix.get(i, j) != sc(0) {
                let inverse_element = matrix.mod_inverse(i, j).unwrap();
                assert_eq!(sc(1), inverse_element.times(&matrix.get(i, j)));
            }
        }
    }
}

#[test]
fn unhappy_test_mod_inverse_cell() {
    let matrix = matrix_of(&[&[0, 2, 3], &[4, 5, 0], &[7, 0, 9]]);

    for i in 0..matrix.rows() {
        for j in 0..matrix.cols() {
            if matrix.get(i, j) == sc(0) {
                let inverse_element = matrix.mod_inverse(i, j);
                let expected_error = Err(BirkhoffError::ElementNotInvertible { row: i, col: j });
                assert_eq!(inverse_element, expected_error);
            }
        }
    }
}

#[test]
fn happy_test_get_row_non_zero() {
    let matrix = matrix_of(&[&[1, 2, 3], &[4, 5, 6], &[0, 0, 0]]);

    let row = matrix.get_row_non_zero(0).unwrap();
    let expected_row = vec![
        NonZeroScalar::from_scalar(sc(1)).unwrap(),
        NonZeroScalar::from_scalar(sc(2)).unwrap(),
        NonZeroScalar::from_scalar(sc(3)).unwrap(),
    ];
    assert_eq!(row, expected_row);

    let row = matrix.get_row_non_zero(1).unwrap();
    let expected_row = vec![
        NonZeroScalar::from_scalar(sc(4)).unwrap(),
        NonZeroScalar::from_scalar(sc(5)).unwrap(),
        NonZeroScalar::from_scalar(sc(6)).unwrap(),
    ];
    assert_eq!(row, expected_row);
}

#[test]
fn unhappy_test_get_row_non_zero() {
    let matrix = matrix_of(&[&[1, 0, 3], &[4, 5, 0]]);

    let row = matrix.get_row_non_zero(0);
    let expected_error = Err(BirkhoffError::ZeroCoefficient);
    assert_eq!(row, expected_error);

    let row = matrix.get_row_non_zero(1);
    let expected_error = Err(BirkhoffError::ZeroCoefficient);
    assert_eq!(row, expected_error);
}

#[test]
fn happy_test_get_row() {
    let matrix = matrix_of(&[&[1, 2, 3], &[4, 5, 6]]);

    let row = matrix.get_row(0).unwrap();
    let expected_row = vec![sc(1), sc(2), sc(3)];
    assert_eq!(row, expected_row);

    let row = matrix.get_row(1).unwrap();
    let expected_row = vec![sc(4), sc(5), sc(6)];
    assert_eq!(row, expected_row);
}

#[test]
fn unhappy_test_get_row() {
    let matrix = matrix_of(&[&[1, 2, 3], &[4, 5, 6]]);

    let row = matrix.get_row(3);
    let expected_error = Err(BirkhoffError::IndexOutOfBounds { index: 3, max_index: 1 });
    assert_eq!(row, expected_error);
}

#[test]
fn happy_test_add_rows() {
    let row1: Vec<Scalar> = vec![sc(1), sc(2), sc(3)];
    let row2: Vec<Scalar> = vec![sc(4), sc(5), sc(6)];
    let result = BirkhoffMatrix::add_rows(&row1, &row2).unwrap();
    let expected_result = vec![sc(5), sc(7), sc(9)];
    assert_eq!(result, expected_result);
}

#[test]
fn unhappy_test_add_rows() {
    let row1: Vec<Scalar> = vec![sc(1), sc(2), sc(3)];
    let row2: Vec<Scalar> = vec![sc(4), sc(5)];
    let result = BirkhoffMatrix::add_rows(&row1, &row2);
    let expected_error = Err(BirkhoffError::RowsDifferentLengths { row1_len: row1.len(), row2_len: row2.len() });
    assert_eq!(result, expected_error);
}

#[test]
fn happy_test_swap_rows() {
    let matrix = matrix_of(&[&[1, 2, 3], &[4, 5, 6]]);

    let result = matrix.swap_rows(0, 1).unwrap();

    let expected_result = matrix_of(&[&[4, 5, 6], &[1, 2, 3]]);

    assert_eq!(result, expected_result);
}

#[test]
fn unhappy_test_swap_rows() {
    let matrix = matrix_of(&[&[1, 2, 3], &[4, 5, 6]]);

    let result = matrix.swap_rows(0, 3);
    let expected_error = Err(BirkhoffError::IndexOutOfBounds { index: 3, max_index: 1 });
    assert_eq!(result, expected_error);
}

#[test]
fn test_multiply_scalar() {
    let matrix = matrix_of(&[&[1, 2, 3], &[4, 5, 6]]);

    let result = matrix.multiply_scalar(&matrix.get_row(0).unwrap(), sc(2));
    let expected_result = vec![sc(2), sc(4), sc(6)];
    assert_eq!(result, expected_result);

    let result = matrix.multiply_scalar(&matrix.get_row(1).unwrap(), sc(2));
    let expected_result = vec![sc(8), sc(10), sc(12)];
    assert_eq!(result, expected_result);
}

#[test]
fn test_transpose() {
    let matrix = matrix_of(&[&[1, 2, 3], &[4, 5, 6]]);

    let result = matrix.transpose();
    let expected_result = matrix_of(&[&[1, 4], &[2, 5], &[3, 6]]);
    assert_eq!(result, expected_result);
}

#[test]
fn happy_test_multiply_birkhoff_matrix() {
    let matrix1 = matrix_of(&[&[1, 2, 3], &[4, 5, 6]]);
    let matrix2 = matrix_of(&[&[1, 2, 3], &[4, 5, 6], &[7, 8, 9]]);
    let expected = matrix_of(&[&[30, 36, 42], &[66, 81, 96]]);

    let result = matrix1.multiply(&matrix2).unwrap();

    assert_eq!(result, expected);
}

#[test]
fn unhappy_test_multiply_birkhoff_matrix() {
    let matrix1 = matrix_of(&[&[1, 2, 3], &[4, 5, 6]]);
    let matrix2 = matrix_of(&[&[1, 2, 3], &[4, 5, 6]]);

    let expected_error = BirkhoffError::MatrixDimensionsMismatch {
        self_rows: matrix1.rows(),
        self_cols: matrix1.cols(),
        other_rows: matrix2.rows(),
        other_cols: matrix2.cols(),
    };

    let result = matrix1.multiply(&matrix2);

    match result {
        Ok(_) => panic!("Expected an error"),
        Err(e) => assert_eq!(e, expected_error),
    }
}

#[test]
fn happy_test_multi_inverse_identity() {
    let matrix = matrix_of(&[&[1, 2, 3], &[4, 5, 6], &[7, 8, 9]]);

    let identity = BirkhoffMatrix::create_identity_matrix(3);

    let result = matrix.multi_inverse_diagonal(&identity).unwrap();

    // identity matrix^ {-1} * A = A
    assert_eq!(result, matrix);
}

#[test]
fn happy_test_multi_inverse_diagonal() {
    let matrix = matrix_of(&[&[1, 2, 3], &[4, 5, 6], &[7, 8, 9]]);

    let diagonal = matrix_of(&[&[1, 0, 0], &[0, 10, 0], &[0, 0, 100]]);

    let inverse_diagonal = BirkhoffMatrix::new(vec![
        vec![sc(1).invert().unwrap(), sc(0), sc(0)],
        vec![sc(0), sc(10).invert().unwrap(), sc(0)],
        vec![sc(0), sc(0), sc(100).invert().unwrap()],
    ]);

    let identity = BirkhoffMatrix::create_identity_matrix(3);
    // check for correct inverse, which help us calculate the correct expected value
    assert_eq!(diagonal.multiply(&inverse_diagonal).unwrap(), identity);

    let expected_result = inverse_diagonal.multiply(&matrix).unwrap();
    let result = matrix.multi_inverse_diagonal(&diagonal).unwrap();
    assert_eq!(result, expected_result);
}

#[test]
fn unhappy_test_multi_inverse_diagonal_1() {
    let matrix = matrix_of(&[&[1, 2, 3], &[4, 5, 6], &[17, 8, 9]]);

    let diagonal = matrix_of(&[&[1, 0, 1], &[0, 1, 0], &[0, 0, 100]]);

    let result = matrix.multi_inverse_diagonal(&diagonal);
    let expected_error = Err(BirkhoffError::NotDiagonalMatrix);
    assert_eq!(result, expected_error);
}

#[test]
fn unhappy_test_multi_inverse_diagonal_2() {
    let matrix = matrix_of(&[&[1, 2, 3], &[4, 5, 6], &[17, 8, 9]]);

    let diagonal = matrix_of(&[&[1, 0, 0], &[0, 0, 0], &[0, 0, 100]]);

    let result = matrix.multi_inverse_diagonal(&diagonal);
    let expected_error = Err(BirkhoffError::ElementNotInvertible { row: 1, col: 1 });
    assert_eq!(result, expected_error);
}

#[test]
fn happy_test_get_gauss_elimination() {
    let matrix = matrix_of(&[&[1, 2, 3], &[4, 15, 6], &[7, 8, 9]]);

    // Get U_A and L^{-1}
    let (upper, lower_inv) = matrix.get_gauss_elimination().unwrap();

    // Verify U_A is upper triangular
    for i in 0..upper.rows() {
        for j in 0..i {
            assert_eq!(upper.get(i, j), sc(0), "U_A is not upper triangular at position ({}, {})", i, j);
        }
    }

    // Verify L^{-1} is lower triangular
    for i in 0..lower_inv.rows() {
        for j in (i + 1)..lower_inv.cols() {
            assert_eq!(lower_inv.get(i, j), sc(0), "L^{{-1}} is not lower triangular at position ({}, {})", i, j);
        }
    }

    // Verify L*U_A = A or L^{-1} * A = U_A
    let reconstructed = lower_inv.multiply(&matrix).unwrap();
    assert_eq!(reconstructed, upper, "L*U_A does not equal the matrix A");
}

#[test]
fn happy_test_get_gauss_elimination_identity() {
    let matrix = BirkhoffMatrix::create_identity_matrix(3);

    let (upper, lower_inv) = matrix.get_gauss_elimination().unwrap();

    assert!(upper.is_identity(), "U_A is not identity matrix");
    assert!(lower_inv.is_identity(), "L^{{-1}} is not identity matrix");
}

#[test]
fn unhappy_test_get_gauss_elimination_singular() {
    let matrix = matrix_of(&[&[1, 2, 3], &[2, 4, 6], &[3, 6, 9]]);

    // This should fail as the matrix is singular
    assert!(matrix.get_gauss_elimination().is_err());
}

#[test]
fn happy_test_inverse_matrix() {
    let matrix = matrix_of(&[&[1, 2, 3], &[4, 15, 6], &[7, 8, 9]]);

    let inverse = matrix.inverse().unwrap();

    // matrix * inverse = identity
    let check = matrix.multiply(&inverse).unwrap();
    let identity = BirkhoffMatrix::create_identity_matrix(3);

    assert_eq!(check, identity);
}

#[test]
fn happy_test_inverse_identity() {
    let matrix = BirkhoffMatrix::create_identity_matrix(3);
    let inverse = matrix.inverse().unwrap();

    assert_eq!(matrix, inverse);
}

#[test]
fn unhappy_test_inverse_matrix() {
    let matrix = matrix_of(&[&[1, 2, 3], &[4, 5, 6], &[7, 8, 9]]);

    let inverse = matrix.inverse();

    assert!(inverse.is_err(), "The matrix is not invertible. Expect an error.");
}

#[test]
fn happy_test_pseudo_inverse() {
    let matrix = matrix_of(&[&[1, 0], &[0, 1], &[1, 1]]);

    let pseudo_inverse = matrix.pseudo_inverse().unwrap();

    let check = matrix.multiply(&pseudo_inverse).unwrap();
    let check = check.multiply(&matrix).unwrap();

    // A * A^+ * A = A (Moore-Penrose condition)
    assert_eq!(check, matrix);
}

#[test]
fn unhappy_test_pseudo_inverse() {
    let matrix = matrix_of(&[&[10, 5], &[8, 4]]);

    let pseudo_inverse = matrix.pseudo_inverse();

    assert!(pseudo_inverse.is_err());
}

// ----- further cases -----

#[test]
fn pseudo_inverse_is_left_inverse() {
    let matrix = matrix_of(&[&[1, 0], &[0, 1], &[1, 1]]);
    let pseudo_inverse = matrix.pseudo_inverse().unwrap();
    assert_eq!(pseudo_inverse.rows(), 2);
    assert_eq!(pseudo_inverse.cols(), 3);
    let product = pseudo_inverse.multiply(&matrix).unwrap();
    assert!(product.is_identity());
}

#[test]
fn pseudo_inverse_of_square_matrix_is_its_inverse() {
    let matrix = matrix_of(&[&[1, 2, 3], &[4, 15, 6], &[7, 8, 9]]);
    let pseudo_inverse = matrix.pseudo_inverse().unwrap();
    let inverse = matrix.inverse().unwrap();
    assert_eq!(pseudo_inverse, inverse);
}

#[test]
fn inverse_is_two_sided() {
    let matrix = matrix_of(&[&[2, 7], &[1, 8]]);
    let inverse = matrix.inverse().unwrap();
    assert!(inverse.multiply(&matrix).unwrap().is_identity());
    assert!(matrix.multiply(&inverse).unwrap().is_identity());
}

#[test]
fn inverse_of_non_square_matrix_is_refused() {
    let matrix = matrix_of(&[&[1, 2, 3], &[4, 5, 6]]);
    assert_eq!(matrix.inverse(), Err(BirkhoffError::NotSquareMatrix { rows: 2, cols: 3 }));
    assert_eq!(matrix.get_gauss_elimination(), Err(BirkhoffError::NotSquareMatrix { rows: 2, cols: 3 }));
}

#[test]
fn gauss_elimination_of_lower_triangular_matrix_keeps_its_diagonal() {
    let matrix = matrix_of(&[&[2, 0, 0], &[3, 5, 0], &[4, 6, 7]]);
    let (upper, _) = matrix.get_gauss_elimination().unwrap();
    assert_eq!(upper, matrix_of(&[&[2, 0, 0], &[0, 5, 0], &[0, 0, 7]]));
}

#[test]
fn gauss_elimination_with_zero_column_fails() {
    let matrix = matrix_of(&[&[0, 0], &[0, 0]]);
    assert_eq!(matrix.get_gauss_elimination(), Err(BirkhoffError::MatrixInversionFailed));
}

#[test]
fn multiply_reduces_modulo_the_group_order() {
    let minus_one = sc(1).negated();
    let matrix = BirkhoffMatrix::new(vec![vec![minus_one.clone()]]);
    let square = matrix.multiply(&matrix).unwrap();
    assert_eq!(square.get(0, 0), sc(1));
    let sum = BirkhoffMatrix::add_rows(&[minus_one], &[sc(1)]).unwrap();
    assert_eq!(sum, vec![sc(0)]);
}

#[test]
fn multi_inverse_diagonal_with_mismatched_sizes_fails() {
    let matrix = matrix_of(&[&[1, 2], &[3, 4]]);
    let diagonal = matrix_of(&[&[1, 0, 0], &[0, 1, 0], &[0, 0, 1]]);
    assert_eq!(
        matrix.multi_inverse_diagonal(&diagonal),
        Err(BirkhoffError::MatrixDimensionsMismatch { self_rows: 3, self_cols: 3, other_rows: 2, other_cols: 2 })
    );
}

#[test]
fn mod_inverse_out_of_range() {
    let matrix = matrix_of(&[&[1, 2], &[3, 4]]);
    assert_eq!(matrix.mod_inverse(2, 0), Err(BirkhoffError::IndexOutOfBounds { index: 2, max_index: 1 }));
    assert_eq!(matrix.mod_inverse(0, 5), Err(BirkhoffError::IndexOutOfBounds { index: 5, max_index: 1 }));
}

#[test]
fn swap_rows_reports_the_larger_index() {
    let matrix = matrix_of(&[&[1], &[2]]);
    assert_eq!(matrix.swap_rows(4, 3), Err(BirkhoffError::IndexOutOfBounds { index: 4, max_index: 1 }));
}

#[test]
fn non_zero_coefficient_scans_the_row() {
    let matrix = matrix_of(&[&[5, 0, 0], &[0, 0, 0], &[0, 0, 0]]);
    assert_eq!(matrix.get_non_zero_coefficient_by_row(0, 1), None);
    assert_eq!(matrix.get_non_zero_coefficient_by_row(0, 0), Some(0));
}

#[test]
fn pivot_search_scans_the_column_of_the_pivot() {
    // column 0 has its non-zero entry in row 1, which is exchanged with row 0
    let matrix = matrix_of(&[&[0, 0, 1], &[1, 0, 0], &[0, 1, 0]]);
    let (upper, _) = matrix.get_gauss_elimination().unwrap();
    assert_eq!(upper, matrix_of(&[&[1, 0, 0], &[0, 1, 0], &[0, 0, 1]]));
    assert!(matrix.inverse().unwrap().multiply(&matrix).unwrap().is_identity());
}

#[test]
fn upper_triangular_matrix_is_its_own_elimination() {
    let matrix = matrix_of(&[&[2, 3, 4], &[0, 5, 6], &[0, 0, 7]]);
    let (upper, lower) = matrix.get_gauss_elimination().unwrap();
    assert_eq!(upper, matrix);
    assert!(lower.is_identity());
    let inverse = matrix.inverse().unwrap();
    assert!(inverse.multiply(&matrix).unwrap().is_identity());
}

#[test]
fn inverse_of_a_permutation_matrix() {
    // the top-left entry is zero: the pivot of the first column comes from row 2
    let a = matrix_of(&[&[0, 1, 0], &[0, 0, 1], &[1, 0, 0]]);
    let inv = a.inverse().unwrap();
    assert!(a.multiply(&inv).unwrap().is_identity());
    assert!(inv.multiply(&a).unwrap().is_identity());
    assert_eq!(inv.get(0, 2), sc(1));
}

#[test]
fn inverse_fails_exactly_on_singular_matrices() {
    let singular = matrix_of(&[&[1, 2, 3], &[2, 4, 6], &[0, 1, 1]]);
    assert_eq!(singular.inverse().err().unwrap(), BirkhoffError::MatrixInversionFailed);
    let zero_column = matrix_of(&[&[0, 1], &[0, 2]]);
    assert_eq!(zero_column.inverse().err().unwrap(), BirkhoffError::MatrixInversionFailed);
}

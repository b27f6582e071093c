use cggmp21::error::Error;
use cggmp21::integer::Integer;
use cggmp21::matrix::Matrix;

fn iv(v: i64) -> Integer {
    Integer::from_i64(v)
}

fn mat(order: i64, rows: &[&[i64]]) -> Matrix {
    let data: Vec<Vec<Integer>> = rows.iter().map(|r| r.iter().map(|&v| iv(v)).collect()).collect();
    Matrix::new(iv(order), data).unwrap()
}

fn values(m: &Matrix) -> Vec<Vec<String>> {
    m.get_matrix().iter().map(|r| r.iter().map(|v| v.to_decimal()).collect()).collect()
}

fn strs(rows: &[&[i64]]) -> Vec<Vec<String>> {
    rows.iter().map(|r| r.iter().map(|v| v.to_string()).collect()).collect()
}

fn matrix_error(msg: &str) -> Error {
    Error::MatrixError(msg.to_string())
}

#[test]
fn new_rejects_empty_and_ragged_data() {
    assert_eq!(Matrix::new(iv(7), vec![]).err().unwrap(), matrix_error("Empty matrix"));
    let ragged = vec![vec![iv(1), iv(2)], vec![iv(3)]];
    assert_eq!(Matrix::new(iv(7), ragged).err().unwrap(), matrix_error("Inconsistent row lengths"));
}

#[test]
fn get_normalizes_into_the_field() {
    let m = mat(7, &[&[-3, 10], &[7, 6]]);
    assert_eq!(m.get(0, 0).to_decimal(), "4");
    assert_eq!(m.get(0, 1).to_decimal(), "3");
    assert_eq!(m.get(1, 0).to_decimal(), "0");
    assert_eq!(m.get(1, 1).to_decimal(), "6");
}

#[test]
fn get_row_checks_the_index() {
    let m = mat(7, &[&[1, 2], &[3, 4]]);
    let row = m.get_row(1).unwrap();
    assert_eq!(row.iter().map(|v| v.to_decimal()).collect::<Vec<_>>(), vec!["3", "4"]);
    assert_eq!(m.get_row(2).err().unwrap(), matrix_error("Row index out of bounds"));
}

#[test]
fn transpose_swaps_rows_and_columns() {
    let m = mat(7, &[&[1, 2, 3], &[4, 5, 6]]);
    let t = m.transpose().unwrap();
    assert_eq!(values(&t), strs(&[&[1, 4], &[2, 5], &[3, 6]]));
    // transposing twice gives the matrix back
    assert_eq!(values(&t.transpose().unwrap()), values(&m));
    let no_columns = Matrix::new(iv(7), vec![vec![]]).unwrap();
    assert_eq!(no_columns.transpose().err().unwrap(), matrix_error("Empty matrix"));
}

#[test]
fn multiply_computes_the_exact_product() {
    let a = mat(7, &[&[1, 2], &[3, 4]]);
    let b = mat(7, &[&[5, 6], &[7, 8]]);
    assert_eq!(values(&a.multiply(&b).unwrap()), strs(&[&[19, 22], &[43, 50]]));
    let c = mat(7, &[&[1, 2, 3]]);
    assert_eq!(
        a.multiply(&c).err().unwrap(),
        matrix_error("Inconsistent dimensions for multiplication")
    );
}

#[test]
fn multiply_is_associative() {
    let a = mat(11, &[&[1, 2], &[3, 4]]);
    let b = mat(11, &[&[0, -1, 2], &[5, 1, 1]]);
    let c = mat(11, &[&[2], &[3], &[-4]]);
    let left = a.multiply(&b).unwrap().multiply(&c).unwrap();
    let right = a.multiply(&b.multiply(&c).unwrap()).unwrap();
    assert_eq!(values(&left), values(&right));
}

#[test]
fn modulus_normalizes_every_entry() {
    let m = mat(7, &[&[-1, 8], &[14, -15]]);
    let r = m.modulus();
    assert_eq!(values(&r), strs(&[&[6, 1], &[0, 6]]));
    assert_eq!(values(&r.modulus()), values(&r));
}

#[test]
fn inverse_of_an_invertible_matrix() {
    let a = mat(7, &[&[2, 1], &[1, 1]]);
    let inv = a.inverse().unwrap();
    assert_eq!(values(&inv), strs(&[&[1, 6], &[6, 2]]));
    let product = inv.multiply(&a).unwrap().modulus();
    assert_eq!(values(&product), strs(&[&[1, 0], &[0, 1]]));
}

#[test]
fn inverse_of_a_larger_matrix_is_a_left_inverse() {
    let a = mat(2305843009213693951, &[&[1, 1, 1], &[0, 1, 4], &[1, 4, 16]]);
    let inv = a.inverse().unwrap();
    let product = inv.multiply(&a).unwrap().modulus();
    assert_eq!(values(&product), strs(&[&[1, 0, 0], &[0, 1, 0], &[0, 0, 1]]));
}

#[test]
fn inverse_errors() {
    let not_square = mat(7, &[&[1, 2, 3], &[4, 5, 6]]);
    assert_eq!(not_square.inverse().err().unwrap(), matrix_error("Not a square matrix"));
    let singular = mat(7, &[&[1, 2], &[2, 4]]);
    assert!(singular.inverse().is_err());
    let zero_column = mat(7, &[&[0, 1], &[0, 1]]);
    assert_eq!(zero_column.inverse().err().unwrap(), matrix_error("not invertible matrix"));
}

#[test]
fn pseudoinverse_is_a_left_inverse() {
    let a = mat(2305843009213693951, &[&[1, 2], &[3, 4], &[5, 7]]);
    let p = a.pseudoinverse().unwrap();
    let product = p.multiply(&a).unwrap().modulus();
    assert_eq!(values(&product), strs(&[&[1, 0], &[0, 1]]));
    let no_columns = Matrix::new(iv(7), vec![vec![]]).unwrap();
    assert_eq!(no_columns.pseudoinverse().err().unwrap(), matrix_error("Empty matrix"));
}

#[test]
fn rank_over_a_prime_field() {
    let order = iv(7);
    assert_eq!(mat(7, &[&[1, 2], &[2, 4]]).get_matrix_rank(&order).unwrap(), 1);
    assert_eq!(mat(7, &[&[1, 0, 0], &[0, 1, 0], &[0, 0, 1]]).get_matrix_rank(&order).unwrap(), 3);
    assert_eq!(mat(7, &[&[1, 2, 3], &[4, 5, 6]]).get_matrix_rank(&order).unwrap(), 2);
    assert_eq!(mat(7, &[&[0, 0], &[0, 0], &[0, 0]]).get_matrix_rank(&order).unwrap(), 0);
    // 7 is zero in the field: after the first step the second column is empty
    assert_eq!(mat(7, &[&[1, 1], &[1, 8]]).get_matrix_rank(&order).unwrap(), 1);
}

#[test]
fn rank_skips_entries_that_are_multiples_of_the_order() {
    let order = iv(7);
    // the entry 7 is zero in the field, so the pivot of the first column is in row 1
    assert_eq!(mat(7, &[&[7, 1], &[1, 0]]).get_matrix_rank(&order).unwrap(), 2);
    assert_eq!(mat(7, &[&[14, 0], &[-7, 0]]).get_matrix_rank(&order).unwrap(), 0);
}

#[test]
fn inverse_when_an_intermediate_entry_is_a_multiple_of_the_order() {
    // after the first step the entry in row 1, column 1 is 3 - 2 * 5 = -7, zero in the
    // field; the pivot of the second column is then taken from row 2
    let a = mat(7, &[&[1, 5, 1], &[2, 3, 0], &[0, 1, 1]]);
    let inv = a.inverse().unwrap();
    let product = inv.multiply(&a).unwrap().modulus();
    assert_eq!(values(&product), strs(&[&[1, 0, 0], &[0, 1, 0], &[0, 0, 1]]));
    let product = a.multiply(&inv).unwrap().modulus();
    assert_eq!(values(&product), strs(&[&[1, 0, 0], &[0, 1, 0], &[0, 0, 1]]));
}

#[test]
fn rank_fails_on_a_pivot_without_inverse() {
    let order = iv(8);
    assert_eq!(
        mat(8, &[&[2, 1], &[1, 1]]).get_matrix_rank(&order).err().unwrap(),
        matrix_error("Not invertible element")
    );
}

#[test]
fn inverse_of_upper_triangular_matrix() {
    let p = cggmp21::integer::Integer::from_u64(101);
    let rows = vec![
        vec![cggmp21::integer::Integer::from_u64(2), cggmp21::integer::Integer::from_u64(5)],
        vec![cggmp21::integer::Integer::from_u64(0), cggmp21::integer::Integer::from_u64(3)],
    ];
    let m = cggmp21::matrix::Matrix::new(p, rows).unwrap();
    let inv = m.inverse().unwrap();
    let product = m.multiply(&inv).unwrap().modulus();
    assert_eq!(product.get(0, 0).to_decimal(), "1");
    assert_eq!(product.get(0, 1).to_decimal(), "0");
    assert_eq!(product.get(1, 0).to_decimal(), "0");
    assert_eq!(product.get(1, 1).to_decimal(), "1");
}

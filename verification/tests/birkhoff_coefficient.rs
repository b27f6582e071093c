use cggmp21::birkhoff_coefficient::{birkhoff_coefficient, get_coefficient, get_linear_equation_coefficient_matrix};
use cggmp21::birkhoff_error::BirkhoffError;
use cggmp21::scalar::{NonZeroScalar, Scalar};

fn sc(v: u64) -> Scalar {
    Scalar::from_u64(v)
}

fn nz(v: u64) -> NonZeroScalar {
    NonZeroScalar::from_scalar(sc(v)).unwrap()
}

fn values(v: &[NonZeroScalar]) -> Vec<Scalar> {
    v.iter().map(|x| x.as_scalar().clone()).collect()
}

#[test]
fn coefficient_examples() {
    // (x^2)' at 3 is 6
    assert_eq!(get_coefficient(&nz(3), 2, 1), sc(6));
    // (x^2)'' is 2
    assert_eq!(get_coefficient(&nz(3), 2, 2), sc(2));
    // (x^5)'' at 5 is 5 * 4 * 5^3
    assert_eq!(get_coefficient(&nz(5), 5, 2), sc(2500));
    // a derivative of higher order than the power vanishes
    assert_eq!(get_coefficient(&nz(5), 1, 2), sc(0));
    // x^3 at 2
    assert_eq!(get_coefficient(&nz(2), 3, 0), sc(8));
}

#[test]
fn coefficient_matrix_rows() {
    let xs = vec![nz(2), nz(3)];
    let ranks = vec![0u16, 1u16];
    let matrix = get_linear_equation_coefficient_matrix(3, &xs, &ranks);
    assert_eq!(matrix.rows(), 2);
    assert_eq!(matrix.cols(), 3);
    assert_eq!(matrix.get_row(0).unwrap(), vec![sc(1), sc(2), sc(4)]);
    assert_eq!(matrix.get_row(1).unwrap(), vec![sc(0), sc(1), sc(6)]);
}

#[test]
fn lagrange_coefficients() {
    let xs = vec![nz(1), nz(2)];
    let ranks = vec![0u16, 0u16];
    let lambda = birkhoff_coefficient(2, &xs, &ranks).unwrap();
    assert_eq!(values(&lambda), vec![sc(2), sc(1).negated()]);
    // f(x) = 5 + 3x: f(1) = 8, f(2) = 11, and 2 * 8 - 11 = 5
    let secret = lambda[0].as_scalar().times(&sc(8)).plus(&lambda[1].as_scalar().times(&sc(11)));
    assert_eq!(secret, sc(5));
}

#[test]
fn hierarchical_coefficients_recover_the_secret() {
    // f(x) = 7 + 4x + 9x^2; shares f(1) = 20, f'(3) = 4 + 54 = 58, f(2) = 7 + 8 + 36 = 51
    let xs = vec![nz(1), nz(3), nz(2)];
    let ranks = vec![0u16, 1u16, 0u16];
    let lambda = birkhoff_coefficient(3, &xs, &ranks).unwrap();
    assert_eq!(lambda.len(), 3);
    let shares = [sc(20), sc(58), sc(51)];
    let mut secret = sc(0);
    for i in 0..3 {
        secret = secret.plus(&lambda[i].as_scalar().times(&shares[i]));
    }
    assert_eq!(secret, sc(7));
}

#[test]
fn mismatched_lengths_are_refused() {
    let xs = vec![nz(1), nz(2)];
    let ranks = vec![0u16];
    assert_eq!(
        birkhoff_coefficient(2, &xs, &ranks),
        Err(BirkhoffError::MismatchedLengths { ranks_len: 1, xs_len: 2 })
    );
}

#[test]
fn share_without_weight_gives_zero_coefficient() {
    // with x = 1, 2, 4 and orders 0, 1, 0 the share at 1 gets weight zero
    let xs = vec![nz(1), nz(2), nz(4)];
    let ranks = vec![0u16, 1u16, 0u16];
    assert_eq!(birkhoff_coefficient(3, &xs, &ranks), Err(BirkhoffError::ZeroCoefficient));
}

#[test]
fn zero_coefficient_is_refused() {
    // the second share carries no information about a constant polynomial
    let xs = vec![nz(1), nz(2)];
    let ranks = vec![0u16, 1u16];
    assert_eq!(birkhoff_coefficient(1, &xs, &ranks), Err(BirkhoffError::ZeroCoefficient));
}

#[test]
fn singular_system_is_refused() {
    // two first derivatives say nothing about the constant term
    let xs = vec![nz(1), nz(2)];
    let ranks = vec![1u16, 1u16];
    assert_eq!(birkhoff_coefficient(2, &xs, &ranks), Err(BirkhoffError::MatrixInversionFailed));
}

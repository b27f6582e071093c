use cggmp21::point::Point;
use cggmp21::scalar::{NonZeroScalar, Scalar};
use cggmp21::share_conversion::{lagrange_to_additive_shares, to_additive_shares, ShareConversionError};

fn sv(v: u64) -> Scalar {
    Scalar::from_u64(v)
}

fn nz(v: u64) -> NonZeroScalar {
    NonZeroScalar::from_scalar(sv(v)).unwrap()
}

fn gen(v: &Scalar) -> Point {
    Point::generator_times(v)
}

struct Parties {
    xs: Vec<NonZeroScalar>,
    ranks: Vec<u16>,
    public_shares: Vec<Point>,
}

/// Three parties at x = 1, 2, 3 with ranks 0, 1, 0 and public shares 5 G, 9 G, 11 G.
fn parties() -> Parties {
    Parties {
        xs: vec![nz(1), nz(2), nz(3)],
        ranks: vec![0, 1, 0],
        public_shares: vec![gen(&sv(5)), gen(&sv(9)), gen(&sv(11))],
    }
}

fn convert(p: &Parties, i: u16, signers: &[u16], x: u64, shift: &Scalar) -> Result<(Scalar, Vec<Point>), ShareConversionError> {
    to_additive_shares(2, i, signers, &p.xs, &p.ranks, &p.public_shares, &sv(x), shift)
}

#[test]
fn birkhoff_shares_become_additive() {
    let p = parties();
    // signers at x = 1 (rank 0) and x = 2 (rank 1): f(0) = f(1) - f'(2), coefficients 1 and -1
    let (xi, pts) = convert(&p, 0, &[0, 1], 7, &sv(0)).unwrap();
    assert!(xi.equals(&sv(7)));
    assert!(pts[0].equals(&gen(&sv(5))));
    assert!(pts[1].equals(&gen(&sv(9).negated())));
    let (xi, _) = convert(&p, 1, &[0, 1], 7, &sv(0)).unwrap();
    assert!(xi.equals(&sv(7).negated()));
}

#[test]
fn the_shift_goes_to_the_first_signer() {
    let p = parties();
    let (xi, pts) = convert(&p, 0, &[0, 1], 7, &sv(4)).unwrap();
    assert!(xi.equals(&sv(11)));
    assert!(pts[0].equals(&gen(&sv(9))));
    let (xi, _) = convert(&p, 1, &[0, 1], 7, &sv(4)).unwrap();
    assert!(xi.equals(&sv(7).negated()));
}

#[test]
fn conversion_argument_errors() {
    let p = parties();
    assert!(matches!(convert(&p, 0, &[0], 7, &sv(0)), Err(ShareConversionError::MismatchedAmountOfParties)));
    assert!(matches!(convert(&p, 2, &[0, 1], 7, &sv(0)), Err(ShareConversionError::SignerIndexOutOfBounds)));
    assert!(matches!(convert(&p, 0, &[0, 5], 7, &sv(0)), Err(ShareConversionError::InvalidSubIndex)));
    let mut bad = parties();
    bad.ranks = vec![0, 2, 0];
    assert!(matches!(convert(&bad, 0, &[0, 2], 7, &sv(0)), Err(ShareConversionError::InvalidRanks)));
}

#[test]
fn conversion_birkhoff_and_zero_errors() {
    let mut same_ranks = parties();
    same_ranks.ranks = vec![1, 1, 0];
    assert!(matches!(
        convert(&same_ranks, 0, &[0, 1], 7, &sv(0)),
        Err(ShareConversionError::BirkhoffCoefficient(_))
    ));
    let p = parties();
    assert!(matches!(convert(&p, 0, &[0, 1], 7, &sv(5).negated()), Err(ShareConversionError::DerivedChildKeyZero)));
    assert!(matches!(convert(&p, 0, &[0, 1], 7, &sv(7).negated()), Err(ShareConversionError::DerivedChildShareZero)));
}

/// Shares of `f(x) = 6 + 5 x` at x = 1, 2, 3: 11, 16, 21, with public shares `f(j) G`.
fn lagrange_parties() -> (Vec<NonZeroScalar>, Vec<Point>, Vec<u64>) {
    let shares = vec![11u64, 16, 21];
    (vec![nz(1), nz(2), nz(3)], shares.iter().map(|v| gen(&sv(*v))).collect(), shares)
}

#[test]
fn lagrange_shares_become_additive() {
    let (xs, pts, shares) = lagrange_parties();
    // signers at x = 1 and x = 3: coefficients 3/2 and -1/2
    let (x0, p0) = lagrange_to_additive_shares(2, 0, &[0, 2], &xs, &pts, &sv(shares[0]), &sv(0)).unwrap();
    let (x1, p1) = lagrange_to_additive_shares(2, 1, &[0, 2], &xs, &pts, &sv(shares[2]), &sv(0)).unwrap();
    let half = sv(2).invert().unwrap();
    assert!(x0.equals(&sv(33).times(&half)));
    assert!(x1.equals(&sv(21).times(&half).negated()));
    // the additive shares add up to f(0)
    assert!(x0.plus(&x1).equals(&sv(6)));
    assert_eq!(p0.len(), 2);
    assert!(p0[0].equals(&gen(&x0)));
    assert!(p0[1].equals(&gen(&x1)));
    assert!(p1[0].equals(&gen(&x0)));
    assert!(p1[1].equals(&gen(&x1)));
}

#[test]
fn lagrange_shift_goes_to_the_first_signer() {
    let (xs, pts, shares) = lagrange_parties();
    let (x0, p0) = lagrange_to_additive_shares(2, 0, &[0, 1], &xs, &pts, &sv(shares[0]), &sv(4)).unwrap();
    let (x1, _) = lagrange_to_additive_shares(2, 1, &[0, 1], &xs, &pts, &sv(shares[1]), &sv(4)).unwrap();
    // coefficients 2 and -1 at x = 1, 2
    assert!(x0.equals(&sv(26)));
    assert!(x1.equals(&sv(16).negated()));
    assert!(x0.plus(&x1).equals(&sv(10)));
    assert!(p0[0].equals(&gen(&sv(26))));
}

#[test]
fn lagrange_conversion_errors() {
    let (xs, pts, _) = lagrange_parties();
    let x = sv(11);
    let zero = sv(0);
    assert!(matches!(
        lagrange_to_additive_shares(3, 0, &[0, 1], &xs, &pts, &x, &zero),
        Err(ShareConversionError::MismatchedAmountOfParties)
    ));
    assert!(matches!(
        lagrange_to_additive_shares(2, 2, &[0, 1], &xs, &pts, &x, &zero),
        Err(ShareConversionError::SignerIndexOutOfBounds)
    ));
    assert!(matches!(
        lagrange_to_additive_shares(2, 0, &[0, 3], &xs, &pts, &x, &zero),
        Err(ShareConversionError::InvalidSubIndex)
    ));
    // the same signer twice: the points coincide
    assert!(matches!(
        lagrange_to_additive_shares(2, 0, &[1, 1], &xs, &pts, &x, &zero),
        Err(ShareConversionError::LagrangeCoefficient)
    ));
    // a shift that cancels the first public share
    let (x0, _) = lagrange_to_additive_shares(2, 0, &[0, 1], &xs, &pts, &x, &zero).unwrap();
    assert!(matches!(
        lagrange_to_additive_shares(2, 0, &[0, 1], &xs, &pts, &x, &x0.negated()),
        Err(ShareConversionError::DerivedChildKeyZero)
    ));
}

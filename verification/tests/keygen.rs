use cggmp21::keygen::{
    create_key_share, finalize_key_generation, validate_round2, FinalizeError, KeyShareError, Round2Error,
};
use cggmp21::point::Point;
use cggmp21::polynomial::PointPolynomial;
use cggmp21::scalar::Scalar;

fn s(v: u64) -> Scalar {
    Scalar::from_u64(v)
}

fn g(v: &Scalar) -> Point {
    Point::generator_times(v)
}

/// The public polynomial `coefs * G`.
fn public_polynomial(coefs: &[Scalar]) -> PointPolynomial {
    PointPolynomial::from_coefs(coefs.iter().map(g).collect())
}

/// `a + b x` at `x`.
fn eval(a: &Scalar, b: &Scalar, x: u64) -> Scalar {
    a.plus(&b.times(&s(x)))
}

struct Setup {
    ranks: Vec<u16>,
    commitments: Vec<Vec<u8>>,
    hashes: Vec<Vec<u8>>,
    polynomials: Vec<PointPolynomial>,
    sigmas: Vec<Scalar>,
}

/// Three parties with ranks 0, 0, 1 and `f_j = a_j + b_j x`; party 0 receives `f_j(1)`.
fn setup(coefs: &[(Scalar, Scalar)]) -> Setup {
    let ranks = vec![0u16, 0, 1];
    let commitments = vec![vec![1u8, 2, 3], vec![4u8, 5], vec![6u8]];
    let hashes = commitments.clone();
    let polynomials = coefs.iter().map(|(a, b)| public_polynomial(&[a.clone(), b.clone()])).collect();
    let sigmas = coefs.iter().map(|(a, b)| eval(a, b, 1)).collect();
    Setup { ranks, commitments, hashes, polynomials, sigmas }
}

fn default_coefs() -> Vec<(Scalar, Scalar)> {
    vec![(s(3), s(5)), (s(7), s(11)), (s(13), s(17))]
}

fn run(st: &Setup) -> Result<cggmp21::keygen::Round2Output, Round2Error> {
    validate_round2(0, 2, &st.ranks, &st.commitments, &st.hashes, &st.polynomials, &st.sigmas)
}

#[test]
fn round2_accepts_consistent_shares() {
    let st = setup(&default_coefs());
    let out = run(&st).unwrap();
    // the summed polynomial is 23 G + 33 G x
    assert!(out.public_shares[0].equals(&g(&s(56))));
    assert!(out.public_shares[1].equals(&g(&s(89))));
    // party 2 has rank 1: the derivative, 33 G
    assert!(out.public_shares[2].equals(&g(&s(33))));
    assert!(out.secret_share.equals(&s(56)));
}

#[test]
fn round2_ignores_own_commitment() {
    let mut st = setup(&default_coefs());
    st.commitments[0] = vec![9u8];
    assert!(run(&st).is_ok());
}

#[test]
fn round2_blames_bad_decommitments() {
    let mut st = setup(&default_coefs());
    st.hashes[1] = vec![4u8, 6];
    st.hashes[2] = vec![];
    match run(&st) {
        Err(Round2Error::InvalidDecommitment(b)) => assert_eq!(b, vec![1u16, 2]),
        other => panic!("unexpected {:?}", other.err()),
    }
}

#[test]
fn round2_blames_wrong_sizes() {
    let mut st = setup(&default_coefs());
    st.polynomials[2] = public_polynomial(&[s(13), s(17), s(1)]);
    match run(&st) {
        Err(Round2Error::InvalidDataSize(b)) => assert_eq!(b, vec![2u16]),
        other => panic!("unexpected {:?}", other.err()),
    }
}

#[test]
fn round2_blames_failed_feldman_checks() {
    let mut st = setup(&default_coefs());
    st.sigmas[1] = s(19);
    match run(&st) {
        Err(Round2Error::FeldmanVerificationFailed(b)) => assert_eq!(b, vec![1u16]),
        other => panic!("unexpected {:?}", other.err()),
    }
}

#[test]
fn round2_rejects_zero_shares() {
    // f_2 = -(f_0 + f_1): the summed polynomial and the secret share vanish
    let coefs = vec![(s(3), s(5)), (s(7), s(11)), (s(10).negated(), s(16).negated())];
    let st = setup(&coefs);
    assert!(matches!(run(&st), Err(Round2Error::ZeroShare)));
}

#[test]
fn finalize_checks_proofs_and_sums_the_key() {
    let st = setup(&default_coefs());
    let secrets = [s(56), s(89), s(33)];
    let shares: Vec<Point> = secrets.iter().map(g).collect();
    let nonces = [s(101), s(103), s(107)];
    let commits: Vec<Point> = nonces.iter().map(g).collect();
    let challenges = vec![s(2), s(3), s(5)];
    let mut proofs: Vec<Scalar> = (0..3).map(|k| nonces[k].plus(&challenges[k].times(&secrets[k]))).collect();
    let key = finalize_key_generation(0, &st.polynomials, &shares, &commits, &challenges, &proofs).unwrap();
    // 3 + 7 + 13 = 23
    assert!(key.equals(&g(&s(23))));
    // a wrong proof of another party is blamed
    proofs[2] = proofs[2].plus(&s(1));
    match finalize_key_generation(0, &st.polynomials, &shares, &commits, &challenges, &proofs) {
        Err(FinalizeError::InvalidSchnorrProof(b)) => assert_eq!(b, vec![2u16]),
        other => panic!("unexpected {:?}", other.err()),
    }
    // the party's own proof is not checked
    proofs[2] = proofs[2].plus(&s(1).negated());
    proofs[0] = s(1);
    assert!(finalize_key_generation(0, &st.polynomials, &shares, &commits, &challenges, &proofs).is_ok());
}

#[test]
fn finalize_rejects_a_zero_key() {
    let coefs = vec![(s(3), s(5)), (s(7), s(11)), (s(10).negated(), s(16))];
    let st = setup(&coefs);
    let shares: Vec<Point> = [s(1), s(2), s(3)].iter().map(g).collect();
    let commits = shares.clone();
    let challenges = vec![s(0), s(0), s(0)];
    let proofs = vec![s(1), s(2), s(3)];
    assert!(matches!(
        finalize_key_generation(0, &st.polynomials, &shares, &commits, &challenges, &proofs),
        Err(FinalizeError::ZeroPublicKey)
    ));
}

#[test]
fn round2_accepts_an_empty_polynomial_for_threshold_one() {
    // for t = 1 a polynomial without coefficients has degree 0, as a constant one has
    let ranks = vec![0u16, 0];
    let commitments = vec![vec![1u8], vec![2u8]];
    let hashes = commitments.clone();
    let polynomials = vec![public_polynomial(&[s(3)]), PointPolynomial::from_coefs(vec![])];
    let sigmas = vec![s(3), s(0)];
    let out = validate_round2(0, 1, &ranks, &commitments, &hashes, &polynomials, &sigmas).unwrap();
    assert!(out.public_shares[0].equals(&g(&s(3))));
    assert!(out.public_shares[1].equals(&g(&s(3))));
    assert!(out.secret_share.equals(&s(3)));
    // a polynomial with two coefficients has the wrong size
    let polynomials = vec![public_polynomial(&[s(3)]), public_polynomial(&[s(1), s(1)])];
    match validate_round2(0, 1, &ranks, &commitments, &hashes, &polynomials, &sigmas) {
        Err(Round2Error::InvalidDataSize(b)) => assert_eq!(b, vec![1u16]),
        other => panic!("unexpected {:?}", other.err()),
    }
}

#[test]
fn round1_shares_are_derivatives() {
    let r = cggmp21::keygen::round1_shares(&vec![s(3), s(5)], &[0, 0, 1]);
    assert!(r.shares[0].equals(&s(8)));
    assert!(r.shares[1].equals(&s(13)));
    assert!(r.shares[2].equals(&s(5)));
    assert!(r.public_polynomial.coefficient(0).equals(&g(&s(3))));
    assert!(r.public_polynomial.coefficient(1).equals(&g(&s(5))));
}

#[test]
fn round1_shares_pass_round2_checks() {
    let ranks = vec![0u16, 0, 1];
    let polys = [vec![s(3), s(5)], vec![s(7), s(11)], vec![s(13), s(17)]];
    let rounds: Vec<_> = polys.iter().map(|f| cggmp21::keygen::round1_shares(f, &ranks)).collect();
    for i in 0..3usize {
        let polynomials: Vec<PointPolynomial> =
            rounds.iter().map(|r| PointPolynomial::from_coefs((0..2).map(|k| r.public_polynomial.coefficient(k).clone()).collect())).collect();
        let sigmas: Vec<Scalar> = rounds.iter().map(|r| r.shares[i].clone()).collect();
        let commitments = vec![vec![1u8], vec![2u8], vec![3u8]];
        let out = validate_round2(i as u16, 2, &ranks, &commitments, &commitments.clone(), &polynomials, &sigmas).unwrap();
        // the shares of party i sum to the derivative of the summed polynomial 23 + 33 x
        let expected = [s(56), s(89), s(33)];
        assert!(out.secret_share.equals(&expected[i]));
    }
}

#[test]
fn schnorr_proofs_verify_in_finalize() {
    let st = setup(&default_coefs());
    let secrets = [s(56), s(89), s(33)];
    let shares: Vec<Point> = secrets.iter().map(g).collect();
    let nonces = [s(4), s(6), s(8)];
    let commits: Vec<Point> = nonces.iter().map(g).collect();
    let challenges = vec![s(9), s(10), s(12)];
    let proofs: Vec<Scalar> = (0..3).map(|k| cggmp21::keygen::schnorr_prove(&nonces[k], &challenges[k], &secrets[k])).collect();
    assert!(proofs[0].equals(&s(4 + 9 * 56)));
    assert!(finalize_key_generation(1, &st.polynomials, &shares, &commits, &challenges, &proofs).is_ok());
}

/// Threshold key generation for three parties with `f_j = a_j + b_j x`: every party's
/// public polynomial, its Schnorr commitment, challenge and proof of its secret share
/// `F(j + 1)`, where `F` is the sum of the polynomials.
fn key_share_inputs(coefs: &[(Scalar, Scalar)]) -> (Vec<PointPolynomial>, Vec<Point>, Vec<Scalar>, Vec<Scalar>, Vec<Scalar>) {
    let polynomials: Vec<PointPolynomial> =
        coefs.iter().map(|(a, b)| public_polynomial(&[a.clone(), b.clone()])).collect();
    let secrets: Vec<Scalar> = (1..=3u64)
        .map(|x| coefs.iter().fold(s(0), |acc, (a, b)| acc.plus(&eval(a, b, x))))
        .collect();
    let nonces = [s(4), s(6), s(8)];
    let commits: Vec<Point> = nonces.iter().map(g).collect();
    let challenges = vec![s(9), s(10), s(12)];
    let proofs: Vec<Scalar> =
        (0..3).map(|k| cggmp21::keygen::schnorr_prove(&nonces[k], &challenges[k], &secrets[k])).collect();
    (polynomials, commits, challenges, proofs, secrets)
}

#[test]
fn create_key_share_of_honest_parties() {
    let coefs = default_coefs();
    let (polys, commits, challenges, proofs, secrets) = key_share_inputs(&coefs);
    let ks = create_key_share(0, 2, &polys, &commits, &challenges, &proofs, &secrets[0]).unwrap();
    let a = coefs.iter().fold(s(0), |acc, (a, _)| acc.plus(a));
    let b = coefs.iter().fold(s(0), |acc, (_, b)| acc.plus(b));
    assert_eq!(ks.i, 0);
    assert_eq!(ks.min_signers, 2);
    assert!(ks.shared_public_key.equals(&g(&a)));
    assert_eq!(ks.public_shares.len(), 3);
    for l in 0..3u64 {
        assert!(ks.public_shares[l as usize].equals(&g(&eval(&a, &b, l + 1))));
        assert!(ks.share_indexes[l as usize].equals(&s(l + 1)));
    }
    assert!(ks.secret_share.equals(&secrets[0]));
}

#[test]
fn create_key_share_blames_bad_proofs() {
    let (polys, commits, challenges, mut proofs, secrets) = key_share_inputs(&default_coefs());
    proofs[2] = proofs[2].plus(&s(1));
    proofs[0] = s(0);
    match create_key_share(0, 2, &polys, &commits, &challenges, &proofs, &secrets[0]) {
        Err(KeyShareError::InvalidSchnorrProof(b)) => assert_eq!(b, vec![2]),
        other => panic!("unexpected {:?}", other.err()),
    }
}

#[test]
fn create_key_share_rejects_a_zero_public_share() {
    // F(2) = 0 for F = -2 + x
    let coefs = vec![(s(2).negated(), s(1)), (s(0), s(0)), (s(0), s(0))];
    let (polys, commits, challenges, proofs, secrets) = key_share_inputs(&coefs);
    assert!(matches!(
        create_key_share(0, 2, &polys, &commits, &challenges, &proofs, &secrets[0]),
        Err(KeyShareError::ZeroShare)
    ));
}

#[test]
fn create_key_share_rejects_a_zero_public_key() {
    let coefs = vec![(s(5), s(1)), (s(5).negated(), s(2)), (s(0), s(3))];
    let (polys, commits, challenges, proofs, secrets) = key_share_inputs(&coefs);
    assert!(matches!(
        create_key_share(1, 2, &polys, &commits, &challenges, &proofs, &secrets[1]),
        Err(KeyShareError::ZeroPublicKey)
    ));
}

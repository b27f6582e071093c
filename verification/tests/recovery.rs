use cggmp21::integer::Integer;
use cggmp21::interpolation::{BkParameter, BkParameters};

fn small(v: u64) -> Integer {
    Integer::from_u64(v)
}

/// The Mersenne prime 2^61 - 1: large enough that no intermediate value of the
/// eliminations below is a multiple of it.
fn prime() -> Integer {
    small(2305843009213693951)
}

fn params(list: &[(u64, u32)]) -> BkParameters {
    BkParameters::new(list.iter().map(|&(x, r)| BkParameter::new(small(x), r)).collect())
}

/// f(x) = 5 + 3x + 2x^2; shares: f(1) = 10, f'(2) = 3 + 4*2 = 11, f(4) = 49.
fn shares() -> Vec<Integer> {
    vec![small(10), small(11), small(49)]
}

fn combine(coefficients: &[Integer], values: &[Integer], p: &Integer) -> String {
    let mut acc = Integer::zero();
    for (c, v) in coefficients.iter().zip(values) {
        acc = acc.plus(&c.times(v));
    }
    let r = acc.remainder(p);
    let r = if r.is_negative() { r.plus(p) } else { r };
    r.to_decimal()
}

#[test]
fn birkhoff_coefficients_recover_the_secret() {
    let p = prime();
    let bks = params(&[(1, 0), (2, 1), (4, 0)]);
    let coefficients = bks.compute_bk_coefficient(3, &p).unwrap();
    assert_eq!(combine(&coefficients, &shares(), &p), "5");
}

#[test]
fn add_share_coefficients_build_the_new_share() {
    let p = prime();
    let bks = params(&[(1, 0), (2, 1), (4, 0)]);
    // a new party at x = 3 with rank 0 gets f(3) = 5 + 9 + 18 = 32
    let new_bk = BkParameter::new(small(3), 0);
    let mut coefficients = Vec::new();
    for k in 0..3 {
        let own = bks.get(k).unwrap();
        coefficients.push(bks.get_add_share_coefficient(own, &new_bk, &p, 3).unwrap());
    }
    assert_eq!(combine(&coefficients, &shares(), &p), "32");
    // with rank 1 it gets f'(3) = 3 + 4*3 = 15
    let new_bk = BkParameter::new(small(3), 1);
    let mut coefficients = Vec::new();
    for k in 0..3 {
        let own = bks.get(k).unwrap();
        coefficients.push(bks.get_add_share_coefficient(own, &new_bk, &p, 3).unwrap());
    }
    assert_eq!(combine(&coefficients, &shares(), &p), "15");
}

#[test]
fn add_share_needs_a_known_party() {
    let p = prime();
    let bks = params(&[(1, 0), (2, 1), (4, 0)]);
    let stranger = BkParameter::new(small(9), 0);
    let new_bk = BkParameter::new(small(4), 0);
    assert_eq!(
        bks.get_add_share_coefficient(&stranger, &new_bk, &p, 3).err().unwrap(),
        cggmp21::error::Error::NoExistBk
    );
}

#[test]
fn coefficient_row_gives_the_derivative() {
    let p = prime();
    // row of (2, 1) for degree 2: d/dx of [1, x, x^2] at 2 = [0, 1, 4]
    let bk = BkParameter::new(small(2), 1);
    let row = bk.get_linear_equation_coefficient(&p, 2);
    let values: Vec<String> = row.iter().map(|v| v.to_decimal()).collect();
    assert_eq!(values, vec!["0", "1", "4"]);
}

#[test]
fn checking_a_small_field_and_threshold() {
    let p = prime();
    let bks = params(&[(1, 0), (2, 1), (4, 0)]);
    assert!(bks.check_valid(3, &p).is_ok());
    assert_eq!(bks.check_valid(4, &p).err().unwrap(), cggmp21::error::Error::EqualOrLargerThreshold);
    assert_eq!(bks.check_valid(2, &small(2)).err().unwrap(), cggmp21::error::Error::InvalidFieldOrder);
}

#[test]
fn parameters_that_do_not_determine_the_polynomial() {
    // f(3) = f(1) + 2 f'(2) for every polynomial of degree 2: the system is singular
    let p = prime();
    let bks = params(&[(1, 0), (2, 1), (3, 0)]);
    assert!(bks.compute_bk_coefficient(3, &p).is_err());
    assert_eq!(bks.check_valid(3, &p).err().unwrap(), cggmp21::error::Error::NoValidBks);
}

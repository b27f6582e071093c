use cggmp21::ec_point::{CurveParams, ECPoint};
use cggmp21::error::Error;
use cggmp21::integer::{Integer, Sign};
use cggmp21::point::{NonZeroPoint, Point};
use cggmp21::scalar::Scalar;
use cggmp21::interpolation::{BkParameter, BkParameterMessage, BkParameters};

fn big(s: &str) -> Integer {
    Integer::from_str_radix(s, 10).unwrap()
}

fn small(v: u64) -> Integer {
    Integer::from_u64(v)
}

fn get_large_prime() -> Integer {
    big("115792089237316195423570985008687907852837564279074904382605163141518161494337")
}

fn params(list: &[(u64, u32)]) -> BkParameters {
    let mut v = Vec::new();
    for &(x, rank) in list {
        v.push(BkParameter::new(small(x), rank));
    }
    BkParameters::new(v)
}

#[test]
fn test_bk_parameter_creation() {
    let x = small(1);
    let rank = 0;
    let bk = BkParameter::new(x.clone(), rank);

    assert!(bk.get_x().equals(&x));
    assert_eq!(bk.get_rank(), rank);
    assert_eq!(bk.to_string(), "(x, rank) = (1, 0)");
}

#[test]
fn test_to_bk_message() {
    let field_order = small(100);

    // valid case
    let bk = BkParameter::new(small(1), 10u32);
    let msg = bk.to_message();
    let result = msg.to_bk(&field_order);
    assert!(result.is_ok());
    let recreated_bk = result.unwrap();
    assert_eq!(recreated_bk.get_x().to_decimal(), "1");
    assert_eq!(recreated_bk.get_rank(), 10u32);

    // invalid x = 0
    let invalid_x_zero = BkParameterMessage { x: Integer::zero().to_bytes_be().1, rank: 10 };
    let result = invalid_x_zero.to_bk(&field_order);
    assert!(result.is_err());
    assert_eq!(result.err().unwrap(), Error::InvalidFieldOrder);

    // invalid x = field_order
    let invalid_x_field_order = BkParameterMessage { x: field_order.to_bytes_be().1, rank: 10 };
    let result = invalid_x_field_order.to_bk(&field_order);
    assert!(result.is_err());
    assert_eq!(result.err().unwrap(), Error::InvalidFieldOrder);
}

#[test]
fn test_get_linear_equation_coefficient_matrix() {
    let field_order = get_large_prime();
    let threshold = 4;
    let bks = params(&[(1, 0), (2, 1), (3, 2), (4, 3), (5, 4)]);

    let matrix_result = bks.get_linear_equation_coefficient_matrix(threshold, &field_order);
    assert!(matrix_result.is_ok());
    let matrix = matrix_result.unwrap();

    let expected_rows: Vec<Vec<u64>> = vec![
        vec![1, 1, 1, 1],
        vec![0, 1, 4, 12],
        vec![0, 0, 2, 18],
        vec![0, 0, 0, 6],
        vec![0, 0, 0, 0],
    ];
    for i in 0..5 {
        for j in 0..4 {
            assert_eq!(matrix.get(i as u64, j as u64).to_decimal(), expected_rows[i][j].to_string());
        }
    }
}

#[test]
fn test_check_valid_with_valid_bks() {
    let field_order = get_large_prime();
    let threshold = 3u32;
    let cases: Vec<Vec<(u64, u32)>> = vec![
        vec![(1, 0), (2, 0), (3, 0), (5, 0), (4, 0)],
        vec![(1, 1), (2, 0), (3, 2), (5, 0), (4, 0)],
        vec![(1, 0), (2, 1), (3, 2), (5, 4), (4, 3)],
        vec![(1, 0), (2, 3), (3, 0), (5, 0), (4, 0)],
        vec![(1, 1), (2, 1), (3, 1), (5, 0), (4, 0)],
        vec![(1, 1), (2, 1), (3, 1), (5, 1), (4, 0)],
    ];
    for case in cases {
        let bks = params(&case);
        let result = bks.check_valid(threshold, &field_order);
        assert!(result.is_ok());
    }
}

#[test]
fn test_check_valid_with_invalid_bks() {
    let field_order = get_large_prime();
    let threshold = 3u32;

    // duplicate bk
    let bks = params(&[(1, 0), (2, 1), (3, 2), (1, 0), (5, 4)]);
    let result = bks.check_valid(threshold, &field_order);
    assert!(result.is_err());
    assert_eq!(result.err().unwrap(), Error::InvalidBks);

    // no valid bks
    let bks = params(&[(1, 2), (2, 2), (3, 2), (4, 2), (5, 2)]);
    let result = bks.check_valid(threshold, &field_order);
    assert!(result.is_err());
    assert_eq!(result.err().unwrap(), Error::NoValidBks);

    // enough rank but not have
    let bks = params(&[(1, 0), (2, 1), (3, 0)]);
    let result = bks.check_valid(threshold, &field_order);
    assert!(result.is_err());
    assert_eq!(result.err().unwrap(), Error::NoValidBks);
}

fn assert_not_invertible(result: Result<Vec<Integer>, Error>) {
    assert!(result.is_err());
    if let Error::MatrixError(msg) = result.err().unwrap() {
        assert!(msg.contains("not invertible") || msg.contains("invertable"));
    } else {
        panic!("Expected MatrixError");
    }
}

#[test]
fn test_compute_bk_coefficient() {
    let field_order = get_large_prime();

    // valid case
    let bks = params(&[(1, 0), (2, 1), (3, 2), (4, 3)]);
    let result = bks.compute_bk_coefficient(3, &field_order);
    assert!(result.is_ok());
    let coefficients = result.unwrap();
    let expected_values = vec![
        "1",
        "115792089237316195423570985008687907852837564279074904382605163141518161494336",
        "57896044618658097711785492504343953926418782139537452191302581570759080747170",
        "0",
    ];
    assert_eq!(coefficients.len(), expected_values.len());
    for i in 0..coefficients.len() {
        assert_eq!(coefficients[i].to_decimal(), expected_values[i]);
    }

    // invalid field order
    let bks = params(&[(1, 0), (2, 1), (3, 2), (4, 3)]);
    let result = bks.compute_bk_coefficient(3, &small(2));
    assert!(result.is_err());
    assert_eq!(result.err().unwrap(), Error::InvalidFieldOrder);

    // larger threshold
    let bks = params(&[(1, 0), (2, 1)]);
    let result = bks.compute_bk_coefficient(3, &field_order);
    assert!(result.is_err());
    assert_eq!(result.err().unwrap(), Error::EqualOrLargerThreshold);

    // not invertible matrix #0
    let bks = params(&[(1, 2), (2, 2), (3, 3), (4, 0)]);
    assert_not_invertible(bks.compute_bk_coefficient(3, &field_order));

    // not invertible matrix #1
    let bks = params(&[(1, 2), (2, 2), (3, 3), (4, 1), (5, 4)]);
    assert_not_invertible(bks.compute_bk_coefficient(3, &field_order));

    // not invertible matrix #2 - two the same x
    let bks = params(&[(1, 1), (2, 3), (3, 3), (1, 1), (5, 3)]);
    assert_not_invertible(bks.compute_bk_coefficient(3, &field_order));
}

#[test]
fn test_get_add_share_coefficient() {
    let field_order = get_large_prime();
    let threshold = 3;
    let bks = params(&[(1, 0), (2, 1), (5, 0)]);

    let test_cases = vec![(
        BkParameter::new(small(6), 0),
        "101318078082651670995624611882601919371232868744190541334779517748828391307544",
        0usize,
    )];
    for (new_bk, expected_str, own_index) in test_cases {
        let own_bk = bks.get(own_index).unwrap();
        let result = bks.get_add_share_coefficient(own_bk, &new_bk, &field_order, threshold);
        assert!(result.is_ok());
        assert_eq!(result.unwrap().to_decimal(), expected_str);
    }
}

#[test]
fn test_get_index_of_bk_error() {
    let bks = params(&[(1, 0), (2, 1), (5, 0)]);
    let find = BkParameter::new(small(5), 4);
    let result = bks.get_index_of_bk(&find);
    assert!(result.is_err());
    assert_eq!(result.err().unwrap(), Error::NoExistBk);
}

/// The point `v * G` of secp256k1, with the given curve parameters.
fn point_times_generator(v: u64, curve_params: &CurveParams) -> ECPoint {
    let p = Point::generator_times(&Scalar::from_u64(v));
    let p = NonZeroPoint::from_point(p).unwrap();
    let enc = p.to_uncompressed();
    let x = Integer::from_bytes_be(Sign::Plus, &enc[1..33]);
    let y = Integer::from_bytes_be(Sign::Plus, &enc[33..65]);
    ECPoint::new(x, y, curve_params.clone())
}

#[test]
fn test_validate_public_key() {
    let field_order = get_large_prime();
    let threshold = 3u32;
    let curve_params = CurveParams::new(field_order.clone());
    let pubkey = ECPoint::new(small(123), small(456), curve_params.clone());

    let xs = [4u64, 7, 8];
    let ranks = [0u32, 0, 0];
    let mut list = Vec::new();
    for i in 0..threshold as usize {
        list.push((xs[i], ranks[i]));
    }
    let bks = params(&list);

    // The shares of f(x) = 5 + 3x + 2x^2 at the parties' x, times the generator.
    let make_points = |count: usize| {
        let mut sgs = Vec::with_capacity(count);
        for i in 0..count {
            let x = if i < xs.len() { xs[i] } else { 9 };
            let share = 5 + 3 * x + 2 * x * x;
            sgs.push(point_times_generator(share, &curve_params));
        }
        sgs
    };

    // case 1: should be ok: the key is f(0) = 5 times the generator
    let sgs = make_points(threshold as usize);
    let valid_pubkey = point_times_generator(5, &curve_params);
    let result = bks.validate_public_key(&sgs, threshold, &valid_pubkey);
    assert!(result.is_ok(), "Valid public key validation failed");

    // case 2: duplicate bk
    let bks_duplicate = params(&[(4, 0), (7, 0), (7, 0)]);
    let sgs = make_points(threshold as usize);
    let result = bks_duplicate.validate_public_key(&sgs, threshold, &pubkey);
    assert!(result.is_err(), "Should fail with duplicate BK parameters");

    // case 3: length mismatch
    let sgs = make_points(threshold as usize + 1);
    let result = bks.validate_public_key(&sgs, threshold, &pubkey);
    assert!(result.is_err(), "Should fail with length mismatch");

    // case 4: inconsistent public key
    let sgs = make_points(threshold as usize);
    let inconsistent_pubkey = ECPoint::new(small(999), small(999), curve_params.clone());
    let result = bks.validate_public_key(&sgs, threshold, &inconsistent_pubkey);
    assert!(result.is_err(), "Should fail with inconsistent public key");
    assert_eq!(result.err().unwrap(), Error::InconsistentPubKey);
}

#[test]
fn test_validate_public_key_other_point() {
    let field_order = get_large_prime();
    let curve_params = CurveParams::new(field_order.clone());
    let bks = params(&[(4, 0), (7, 0), (8, 0)]);
    let mut sgs = Vec::new();
    for x in [4u64, 7, 8] {
        sgs.push(point_times_generator(5 + 3 * x + 2 * x * x, &curve_params));
    }
    let other = point_times_generator(6, &curve_params);
    let result = bks.validate_public_key(&sgs, 3, &other);
    assert_eq!(result.err().unwrap(), Error::InconsistentPubKey);
}

#[test]
fn test_linear_combination_point() {
    let curve_params = CurveParams::new(get_large_prime());
    let g = point_times_generator(1, &curve_params);
    let h = point_times_generator(4, &curve_params);
    // 2 * G + 3 * (4 * G) == 14 * G
    let got = ECPoint::compute_linear_combination_point(&[small(2), small(3)], &[g.clone(), h]).unwrap();
    let expected = point_times_generator(14, &curve_params);
    assert!(got.equal(&expected));
    // a negative scalar: 16 * G - 2 * G == 14 * G
    let p16 = point_times_generator(16, &curve_params);
    let minus_two = small(2).negated();
    let got = ECPoint::compute_linear_combination_point(&[small(1), minus_two], &[p16, g.clone()]).unwrap();
    assert!(got.equal(&expected));
    // the scalar is reduced modulo the group order: (N + 1) * G == G
    let n_plus_one = get_large_prime().plus(&small(1));
    let got = ECPoint::compute_linear_combination_point(&[n_plus_one], &[g.clone()]).unwrap();
    assert!(got.equal(&g));
}

#[test]
fn test_linear_combination_point_errors() {
    let curve_params = CurveParams::new(get_large_prime());
    let g = point_times_generator(1, &curve_params);
    let off_curve = ECPoint::new(small(1), small(100), curve_params.clone());
    let negative = ECPoint::new(small(1).negated(), small(100), curve_params.clone());
    let cases: Vec<(Vec<Integer>, Vec<ECPoint>, &str)> = vec![
        (vec![small(1)], vec![], "Mismatched scalars and points lengths"),
        (vec![], vec![], "Empty points array"),
        (vec![small(1)], vec![off_curve], "Invalid point"),
        (vec![small(1)], vec![negative], "Invalid point"),
        (vec![small(1), small(1).negated()], vec![g.clone(), g.clone()], "Point at infinity"),
    ];
    for (scalars, points, message) in cases {
        let result = ECPoint::compute_linear_combination_point(&scalars, &points);
        assert_eq!(result.err().unwrap(), Error::ECPointError(message.to_string()));
    }
}

#[test]
fn test_diff_monomial_coeff() {
    let field_order = get_large_prime();

    let bk = BkParameter::new(small(3), 0);
    assert_eq!(bk.get_diff_monomial_coeff(&field_order, 0).to_decimal(), "1");
    assert_eq!(bk.get_diff_monomial_coeff(&field_order, 1).to_decimal(), "3");
    assert_eq!(bk.get_diff_monomial_coeff(&field_order, 2).to_decimal(), "9");

    let bk = BkParameter::new(small(3), 1);
    assert_eq!(bk.get_diff_monomial_coeff(&field_order, 0).to_decimal(), "0");
    assert_eq!(bk.get_diff_monomial_coeff(&field_order, 1).to_decimal(), "1");
    assert_eq!(bk.get_diff_monomial_coeff(&field_order, 2).to_decimal(), "6");

    let bk = BkParameter::new(small(3), 2);
    assert_eq!(bk.get_diff_monomial_coeff(&field_order, 0).to_decimal(), "0");
    assert_eq!(bk.get_diff_monomial_coeff(&field_order, 1).to_decimal(), "0");
    assert_eq!(bk.get_diff_monomial_coeff(&field_order, 2).to_decimal(), "2");
}

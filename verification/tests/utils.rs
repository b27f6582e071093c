use cggmp21::birkhoff_error::{from_str_error, BirkhoffError};
use cggmp21::execution_id::ExecutionId;
use cggmp21::integer::Integer;
use cggmp21::interpolation::binomial;
use cggmp21::security_level::{
    max_exponents_size, validate_public_paillier_key_size, validate_secret_paillier_key_size,
    SecurityLevelParams,
};
use cggmp21::signing::InvalidSignature;
use cggmp21::utils::{
    but_nth, check_message_round_reliability_check, collect_blame, collect_simple_blame, iter_peers,
    partition_results, subset, try_collect_blame, xor_all, xor_array, AbortBlame,
};

#[test]
fn xor_array_combines_the_common_bytes() {
    assert_eq!(xor_array(vec![1, 2, 3], &[1, 1]), vec![0, 3, 3]);
    assert_eq!(xor_array(vec![0xff], &[0x0f, 0xf0]), vec![0xf0]);
}

#[test]
fn iter_peers_skips_the_party() {
    assert_eq!(iter_peers(1, 4), vec![0, 2, 3]);
    assert_eq!(iter_peers(5, 3), vec![0, 1, 2]);
    assert_eq!(iter_peers(0, 0), Vec::<u16>::new());
}

#[test]
fn but_nth_drops_one_item() {
    assert_eq!(but_nth(1, vec!['a', 'b', 'c']), vec!['a', 'c']);
    assert_eq!(but_nth(5, vec!['a', 'b', 'c']), vec!['a', 'b', 'c']);
}

#[test]
fn partition_results_keeps_the_order() {
    let items: Vec<Result<u32, &str>> = vec![Ok(1), Err("x"), Ok(2), Err("y"), Ok(3)];
    assert_eq!(partition_results(items), (vec![1, 2, 3], vec!["x", "y"]));
}

#[test]
fn subset_picks_by_index() {
    assert_eq!(subset(&[2, 0], &[10, 20, 30]), Some(vec![30, 10]));
    assert_eq!(subset(&[3], &[10, 20, 30]), None);
    assert_eq!(subset::<u8>(&[], &[]), Some(vec![]));
}

#[test]
fn abort_blame_holds_its_fields() {
    let b = AbortBlame::new(2, 10, 11);
    assert_eq!((b.faulty_party, b.data_message, b.proof_message), (2, 10, 11));
}

#[test]
fn execution_ids() {
    let bytes = [1u8, 2, 3];
    assert_eq!(ExecutionId::new(&bytes).as_bytes(), &[1, 2, 3]);
    let owned = vec![4u8, 5];
    let id = ExecutionId::new_static(&owned);
    drop(owned);
    assert_eq!(id.as_bytes(), &[4, 5]);
}

#[test]
fn binomial_coefficients() {
    assert_eq!(binomial(5, 2).to_decimal(), "10");
    assert_eq!(binomial(10, 3).to_decimal(), "120");
    assert_eq!(binomial(30, 15).to_decimal(), "155117520");
    assert_eq!(binomial(6, 6).to_decimal(), "1");
    assert_eq!(binomial(0, 0).to_decimal(), "1");
    assert_eq!(binomial(3, 5).to_decimal(), "0");
    assert_eq!(binomial(4, -1).to_decimal(), "0");
}

#[test]
fn birkhoff_error_messages() {
    assert_eq!(
        BirkhoffError::ElementNotInvertible { row: 1, col: 22 }.message(),
        "Element is not invertible: row=1, col=22"
    );
    assert_eq!(
        BirkhoffError::MatrixDimensionsMismatch { self_rows: 1, self_cols: 2, other_rows: 3, other_cols: 4 }
            .message(),
        "Matrix dimensions do not match for multiplication: self_rows=1, self_cols=2, other_rows=3, other_cols=4"
    );
    assert_eq!(BirkhoffError::ZeroCoefficient.message(), "Coefficient is 0");
    assert_eq!(
        BirkhoffError::PseudoInverseFailed.message(),
        "Pseudo-inverse calculation failed"
    );
}

#[test]
fn birkhoff_errors_from_text() {
    assert_eq!(
        from_str_error("Element is not invertible"),
        BirkhoffError::ElementNotInvertible { row: 0, col: 0 }
    );
    assert_eq!(from_str_error("Matrix is not diagonal"), BirkhoffError::NotDiagonalMatrix);
    assert_eq!(
        from_str_error("Rows have different lengths"),
        BirkhoffError::RowsDifferentLengths { row1_len: 0, row2_len: 0 }
    );
    assert_eq!(from_str_error("something else"), BirkhoffError::BirkhoffCoefficientFailed);
}

#[test]
fn invalid_signature_message() {
    assert_eq!(InvalidSignature.message(), "signature is not valid");
}

fn level() -> SecurityLevelParams {
    SecurityLevelParams {
        security_bits: 384,
        epsilon: 230,
        ell: 256,
        ell_prime: 848,
        n_size: 3072,
        a_size: 512,
        epsilon_n_size: 3,
        epsilon_p_size: 1,
        epsilon_q_size: 1,
        epsilon_a_size: 1,
    }
}

#[test]
fn exponent_sizes() {
    assert_eq!(max_exponents_size(&level()), (2022, 3558));
    let mut l = level();
    l.security_bits = 10;
    // the second candidate wins when the first is smaller
    assert_eq!(max_exponents_size(&l), (1078, 566));
}

#[test]
fn paillier_key_sizes() {
    let two = Integer::from_u64(2);
    let l = level();
    assert!(validate_public_paillier_key_size(&l, &two.pow_u32(3068)));
    assert!(!validate_public_paillier_key_size(&l, &two.pow_u32(3067)));
    let p = two.pow_u32(1534);
    let alpha = two.pow_u32(510);
    assert!(validate_secret_paillier_key_size(&l, &p, &p, &alpha));
    assert!(!validate_secret_paillier_key_size(&l, &p, &two.pow_u32(1533), &alpha));
    assert!(!validate_secret_paillier_key_size(&l, &p, &p, &two.pow_u32(509)));
}

#[test]
fn xor_all_combines_every_item() {
    assert_eq!(xor_all(vec![0, 0, 0], &[vec![1, 2, 3], vec![1, 1], vec![4]]), vec![4, 3, 3]);
    assert_eq!(xor_all(vec![7], &[]), vec![7]);
}

#[test]
fn collect_blame_marks_faulty_pairs() {
    let data = vec![(0u16, 10u64, 5u32), (2, 11, 6), (3, 12, 7)];
    let proofs = vec![(0u16, 20u64, 5u32), (2, 21, 0), (3, 22, 7)];
    let blame = collect_blame(&data, &proofs, |_j: u16, d: &u32, p: &u32| d != p);
    assert_eq!(blame.len(), 1);
    assert_eq!((blame[0].faulty_party, blame[0].data_message, blame[0].proof_message), (2, 11, 21));
    let blame = collect_simple_blame(&data, |d: &u32| *d >= 6);
    assert_eq!(blame.iter().map(|b| (b.faulty_party, b.data_message, b.proof_message)).collect::<Vec<_>>(), vec![(2, 11, 11), (3, 12, 12)]);
    let ok: Result<Vec<AbortBlame>, &str> = try_collect_blame(&data, &proofs, |j: u16, d: &u32, p: &u32| Ok(j == 0 && d == p));
    assert_eq!(ok.unwrap().len(), 1);
    let failed = try_collect_blame(&data, &proofs, |j: u16, _d: &u32, _p: &u32| if j == 2 { Err("bug") } else { Ok(false) });
    assert_eq!(failed.err().unwrap(), "bug");
}

#[test]
fn reliability_check_compares_every_hash() {
    let hashes = vec![(0u16, 1u64, vec![1u8, 2]), (1, 2, vec![1, 2])];
    assert!(check_message_round_reliability_check(&hashes, &[1, 2]));
    assert!(!check_message_round_reliability_check(&hashes, &[1, 3]));
    assert!(check_message_round_reliability_check(&[], &[1, 3]));
}

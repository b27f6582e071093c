use cggmp21::scalar::{NonZeroScalar, Scalar};
use cggmp21::point::{NonZeroPoint, Point};
use cggmp21::signing::{DataToSign, InvalidSignature, PartialSignature, Presignature, Signature};

fn sc(v: u64) -> Scalar {
    Scalar::from_u64(v)
}

fn nz(s: Scalar) -> NonZeroScalar {
    NonZeroScalar::from_scalar(s).unwrap()
}

/// Scalars spread over the whole range: small values, their negations and inverses.
fn sample_scalar(i: u64) -> Scalar {
    let base = sc(3 * i + 7);
    match i % 3 {
        0 => base,
        1 => base.negated(),
        _ => base.invert().unwrap(),
    }
}

#[test]
fn read_write_signature_secp256k1() {
    for i in 0..10u64 {
        let r = nz(sample_scalar(i));
        let s = nz(sample_scalar(i + 5));
        let signature = Signature::from_raw_parts(r, s);
        let mut bytes = vec![0; Signature::serialized_len()];
        signature.write_to_slice(&mut bytes);
        let signature2 = Signature::read_from_slice(&bytes).unwrap();
        assert!(signature == signature2, "signatures equal");
    }
}

#[test]
fn serialized_len_is_two_scalars() {
    assert_eq!(Signature::serialized_len(), 64);
}

#[test]
fn write_to_short_buffer_leaves_it() {
    let signature = Signature::from_raw_parts(nz(sc(1)), nz(sc(2)));
    let mut bytes = vec![9u8; 63];
    signature.write_to_slice(&mut bytes);
    assert_eq!(bytes, vec![9u8; 63]);
}

#[test]
fn write_to_long_buffer_keeps_the_tail() {
    let signature = Signature::from_raw_parts(nz(sc(1)), nz(sc(258)));
    let mut bytes = vec![9u8; 66];
    signature.write_to_slice(&mut bytes);
    let mut expected = vec![0u8; 66];
    expected[31] = 1;
    expected[62] = 1;
    expected[63] = 2;
    expected[64] = 9;
    expected[65] = 9;
    assert_eq!(bytes, expected);
}

#[test]
fn read_rejects_bad_encodings() {
    // wrong length
    assert!(Signature::read_from_slice(&[1u8; 63]).is_none());
    assert!(Signature::read_from_slice(&[1u8; 65]).is_none());
    // a zero component
    let mut bytes = vec![0u8; 64];
    bytes[63] = 5;
    assert!(Signature::read_from_slice(&bytes).is_none());
    // a component not below the group order
    let bytes = vec![0xffu8; 64];
    assert!(Signature::read_from_slice(&bytes).is_none());
    // both components fine
    let mut bytes = vec![0u8; 64];
    bytes[31] = 3;
    bytes[63] = 4;
    let signature = Signature::read_from_slice(&bytes).unwrap();
    assert_eq!(signature, Signature::from_raw_parts(nz(sc(3)), nz(sc(4))));
}

#[test]
fn normalize_s_picks_the_lower_half() {
    let low = Signature::from_raw_parts(nz(sc(5)), nz(sc(7)));
    assert_eq!(low.clone().normalize_s(), low);
    let high = Signature::from_raw_parts(nz(sc(5)), nz(sc(7).negated()));
    assert_eq!(high.normalize_s(), Signature::from_raw_parts(nz(sc(5)), nz(sc(7))));
}

#[test]
fn combine_partial_signatures() {
    let parts = vec![
        PartialSignature { r: sc(11), sigma_i: sc(3) },
        PartialSignature { r: sc(11), sigma_i: sc(4) },
    ];
    let signature = PartialSignature::combine(&parts).unwrap();
    assert_eq!(signature, Signature::from_raw_parts(nz(sc(11)), nz(sc(7))));

    // a sum in the upper half is negated
    let parts = vec![
        PartialSignature { r: sc(11), sigma_i: sc(3).negated() },
        PartialSignature { r: sc(11), sigma_i: sc(1) },
    ];
    let signature = PartialSignature::combine(&parts).unwrap();
    assert_eq!(signature, Signature::from_raw_parts(nz(sc(11)), nz(sc(2))));
}

#[test]
fn combine_refuses_malformed_input() {
    assert!(PartialSignature::combine(&[]).is_none());
    let zero_r = vec![PartialSignature { r: sc(0), sigma_i: sc(3) }];
    assert!(PartialSignature::combine(&zero_r).is_none());
    let zero_sum = vec![
        PartialSignature { r: sc(1), sigma_i: sc(3) },
        PartialSignature { r: sc(1), sigma_i: sc(3).negated() },
    ];
    assert!(PartialSignature::combine(&zero_sum).is_none());
}

#[test]
fn data_to_sign_holds_its_scalar() {
    let data = DataToSign::from_scalar(sc(42));
    assert_eq!(data.to_scalar(), sc(42));
}


fn from_hex(s: &str) -> Vec<u8> {
    (0..s.len()).step_by(2).map(|i| u8::from_str_radix(&s[i..i + 2], 16).unwrap()).collect()
}

#[test]
fn digest_is_sha256_modulo_the_order() {
    let data = DataToSign::digest(b"abc");
    let expected = from_hex("ba7816bf8f01cfea414140de5dae2223b00361a396177a9cb410ff61f20015ad");
    assert_eq!(data.to_scalar().to_be_bytes(), expected);
}

#[test]
fn from_digest_reduces_modulo_the_order() {
    let data = DataToSign::from_digest(&[0xffu8; 32]);
    let expected = from_hex("000000000000000000000000000000014551231950b75fc4402da1732fc9bebe");
    assert_eq!(data.to_scalar().to_be_bytes(), expected);
}

/// An ECDSA signature of `message` with the secret key `x` and the nonce `k`.
fn ecdsa_sign(x: &Scalar, k: &Scalar, message: &Scalar) -> Signature {
    let big_r = NonZeroPoint::from_point(Point::generator_times(k)).unwrap();
    let r = big_r.x_scalar();
    let s = k.invert().unwrap().times(&message.plus(&r.times(x)));
    Signature::from_raw_parts(nz(r), nz(s))
}

#[test]
fn verify_accepts_a_valid_signature() {
    let x = sc(12345);
    let public_key = Point::generator_times(&x);
    let message = DataToSign::digest(b"hello");
    let m = DataToSign::digest(b"hello").to_scalar();
    let signature = ecdsa_sign(&x, &sc(777), &m);
    assert_eq!(signature.verify(&public_key, &message), Ok(()));
    // the normalized signature verifies too
    let normalized = signature.clone().normalize_s();
    assert_eq!(normalized.verify(&public_key, &message), Ok(()));
}

#[test]
fn verify_rejects_another_message_or_key() {
    let x = sc(12345);
    let public_key = Point::generator_times(&x);
    let m = DataToSign::digest(b"hello").to_scalar();
    let signature = ecdsa_sign(&x, &sc(777), &m);
    assert_eq!(signature.verify(&public_key, &DataToSign::digest(b"bye")), Err(InvalidSignature));
    let other_key = Point::generator_times(&sc(54321));
    assert_eq!(signature.verify(&other_key, &DataToSign::digest(b"hello")), Err(InvalidSignature));
}

#[test]
fn partial_signature_of_a_single_signer_verifies() {
    let x = sc(999);
    let public_key = Point::generator_times(&x);
    let t = sc(4242);
    let t_inv = t.invert().unwrap();
    let presignature = Presignature {
        Gamma: NonZeroPoint::from_point(Point::generator_times(&t)).unwrap(),
        hat_k_i: t_inv.clone(),
        hat_chi_i: x.times(&t_inv),
        hat_Delta_j: vec![],
        hat_S_j: vec![],
    };
    let partial = presignature.issue_partial_signature(DataToSign::digest(b"message"));
    let signature = PartialSignature::combine(&[partial]).unwrap();
    assert_eq!(signature.verify(&public_key, &DataToSign::digest(b"message")), Ok(()));
}

#[test]
fn point_bytes_round_trip() {
    let p = Point::generator_times(&sc(5));
    let bytes = p.to_bytes();
    assert_eq!(bytes.len(), 33);
    assert_eq!(Point::from_bytes(&bytes), Some(p));
    assert!(Point::from_bytes(&[1u8, 2, 3]).is_none());
    let zero = Point::generator_times(&sc(0));
    assert!(zero.is_zero());
    assert!(NonZeroPoint::from_point(zero).is_none());
}

#[test]
fn point_arithmetic_agrees_with_scalars() {
    let g2 = Point::generator_times(&sc(2));
    let g3 = Point::generator_times(&sc(3));
    assert_eq!(g2.plus(&g3), Point::generator_times(&sc(5)));
    assert_eq!(g2.times(&sc(3)), Point::generator_times(&sc(6)));
}

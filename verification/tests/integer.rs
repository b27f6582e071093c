use cggmp21::integer::{Integer, Sign};

fn iv(v: i64) -> Integer {
    Integer::from_i64(v)
}

#[test]
fn arithmetic_rounds_toward_zero() {
    assert_eq!(iv(-7).plus(&iv(2)).to_decimal(), "-5");
    assert_eq!(iv(-7).minus(&iv(2)).to_decimal(), "-9");
    assert_eq!(iv(-7).times(&iv(2)).to_decimal(), "-14");
    assert_eq!(iv(-7).quotient(&iv(2)).to_decimal(), "-3");
    assert_eq!(iv(-7).remainder(&iv(2)).to_decimal(), "-1");
    assert_eq!(iv(7).negated().to_decimal(), "-7");
}

#[test]
fn comparisons_and_predicates() {
    assert!(iv(3).less_than(&iv(4)));
    assert!(!iv(4).less_than(&iv(3)));
    assert!(iv(5).equals(&iv(5)));
    assert!(!iv(5).equals(&iv(6)));
    assert!(Integer::zero().is_zero());
    assert!(Integer::one().is_one());
    assert!(iv(-1).is_negative());
    assert!(!iv(0).is_negative());
    assert_eq!(iv(-5).abs().to_decimal(), "5");
}

#[test]
fn powers() {
    assert_eq!(iv(2).pow_u32(10).to_decimal(), "1024");
    assert_eq!(iv(3).modpow(&iv(4), &iv(5)).to_decimal(), "1");
    assert_eq!(iv(2).pow_mod(&iv(3), &iv(5)).to_decimal(), "3");
    // the result takes the sign of the modulus
    assert_eq!(iv(2).modpow(&iv(3), &iv(-5)).to_decimal(), "-2");
}

#[test]
fn radix_text() {
    assert_eq!(iv(255).to_string_radix(16), "ff");
    assert_eq!(iv(-255).to_string_radix(16), "-ff");
    assert_eq!(iv(0).to_string_radix(2), "0");
    assert_eq!(Integer::from_str_radix("ff", 16).unwrap().to_decimal(), "255");
    assert_eq!(Integer::from_str_radix("-101", 2).unwrap().to_decimal(), "-5");
    assert_eq!(Integer::from_str_radix("zz", 10).err().unwrap(), "Failed to parse");
}

#[test]
fn big_endian_bytes() {
    let (sign, bytes) = iv(-1125).to_bytes_be();
    assert_eq!(sign, Sign::Minus);
    assert_eq!(bytes, vec![4, 101]);
    let (sign, bytes) = iv(0).to_bytes_be();
    assert_eq!(sign, Sign::NoSign);
    assert_eq!(bytes, vec![0]);
    assert_eq!(Integer::from_bytes_be(Sign::Plus, &[4, 101]).to_decimal(), "1125");
    assert_eq!(Integer::from_bytes_be(Sign::Minus, &[4, 101]).to_decimal(), "-1125");
    assert_eq!(Integer::from_bytes_be(Sign::NoSign, &[4, 101]).to_decimal(), "0");
    assert_eq!(Integer::from_bytes_be(Sign::Plus, &[]).to_decimal(), "0");
}

#[test]
fn bytes_round_trip() {
    for v in [-70000i64, -256, -1, 0, 1, 255, 256, 1 << 40] {
        let (sign, bytes) = iv(v).to_bytes_be();
        assert_eq!(Integer::from_bytes_be(sign, &bytes).to_decimal(), v.to_string());
    }
}

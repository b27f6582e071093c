//! Arbitrary-precision signed integers.
//!
//! An [`Integer`] holds its value as a little-endian two's-complement byte
//! string. The arithmetic itself is done by `num_bigint`; every operation
//! states its result over the mathematical value `x@: int`.

use vstd::prelude::*;
use vstd::arithmetic::power::pow;
use vstd::arithmetic::div_mod::lemma_div_decreases;

verus! {

/// 256^n
pub open spec fn pow256(n: nat) -> int
    decreases n,
{
    if n == 0 {
        1
    } else {
        256 * pow256((n - 1) as nat)
    }
}

/// Unsigned value of a little-endian byte string.
pub open spec fn le_nat(s: Seq<u8>) -> int
    decreases s.len(),
{
    if s.len() == 0 {
        0
    } else {
        s[0] as int + 256 * le_nat(s.subrange(1, s.len() as int))
    }
}

/// Unsigned value of a big-endian byte string.
pub open spec fn be_nat(s: Seq<u8>) -> int
    decreases s.len(),
{
    if s.len() == 0 {
        0
    } else {
        be_nat(s.subrange(0, s.len() - 1)) * 256 + s[s.len() - 1] as int
    }
}

/// Value of a little-endian two's-complement byte string (the empty string is 0).
pub open spec fn twos_le_value(s: Seq<u8>) -> int {
    if s.len() > 0 && s[s.len() - 1] >= 128 {
        le_nat(s) - pow256(s.len())
    } else {
        le_nat(s)
    }
}

pub open spec fn abs(a: int) -> int {
    if a < 0 {
        -a
    } else {
        a
    }
}

/// Quotient of division rounded toward zero (Rust's `/`).
pub open spec fn trunc_div(a: int, b: int) -> int {
    let q = abs(a) / abs(b);
    if (a < 0) == (b < 0) {
        q
    } else {
        -q
    }
}

/// Remainder of division rounded toward zero (Rust's `%`): it has the sign of `a`.
pub open spec fn trunc_rem(a: int, b: int) -> int {
    a - b * trunc_div(a, b)
}

/// Remainder of division rounded toward minus infinity: it has the sign of `m`.
pub open spec fn floor_mod(a: int, m: int) -> int {
    if m > 0 {
        a % m
    } else {
        -((-a) % (-m))
    }
}

/// Number of bits needed to write `n >= 0` (0 for 0).
pub open spec fn bit_len(n: int) -> nat
    decreases n,
{
    if n <= 0 {
        0
    } else {
        1 + bit_len(n / 2)
    }
}

/// Minimal big-endian bytes of `n` (a single zero byte for zero).
pub open spec fn be_bytes(n: nat) -> Seq<u8>
    decreases n,
{
    if n < 256 {
        seq![n as u8]
    } else {
        be_bytes(n / 256).push((n % 256) as u8)
    }
}

/// The character of digit `d` (`0`-`9`, then `a`-`z`).
pub open spec fn digit_char(d: nat) -> char {
    if d < 10 {
        (48 + d) as char
    } else {
        (87 + d) as char
    }
}

/// Digits of `n` in base `radix`, most significant first, without leading zeros
/// (`"0"` for zero).
pub open spec fn radix_digits(n: nat, radix: nat) -> Seq<char>
    recommends
        radix >= 2,
    decreases n,
{
    if n < radix || radix < 2 {
        seq![digit_char(n)]
    } else {
        proof {
            lemma_div_decreases(n as int, radix as int);
        }
        radix_digits(n / radix, radix).push(digit_char(n % radix))
    }
}

/// Text of `v` in base `radix`, with a leading `-` when negative.
pub open spec fn radix_string(v: int, radix: nat) -> Seq<char> {
    if v < 0 {
        seq!['-'] + radix_digits((-v) as nat, radix)
    } else {
        radix_digits(v as nat, radix)
    }
}

/// Decimal text of `v`.
pub open spec fn decimal_string(v: int) -> Seq<char> {
    radix_string(v, 10)
}

/// The value that `num_bigint` parses from the text `s` in base `radix`, if it accepts it.
pub uninterp spec fn parsed_radix(s: Seq<char>, radix: u32) -> Option<int>;

/// The sign of `v`.
pub open spec fn sign_of(v: int) -> Sign {
    if v < 0 {
        Sign::Minus
    } else if v == 0 {
        Sign::NoSign
    } else {
        Sign::Plus
    }
}

/// The value of a sign and a big-endian magnitude.
pub open spec fn signed_be_value(sign: Sign, bytes: Seq<u8>) -> int {
    match sign {
        Sign::Minus => -be_nat(bytes),
        Sign::NoSign => 0,
        Sign::Plus => be_nat(bytes),
    }
}

/// `floor_mod(a, m)` is congruent to `a` modulo `|m|`.
pub proof fn lemma_floor_mod_residue(a: int, m: int)
    requires
        m != 0,
    ensures
        floor_mod(a, m) % abs(m) == a % abs(m),
{
    if m < 0 {
        let n = -m;
        let r = (-a) % n;
        vstd::arithmetic::div_mod::lemma_mod_bound(-a, n);
        // -r == a - n * ((-a) / n) - ... : -r and a differ by a multiple of n
        vstd::arithmetic::div_mod::lemma_fundamental_div_mod(-a, n);
        let q = (-a) / n;
        assert(-r == a + n * q);
        vstd::arithmetic::mul::lemma_mul_is_commutative(n, q);
        vstd::arithmetic::div_mod::lemma_mod_multiples_vanish(q, a, n);
    } else {
        vstd::arithmetic::div_mod::lemma_mod_twice(a, m);
    }
}

/// `floor_mod(a, m)` depends only on the residue of `a` modulo `|m|`.
pub proof fn lemma_floor_mod_cong(a: int, b: int, m: int)
    requires
        m != 0,
        a % abs(m) == b % abs(m),
    ensures
        floor_mod(a, m) == floor_mod(b, m),
{
    if m < 0 {
        let n = -m;
        vstd::arithmetic::div_mod::lemma_sub_mod_noop(0, a, n);
        vstd::arithmetic::div_mod::lemma_sub_mod_noop(0, b, n);
    }
}

/// The value of a big-endian byte string is not negative, and is below `256^len`.
pub proof fn lemma_be_nat_bounds(s: Seq<u8>)
    ensures
        0 <= be_nat(s) < pow256(s.len()),
    decreases s.len(),
{
    if s.len() > 0 {
        lemma_be_nat_bounds(s.subrange(0, s.len() - 1));
        let k = (s.len() - 1) as nat;
        assert(pow256(s.len()) == 256 * pow256(k));
        let v = be_nat(s.subrange(0, s.len() - 1));
        assert(v * 256 + s[s.len() - 1] < pow256(s.len())) by (nonlinear_arith)
            requires
                0 <= v < pow256(k),
                0 <= s[s.len() - 1] < 256,
                pow256(s.len()) == 256 * pow256(k),
        ;
    }
}

/// The minimal big-endian bytes of `n` have the value `n`.
pub proof fn lemma_be_bytes_value(n: nat)
    ensures
        be_nat(be_bytes(n)) == n,
        be_bytes(n).len() >= 1,
    decreases n,
{
    if n >= 256 {
        lemma_be_bytes_value(n / 256);
        let s = be_bytes(n / 256).push((n % 256) as u8);
        assert(be_bytes(n) == s);
        assert(s.subrange(0, s.len() - 1) =~= be_bytes(n / 256));
        vstd::arithmetic::div_mod::lemma_fundamental_div_mod(n as int, 256);
        assert(s[s.len() - 1] as int == n % 256);
        assert(be_nat(s) == be_nat(s.subrange(0, s.len() - 1)) * 256 + s[s.len() - 1] as int);
    } else {
        let s = seq![n as u8];
        assert(be_bytes(n) == s);
        assert(s.subrange(0, 0) =~= Seq::<u8>::empty());
        assert(be_nat(s) == be_nat(s.subrange(0, 0)) * 256 + s[0] as int);
    }
}

/// `n` zero bytes.
pub open spec fn zero_bytes(n: nat) -> Seq<u8> {
    Seq::new(n, |i: int| 0u8)
}

/// Leading zero bytes do not change a big-endian value.
pub proof fn lemma_be_nat_leading_zeros(k: nat, s: Seq<u8>)
    ensures
        be_nat(zero_bytes(k) + s) == be_nat(s),
    decreases s.len(), k,
{
    if s.len() == 0 {
        assert(zero_bytes(k) + s =~= zero_bytes(k));
        if k > 0 {
            let z = zero_bytes(k);
            assert(z.subrange(0, z.len() - 1) =~= zero_bytes((k - 1) as nat));
            lemma_be_nat_leading_zeros((k - 1) as nat, s);
            assert(zero_bytes((k - 1) as nat) + s =~= zero_bytes((k - 1) as nat));
        }
    } else {
        let t = zero_bytes(k) + s;
        let s0 = s.subrange(0, s.len() - 1);
        assert(t.subrange(0, t.len() - 1) =~= zero_bytes(k) + s0);
        lemma_be_nat_leading_zeros(k, s0);
    }
}

/// Two big-endian strings of one length with one value are equal.
pub proof fn lemma_be_nat_injective(s: Seq<u8>, t: Seq<u8>)
    requires
        s.len() == t.len(),
        be_nat(s) == be_nat(t),
    ensures
        s == t,
    decreases s.len(),
{
    if s.len() > 0 {
        let n = s.len() - 1;
        let s0 = s.subrange(0, n);
        let t0 = t.subrange(0, n);
        lemma_be_nat_bounds(s0);
        lemma_be_nat_bounds(t0);
        let a = be_nat(s0);
        let b = be_nat(t0);
        let x = s[n] as int;
        let y = t[n] as int;
        assert(a * 256 + x == b * 256 + y);
        assert(a == b && x == y) by (nonlinear_arith)
            requires
                a * 256 + x == b * 256 + y,
                0 <= x < 256,
                0 <= y < 256,
                a >= 0,
                b >= 0,
        {
            if a < b {
                assert(a * 256 + 256 <= b * 256);
            } else if b < a {
                assert(b * 256 + 256 <= a * 256);
            }
        }
        lemma_be_nat_injective(s0, t0);
        assert(s =~= s0.push(s[n]));
        assert(t =~= t0.push(t[n]));
    } else {
        assert(s =~= t);
    }
}

/// The minimal bytes of a value below `256^k` (`k >= 1`) number at most `k`.
pub proof fn lemma_be_bytes_len(n: nat, k: nat)
    requires
        k >= 1,
        n < pow256(k),
    ensures
        be_bytes(n).len() <= k,
    decreases n,
{
    if n >= 256 {
        let k1 = (k - 1) as nat;
        if k1 == 0 {
            assert(pow256(1) == 256 * pow256(0));
        }
        assert(pow256(k) == 256 * pow256(k1));
        assert(n / 256 < pow256(k1)) by (nonlinear_arith)
            requires
                n < 256 * pow256(k1),
                n >= 0,
        ;
        lemma_be_bytes_len(n / 256, k1);
    }
}

/// Padding the minimal bytes of the value of `s` with zeros to the length of `s` gives `s`.
pub proof fn lemma_be_bytes_padded(s: Seq<u8>)
    requires
        s.len() >= 1,
    ensures
        be_bytes(be_nat(s) as nat).len() <= s.len(),
        zero_bytes((s.len() - be_bytes(be_nat(s) as nat).len()) as nat) + be_bytes(be_nat(s) as nat)
            == s,
{
    lemma_be_nat_bounds(s);
    let v = be_nat(s) as nat;
    lemma_be_bytes_len(v, s.len());
    lemma_be_bytes_value(v);
    let b = be_bytes(v);
    let p = zero_bytes((s.len() - b.len()) as nat) + b;
    lemma_be_nat_leading_zeros((s.len() - b.len()) as nat, b);
    lemma_be_nat_injective(p, s);
}

/// Writing an integer as a sign and big-endian bytes and reading it back gives the
/// integer: `from_bytes_be(to_bytes_be(v)) == v`.
pub proof fn law_bytes_round_trip(v: int)
    ensures
        signed_be_value(sign_of(v), be_bytes(abs(v) as nat)) == v,
{
    lemma_be_bytes_value(abs(v) as nat);
}

/// Products of congruent factors are congruent.
pub proof fn lemma_cong_mul(a: int, a2: int, b: int, b2: int, m: int)
    requires
        m > 0,
        a % m == a2 % m,
        b % m == b2 % m,
    ensures
        (a * b) % m == (a2 * b2) % m,
{
    vstd::arithmetic::div_mod::lemma_mul_mod_noop(a, b, m);
    vstd::arithmetic::div_mod::lemma_mul_mod_noop(a2, b2, m);
}

/// Sums of congruent terms are congruent.
pub proof fn lemma_cong_add(a: int, a2: int, b: int, b2: int, m: int)
    requires
        m > 0,
        a % m == a2 % m,
        b % m == b2 % m,
    ensures
        (a + b) % m == (a2 + b2) % m,
{
    vstd::arithmetic::div_mod::lemma_add_mod_noop(a, b, m);
    vstd::arithmetic::div_mod::lemma_add_mod_noop(a2, b2, m);
}

/// The sign of a number, as `num_bigint` reports it.
#[derive(Clone, Copy, Debug, PartialEq, Eq, Structural)]
pub enum Sign {
    Minus,
    NoSign,
    Plus,
}

/// An arbitrary-precision signed integer.
pub struct Integer {
    bytes: Vec<u8>,
}

impl View for Integer {
    type V = int;

    closed spec fn view(&self) -> int {
        twos_le_value(self.bytes@)
    }
}

impl DeepView for Integer {
    type V = int;

    open spec fn deep_view(&self) -> int {
        self@
    }
}

impl Clone for Integer {
    fn clone(&self) -> (r: Self)
        ensures
            r@ == self@,
    {
        Integer { bytes: self.bytes.clone() }
    }
}

/// `num_bigint`: `BigInt::from(i64)`; the value is `v`.
#[verifier::external_body]
pub(crate) fn big_from_i64(v: i64) -> (r: Integer)
    ensures
        r@ == v as int,
{
    Integer { bytes: num_bigint::BigInt::from(v).to_signed_bytes_le() }
}

/// `num_bigint`: `BigInt::from(u64)`; the value is `v`.
#[verifier::external_body]
pub(crate) fn big_from_u64(v: u64) -> (r: Integer)
    ensures
        r@ == v as int,
{
    Integer { bytes: num_bigint::BigInt::from(v).to_signed_bytes_le() }
}

/// `num_bigint`: `Add` on two `BigInt`s; the value is the exact sum.
#[verifier::external_body]
pub(crate) fn big_add(a: &Integer, b: &Integer) -> (r: Integer)
    ensures
        r@ == a@ + b@,
{
    let x = num_bigint::BigInt::from_signed_bytes_le(&a.bytes);
    let y = num_bigint::BigInt::from_signed_bytes_le(&b.bytes);
    Integer { bytes: (x + y).to_signed_bytes_le() }
}

/// `num_bigint`: `Sub` on two `BigInt`s; the value is the exact difference.
#[verifier::external_body]
pub(crate) fn big_sub(a: &Integer, b: &Integer) -> (r: Integer)
    ensures
        r@ == a@ - b@,
{
    let x = num_bigint::BigInt::from_signed_bytes_le(&a.bytes);
    let y = num_bigint::BigInt::from_signed_bytes_le(&b.bytes);
    Integer { bytes: (x - y).to_signed_bytes_le() }
}

/// `num_bigint`: `Mul` on two `BigInt`s; the value is the exact product.
#[verifier::external_body]
pub(crate) fn big_mul(a: &Integer, b: &Integer) -> (r: Integer)
    ensures
        r@ == a@ * b@,
{
    let x = num_bigint::BigInt::from_signed_bytes_le(&a.bytes);
    let y = num_bigint::BigInt::from_signed_bytes_le(&b.bytes);
    Integer { bytes: (x * y).to_signed_bytes_le() }
}

/// `num_bigint`: `Div` on two `BigInt`s, which rounds toward zero; it panics on a zero divisor.
#[verifier::external_body]
pub(crate) fn big_div(a: &Integer, b: &Integer) -> (r: Integer)
    requires
        b@ != 0,
    ensures
        r@ == trunc_div(a@, b@),
{
    let x = num_bigint::BigInt::from_signed_bytes_le(&a.bytes);
    let y = num_bigint::BigInt::from_signed_bytes_le(&b.bytes);
    Integer { bytes: (x / y).to_signed_bytes_le() }
}

/// `num_bigint`: `Rem` on two `BigInt`s, whose result has the sign of the dividend; it panics
/// on a zero divisor.
#[verifier::external_body]
pub(crate) fn big_rem(a: &Integer, b: &Integer) -> (r: Integer)
    requires
        b@ != 0,
    ensures
        r@ == trunc_rem(a@, b@),
{
    let x = num_bigint::BigInt::from_signed_bytes_le(&a.bytes);
    let y = num_bigint::BigInt::from_signed_bytes_le(&b.bytes);
    Integer { bytes: (x % y).to_signed_bytes_le() }
}

/// `num_integer::Integer::mod_floor` on `BigInt`: the remainder with the sign of the
/// modulus; it panics on a zero modulus.
#[verifier::external_body]
pub(crate) fn big_mod_floor(a: &Integer, m: &Integer) -> (r: Integer)
    requires
        m@ != 0,
    ensures
        r@ == floor_mod(a@, m@),
{
    let x = num_bigint::BigInt::from_signed_bytes_le(&a.bytes);
    let y = num_bigint::BigInt::from_signed_bytes_le(&m.bytes);
    Integer { bytes: num_integer::Integer::mod_floor(&x, &y).to_signed_bytes_le() }
}

/// `num_bigint`: `BigInt::modpow`, `base^exp` reduced like `mod_floor`; it panics on a
/// negative exponent or a zero modulus.
#[verifier::external_body]
pub(crate) fn big_modpow(base: &Integer, exp: &Integer, m: &Integer) -> (r: Integer)
    requires
        exp@ >= 0,
        m@ != 0,
    ensures
        r@ == floor_mod(pow(base@, exp@ as nat), m@),
{
    let x = num_bigint::BigInt::from_signed_bytes_le(&base.bytes);
    let e = num_bigint::BigInt::from_signed_bytes_le(&exp.bytes);
    let y = num_bigint::BigInt::from_signed_bytes_le(&m.bytes);
    Integer { bytes: x.modpow(&e, &y).to_signed_bytes_le() }
}

/// `num_bigint`: `BigInt::pow` with a `u32` exponent; the value is `base^exp`.
#[verifier::external_body]
pub(crate) fn big_pow(base: &Integer, exp: u32) -> (r: Integer)
    ensures
        r@ == pow(base@, exp as nat),
{
    let x = num_bigint::BigInt::from_signed_bytes_le(&base.bytes);
    Integer { bytes: x.pow(exp).to_signed_bytes_le() }
}

/// `num_bigint`: `PartialOrd::lt` on two `BigInt`s, which orders by value.
#[verifier::external_body]
pub(crate) fn big_lt(a: &Integer, b: &Integer) -> (r: bool)
    ensures
        r == (a@ < b@),
{
    num_bigint::BigInt::from_signed_bytes_le(&a.bytes) < num_bigint::BigInt::from_signed_bytes_le(
        &b.bytes,
    )
}

/// `num_bigint`: `PartialEq::eq` on two `BigInt`s, which compares values.
#[verifier::external_body]
pub(crate) fn big_eq(a: &Integer, b: &Integer) -> (r: bool)
    ensures
        r == (a@ == b@),
{
    num_bigint::BigInt::from_signed_bytes_le(&a.bytes) == num_bigint::BigInt::from_signed_bytes_le(
        &b.bytes,
    )
}

/// `num_bigint`: `BigInt::bits`, the number of bits of the magnitude.
#[verifier::external_body]
pub(crate) fn big_bits(a: &Integer) -> (r: u64)
    ensures
        r as int == bit_len(abs(a@)),
{
    num_bigint::BigInt::from_signed_bytes_le(&a.bytes).bits()
}

/// `num_bigint`: `BigInt::to_bytes_be`, the sign and the minimal big-endian bytes of the
/// magnitude (one zero byte for zero).
#[verifier::external_body]
pub(crate) fn big_to_bytes_be(a: &Integer) -> (r: (Sign, Vec<u8>))
    ensures
        r.0 == sign_of(a@),
        r.1@ == be_bytes(abs(a@) as nat),
{
    let (sign, bytes) = num_bigint::BigInt::from_signed_bytes_le(&a.bytes).to_bytes_be();
    let s = match sign {
        num_bigint::Sign::Minus => Sign::Minus,
        num_bigint::Sign::NoSign => Sign::NoSign,
        num_bigint::Sign::Plus => Sign::Plus,
    };
    (s, bytes)
}

/// `num_bigint`: `BigInt::from_bytes_be`, the big-endian magnitude with the given sign (zero
/// for `NoSign`).
#[verifier::external_body]
pub(crate) fn big_from_bytes_be(sign: Sign, bytes: &[u8]) -> (r: Integer)
    ensures
        r@ == signed_be_value(sign, bytes@),
{
    let s = match sign {
        Sign::Minus => num_bigint::Sign::Minus,
        Sign::NoSign => num_bigint::Sign::NoSign,
        Sign::Plus => num_bigint::Sign::Plus,
    };
    Integer { bytes: num_bigint::BigInt::from_bytes_be(s, bytes).to_signed_bytes_le() }
}

/// `num_bigint`: `BigInt::to_str_radix`, lowercase digits with a leading `-` for negative
/// values; it panics unless `2 <= radix <= 36`.
#[verifier::external_body]
pub(crate) fn big_to_str_radix(a: &Integer, radix: u32) -> (r: String)
    requires
        2 <= radix <= 36,
    ensures
        r@ == radix_string(a@, radix as nat),
{
    num_bigint::BigInt::from_signed_bytes_le(&a.bytes).to_str_radix(radix)
}

/// `num_bigint`: `BigInt::parse_bytes` on the UTF-8 bytes of `s`; `None` where it rejects
/// the text. It panics unless `2 <= radix <= 36`.
#[verifier::external_body]
pub(crate) fn big_parse_radix(s: &str, radix: u32) -> (r: Option<Integer>)
    requires
        2 <= radix <= 36,
    ensures
        r is Some <==> parsed_radix(s@, radix) is Some,
        r matches Some(v) ==> v@ == parsed_radix(s@, radix)->0,
{
    num_bigint::BigInt::parse_bytes(s.as_bytes(), radix).map(
        |v| Integer { bytes: v.to_signed_bytes_le() },
    )
}

impl Integer {
    /// Zero.
    pub fn zero() -> (r: Integer)
        ensures
            r@ == 0,
    {
        big_from_i64(0)
    }

    /// One.
    pub fn one() -> (r: Integer)
        ensures
            r@ == 1,
    {
        big_from_i64(1)
    }

    /// The integer with the value of `v`.
    pub fn from_i64(v: i64) -> (r: Integer)
        ensures
            r@ == v as int,
    {
        big_from_i64(v)
    }

    /// The integer with the value of `v`.
    pub fn from_u64(v: u64) -> (r: Integer)
        ensures
            r@ == v as int,
    {
        big_from_u64(v)
    }

    /// Whether the two integers have the same value.
    pub fn equals(&self, other: &Integer) -> (r: bool)
        ensures
            r == (self@ == other@),
    {
        big_eq(self, other)
    }

    /// Whether `self < other`.
    pub fn less_than(&self, other: &Integer) -> (r: bool)
        ensures
            r == (self@ < other@),
    {
        big_lt(self, other)
    }

    /// Whether the value is zero.
    pub fn is_zero(&self) -> (r: bool)
        ensures
            r == (self@ == 0),
    {
        let z = Integer::zero();
        big_eq(self, &z)
    }

    /// Whether the value is one.
    pub fn is_one(&self) -> (r: bool)
        ensures
            r == (self@ == 1),
    {
        let o = Integer::one();
        big_eq(self, &o)
    }

    /// Whether the value is negative.
    pub fn is_negative(&self) -> (r: bool)
        ensures
            r == (self@ < 0),
    {
        let z = Integer::zero();
        big_lt(self, &z)
    }

    /// The absolute value.
    pub fn abs(&self) -> (r: Integer)
        ensures
            r@ == abs(self@),
    {
        if self.is_negative() {
            let z = Integer::zero();
            big_sub(&z, self)
        } else {
            self.clone()
        }
    }

    /// `self^exp`.
    pub fn pow_u32(&self, exp: u32) -> (r: Integer)
        ensures
            r@ == pow(self@, exp as nat),
    {
        big_pow(self, exp)
    }

    /// `self^exp` reduced into the range of the modulus' sign (like `mod_floor`).
    pub fn modpow(&self, exp: &Integer, modulus: &Integer) -> (r: Integer)
        requires
            exp@ >= 0,
            modulus@ != 0,
        ensures
            r@ == floor_mod(pow(self@, exp@ as nat), modulus@),
    {
        big_modpow(self, exp, modulus)
    }

    /// Parses text in base `radix`, or fails with `"Failed to parse"`.
    pub fn from_str_radix(s: &str, radix: u32) -> (res: Result<Integer, String>)
        requires
            2 <= radix <= 36,
        ensures
            res is Ok <==> parsed_radix(s@, radix) is Some,
            res matches Ok(v) ==> v@ == parsed_radix(s@, radix)->0,
            res matches Err(e) ==> e@ == "Failed to parse"@,
    {
        match big_parse_radix(s, radix) {
            Some(v) => Ok(v),
            None => {
                proof {
                    reveal_strlit("Failed to parse");
                }
                Err("Failed to parse".to_owned())
            },
        }
    }

    /// The text of the value in base `radix`.
    pub fn to_string_radix(&self, radix: u32) -> (r: String)
        requires
            2 <= radix <= 36,
        ensures
            r@ == radix_string(self@, radix as nat),
    {
        big_to_str_radix(self, radix)
    }

    /// The integer with the given sign and big-endian magnitude.
    pub fn from_bytes_be(sign: Sign, bytes: &[u8]) -> (r: Integer)
        ensures
            r@ == signed_be_value(sign, bytes@),
    {
        big_from_bytes_be(sign, bytes)
    }

    /// The sign and the minimal big-endian bytes of the magnitude.
    pub fn to_bytes_be(&self) -> (r: (Sign, Vec<u8>))
        ensures
            r.0 == sign_of(self@),
            r.1@ == be_bytes(abs(self@) as nat),
    {
        big_to_bytes_be(self)
    }

    /// `self + other`.
    pub fn plus(&self, other: &Integer) -> (r: Integer)
        ensures
            r@ == self@ + other@,
    {
        big_add(self, other)
    }

    /// `self - other`.
    pub fn minus(&self, other: &Integer) -> (r: Integer)
        ensures
            r@ == self@ - other@,
    {
        big_sub(self, other)
    }

    /// `self * other`.
    pub fn times(&self, other: &Integer) -> (r: Integer)
        ensures
            r@ == self@ * other@,
    {
        big_mul(self, other)
    }

    /// `self / other`, rounded toward zero.
    pub fn quotient(&self, other: &Integer) -> (r: Integer)
        requires
            other@ != 0,
        ensures
            r@ == trunc_div(self@, other@),
    {
        big_div(self, other)
    }

    /// `self % other`, with the sign of `self`.
    pub fn remainder(&self, other: &Integer) -> (r: Integer)
        requires
            other@ != 0,
        ensures
            r@ == trunc_rem(self@, other@),
    {
        big_rem(self, other)
    }

    /// `-self`.
    pub fn negated(&self) -> (r: Integer)
        ensures
            r@ == -self@,
    {
        let z = Integer::zero();
        big_sub(&z, self)
    }

    /// The decimal text of the value.
    pub fn to_decimal(&self) -> (r: String)
        ensures
            r@ == decimal_string(self@),
    {
        big_to_str_radix(self, 10)
    }

    /// The same as [`Integer::modpow`].
    pub fn pow_mod(&self, exp: &Integer, modulus: &Integer) -> (r: Integer)
        requires
            exp@ >= 0,
            modulus@ != 0,
        ensures
            r@ == floor_mod(pow(self@, exp@ as nat), modulus@),
    {
        self.modpow(exp, modulus)
    }
}

} // verus!

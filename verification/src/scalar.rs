//! Integers modulo the order of the secp256k1 group, the scalars of that curve. The
//! arithmetic is done by `generic_ec`; each operation states its result modulo the order.

use vstd::prelude::*;
use crate::integer::{be_nat, lemma_be_nat_bounds};

verus! {

/// The order of the secp256k1 group, a prime.
pub open spec fn group_order() -> int {
    115792089237316195423570985008687907852837564279074904382605163141518161494337int
}

/// A secp256k1 scalar: an integer modulo [`group_order`], held as its 32 big-endian bytes.
#[derive(PartialEq, Eq, PartialOrd, Ord, Debug)]
pub struct Scalar {
    pub(crate) bytes: Vec<u8>,
}

impl Scalar {
    /// Every scalar holds 32 bytes whose value is below the group order.
    #[verifier::type_invariant]
    spec fn valid(&self) -> bool {
        self.bytes@.len() == 32 && be_nat(self.bytes@) < group_order()
    }
}

impl View for Scalar {
    type V = int;

    closed spec fn view(&self) -> int {
        be_nat(self.bytes@) % group_order()
    }
}

/// The inverse of `s` modulo the group order.
pub open spec fn inverse_mod_order(s: int) -> int {
    choose|v: int| 0 <= v < group_order() && #[trigger] ((s * v) % group_order()) == 1
}

/// An inverse modulo the group order is unique: `v == v (s w) == (v s) w == w`.
pub proof fn lemma_inverse_unique(s: int, v: int)
    requires
        0 <= v < group_order(),
        (s * v) % group_order() == 1,
    ensures
        inverse_mod_order(s) == v,
{
    let n = group_order();
    assert((s * v) % n == 1);
    let w = inverse_mod_order(s);
    assert(0 <= w < n && (s * w) % n == 1);
    vstd::arithmetic::div_mod::lemma_mul_mod_noop_right(v, s * w, n);
    vstd::arithmetic::div_mod::lemma_mul_mod_noop_right(w, s * v, n);
    vstd::arithmetic::div_mod::lemma_small_mod(v as nat, n as nat);
    vstd::arithmetic::div_mod::lemma_small_mod(w as nat, n as nat);
    assert(v * (s * w) == w * (s * v)) by (nonlinear_arith);
    assert(v * 1 == v && w * 1 == w);
}

/// A scalar lies in `[0, group_order())`.
pub proof fn lemma_scalar_range(s: Scalar)
    ensures
        0 <= s@ < group_order(),
{
    vstd::arithmetic::div_mod::lemma_mod_bound(be_nat(s.bytes@), group_order());
}

impl Clone for Scalar {
    fn clone(&self) -> (r: Self)
        ensures
            r@ == self@,
    {
        proof {
            use_type_invariant(self);
        }
        Scalar { bytes: self.bytes.clone() }
    }
}

/// `generic_ec`: `Scalar::<Secp256k1>::from(u64)`; the value is `v`.
#[verifier::external_body]
fn scalar_from_u64(v: u64) -> (r: Scalar)
    ensures
        r@ == v as int % group_order(),
{
    let s = generic_ec::Scalar::<generic_ec::curves::Secp256k1>::from(v);
    Scalar { bytes: s.to_be_bytes().as_bytes().to_vec() }
}

/// `generic_ec`: `Add` on two secp256k1 scalars, the sum modulo the group order.
#[verifier::external_body]
fn scalar_add(a: &Scalar, b: &Scalar) -> (r: Scalar)
    ensures
        r@ == (a@ + b@) % group_order(),
{
    let x = generic_ec::Scalar::<generic_ec::curves::Secp256k1>::from_be_bytes(&a.bytes).expect("valid scalar");
    let y = generic_ec::Scalar::<generic_ec::curves::Secp256k1>::from_be_bytes(&b.bytes).expect("valid scalar");
    Scalar { bytes: (x + y).to_be_bytes().as_bytes().to_vec() }
}

/// `generic_ec`: `Mul` on two secp256k1 scalars, the product modulo the group order.
#[verifier::external_body]
fn scalar_mul(a: &Scalar, b: &Scalar) -> (r: Scalar)
    ensures
        r@ == (a@ * b@) % group_order(),
{
    let x = generic_ec::Scalar::<generic_ec::curves::Secp256k1>::from_be_bytes(&a.bytes).expect("valid scalar");
    let y = generic_ec::Scalar::<generic_ec::curves::Secp256k1>::from_be_bytes(&b.bytes).expect("valid scalar");
    Scalar { bytes: (x * y).to_be_bytes().as_bytes().to_vec() }
}

/// `generic_ec`: `Neg` on a secp256k1 scalar, the additive inverse modulo the group order.
#[verifier::external_body]
fn scalar_neg(a: &Scalar) -> (r: Scalar)
    ensures
        r@ == (group_order() - a@) % group_order(),
{
    let x = generic_ec::Scalar::<generic_ec::curves::Secp256k1>::from_be_bytes(&a.bytes).expect("valid scalar");
    Scalar { bytes: (-x).to_be_bytes().as_bytes().to_vec() }
}

/// `generic_ec`: `Scalar::invert`, the multiplicative inverse modulo the group order, which
/// exists for every scalar but zero.
#[verifier::external_body]
fn scalar_invert(a: &Scalar) -> (r: Option<Scalar>)
    ensures
        r is Some <==> a@ != 0,
        r matches Some(v) ==> (a@ * v@) % group_order() == 1,
{
    let x = generic_ec::Scalar::<generic_ec::curves::Secp256k1>::from_be_bytes(&a.bytes).expect("valid scalar");
    x.invert().map(|v| Scalar { bytes: v.to_be_bytes().as_bytes().to_vec() })
}

/// `generic_ec`: `PartialEq` on two secp256k1 scalars, which compares their values.
#[verifier::external_body]
fn scalar_eq(a: &Scalar, b: &Scalar) -> (r: bool)
    ensures
        r == (a@ == b@),
{
    let x = generic_ec::Scalar::<generic_ec::curves::Secp256k1>::from_be_bytes(&a.bytes).expect("valid scalar");
    let y = generic_ec::Scalar::<generic_ec::curves::Secp256k1>::from_be_bytes(&b.bytes).expect("valid scalar");
    x == y
}

/// `generic_ec`: `Scalar::from_be_bytes` on secp256k1: at most 32 big-endian bytes (padded
/// with zeros in front), refused when longer or when their value is not below the group order.
#[verifier::external_body]
fn scalar_from_be_bytes(bytes: &[u8]) -> (r: Option<Scalar>)
    ensures
        r is Some <==> (bytes@.len() <= 32 && be_nat(bytes@) < group_order()),
        r matches Some(v) ==> v@ == be_nat(bytes@),
{
    let x = generic_ec::Scalar::<generic_ec::curves::Secp256k1>::from_be_bytes(bytes);
    x.ok().map(|v| Scalar { bytes: v.to_be_bytes().as_bytes().to_vec() })
}

/// `generic_ec`: `Scalar::from_be_bytes_mod_order` on secp256k1, the big-endian value of the
/// bytes reduced modulo the group order.
#[verifier::external_body]
fn scalar_from_be_bytes_mod_order(bytes: &[u8]) -> (r: Scalar)
    ensures
        r@ == be_nat(bytes@) % group_order(),
{
    let v = generic_ec::Scalar::<generic_ec::curves::Secp256k1>::from_be_bytes_mod_order(bytes);
    Scalar { bytes: v.to_be_bytes().as_bytes().to_vec() }
}

/// `generic_ec`: `<` on two secp256k1 scalars, which compares their big-endian encodings of
/// one length, hence their values.
#[verifier::external_body]
fn scalar_lt(a: &Scalar, b: &Scalar) -> (r: bool)
    ensures
        r == (a@ < b@),
{
    let x = generic_ec::Scalar::<generic_ec::curves::Secp256k1>::from_be_bytes(&a.bytes).expect("valid scalar");
    let y = generic_ec::Scalar::<generic_ec::curves::Secp256k1>::from_be_bytes(&b.bytes).expect("valid scalar");
    x < y
}

impl Scalar {
    /// The scalar with the big-endian value of `bytes`, when there are at most 32 of them and
    /// the value is below the group order.
    pub fn from_be_bytes(bytes: &[u8]) -> (r: Option<Scalar>)
        ensures
            r is Some <==> bytes@.len() <= 32 && be_nat(bytes@) < group_order(),
            r matches Some(v) ==> v@ == be_nat(bytes@),
    {
        scalar_from_be_bytes(bytes)
    }

    /// The big-endian value of `bytes` reduced modulo the group order.
    pub fn from_be_bytes_mod_order(bytes: &[u8]) -> (r: Scalar)
        ensures
            r@ == be_nat(bytes@) % group_order(),
    {
        scalar_from_be_bytes_mod_order(bytes)
    }

    /// The 32 big-endian bytes of the scalar.
    pub fn to_be_bytes(&self) -> (r: Vec<u8>)
        ensures
            r@.len() == 32,
            be_nat(r@) == self@,
    {
        proof {
            use_type_invariant(self);
            lemma_be_nat_bounds(self.bytes@);
            vstd::arithmetic::div_mod::lemma_small_mod(be_nat(self.bytes@) as nat, group_order() as nat);
        }
        let r = self.bytes.clone();
        proof {
            assert(r@ =~= self.bytes@);
        }
        r
    }

    /// Whether the value of `self` is below that of `other`.
    pub fn less_than(&self, other: &Scalar) -> (r: bool)
        ensures
            r == (self@ < other@),
    {
        scalar_lt(self, other)
    }

    /// The scalar 0.
    pub fn zero() -> (r: Scalar)
        ensures
            r@ == 0,
    {
        scalar_from_u64(0)
    }

    /// The scalar 1.
    pub fn one() -> (r: Scalar)
        ensures
            r@ == 1,
    {
        scalar_from_u64(1)
    }

    /// The scalar with the value `v`.
    pub fn from_u64(v: u64) -> (r: Scalar)
        ensures
            r@ == v,
    {
        scalar_from_u64(v)
    }

    /// `self + other` modulo the group order.
    pub fn plus(&self, other: &Scalar) -> (r: Scalar)
        ensures
            r@ == (self@ + other@) % group_order(),
    {
        scalar_add(self, other)
    }

    /// `self * other` modulo the group order.
    pub fn times(&self, other: &Scalar) -> (r: Scalar)
        ensures
            r@ == (self@ * other@) % group_order(),
    {
        scalar_mul(self, other)
    }

    /// `-self` modulo the group order.
    pub fn negated(&self) -> (r: Scalar)
        ensures
            r@ == (group_order() - self@) % group_order(),
    {
        scalar_neg(self)
    }

    /// The inverse modulo the group order; `None` for zero.
    pub fn invert(&self) -> (r: Option<Scalar>)
        ensures
            r is Some <==> self@ != 0,
            r matches Some(v) ==> (self@ * v@) % group_order() == 1,
    {
        scalar_invert(self)
    }

    /// Whether the two scalars are equal.
    pub fn equals(&self, other: &Scalar) -> (r: bool)
        ensures
            r == (self@ == other@),
    {
        scalar_eq(self, other)
    }

    /// Whether the scalar is zero.
    pub fn is_zero(&self) -> (r: bool)
        ensures
            r == (self@ == 0),
    {
        let z = Scalar::zero();
        scalar_eq(self, &z)
    }
}

/// A scalar other than zero.
#[derive(PartialEq, Eq, PartialOrd, Ord, Debug)]
pub struct NonZeroScalar {
    inner: Scalar,
}

impl NonZeroScalar {
    /// The wrapped scalar is not zero.
    #[verifier::type_invariant]
    spec fn nonzero(&self) -> bool {
        self.inner@ != 0
    }
}

impl View for NonZeroScalar {
    type V = int;

    closed spec fn view(&self) -> int {
        self.inner@
    }
}

impl NonZeroScalar {
    /// The scalar, when it is not zero.
    pub fn from_scalar(s: Scalar) -> (r: Option<NonZeroScalar>)
        ensures
            r is Some <==> s@ != 0,
            r matches Some(v) ==> v@ == s@,
    {
        if s.is_zero() {
            None
        } else {
            Some(NonZeroScalar { inner: s })
        }
    }

    /// The scalar, which is not zero.
    pub fn as_scalar(&self) -> (r: &Scalar)
        ensures
            r@ == self@,
            r@ != 0,
    {
        proof {
            use_type_invariant(self);
        }
        &self.inner
    }
}

impl Clone for NonZeroScalar {
    fn clone(&self) -> (r: Self)
        ensures
            r@ == self@,
    {
        proof {
            use_type_invariant(self);
        }
        NonZeroScalar { inner: self.inner.clone() }
    }
}

} // verus!

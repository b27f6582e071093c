//! Points of the secp256k1 curve, held as their compressed encodings. The group operations
//! are done by `generic_ec`; each names its result.

use vstd::prelude::*;
use crate::scalar::{Scalar, group_order};
use generic_ec::coords::AlwaysHasAffineX;

verus! {

/// The encoding of `k` times the generator of the group.
pub uninterp spec fn generator_times(k: int) -> Seq<u8>;

/// The encoding of `k` times the point encoded by `p`.
pub uninterp spec fn point_times(p: Seq<u8>, k: int) -> Seq<u8>;

/// The encoding of the sum of the points encoded by `a` and `b`.
pub uninterp spec fn point_sum(a: Seq<u8>, b: Seq<u8>) -> Seq<u8>;

/// Whether `p` encodes the identity point (the point at infinity).
pub uninterp spec fn is_identity(p: Seq<u8>) -> bool;

/// The affine x-coordinate of the point encoded by `p`, reduced modulo the group order.
pub uninterp spec fn x_coordinate_scalar(p: Seq<u8>) -> int;

/// The compressed encoding of the point that `bytes` encode, when they encode one.
pub uninterp spec fn decoded_point(bytes: Seq<u8>) -> Option<Seq<u8>>;

/// A point of the secp256k1 curve, held as its compressed encoding.
#[derive(PartialEq, Eq, Debug)]
pub struct Point {
    bytes: Vec<u8>,
}

impl View for Point {
    type V = Seq<u8>;

    closed spec fn view(&self) -> Seq<u8> {
        self.bytes@
    }
}

/// Whether `p` encodes a multiple of the generator: `v G` for some `0 <= v <` the group order.
pub open spec fn in_group(p: Seq<u8>) -> bool {
    exists|v: int| 0 <= v < group_order() && #[trigger] generator_times(v) == p
}

impl Point {
    /// Every point is a multiple of the generator: the group of secp256k1 has prime order and
    /// `generic_ec` holds only torsion-free points.
    #[verifier::type_invariant]
    pub open spec fn wf(&self) -> bool {
        in_group(self@)
    }
}

impl Clone for Point {
    fn clone(&self) -> (r: Self)
        ensures
            r@ == self@,
    {
        proof {
            use_type_invariant(self);
        }
        let bytes = self.bytes.clone();
        proof {
            assert(bytes@ =~= self.bytes@);
        }
        Point { bytes }
    }
}

/// The compressed encoding of the identity point: 33 zero bytes.
pub open spec fn identity_encoding() -> Seq<u8> {
    Seq::new(33, |i: int| 0u8)
}

/// `generic_ec`: `Point::zero()` on secp256k1, the identity, whose compressed encoding is 33
/// zero bytes; it is zero times the generator.
#[verifier::external_body]
fn ec_point_zero() -> (r: Point)
    ensures
        r@ == identity_encoding(),
        r@ == generator_times(0),
{
    let p = generic_ec::Point::<generic_ec::curves::Secp256k1>::zero();
    Point { bytes: p.to_bytes(true).as_bytes().to_vec() }
}

/// `generic_ec`: `Point::generator() * k` on secp256k1.
#[verifier::external_body]
fn ec_generator_mul(k: &Scalar) -> (r: Point)
    ensures
        r@ == generator_times(k@),
{
    let k = generic_ec::Scalar::<generic_ec::curves::Secp256k1>::from_be_bytes(&k.bytes).expect("valid scalar");
    let p = generic_ec::Point::<generic_ec::curves::Secp256k1>::generator() * k;
    Point { bytes: p.to_bytes(true).as_bytes().to_vec() }
}

/// `generic_ec`: `Point * Scalar` on secp256k1. Scalar multiplication in the group generated
/// by `G`: `(v G) k == (v k) G`, the scalars taken modulo the group order.
#[verifier::external_body]
fn ec_point_mul(p: &Point, k: &Scalar) -> (r: Point)
    ensures
        r@ == point_times(p@, k@),
        forall|v: int|
            0 <= v < group_order() && #[trigger] generator_times(v) == p@ ==> r@ == generator_times(
                (v * k@) % group_order(),
            ),
{
    let x = generic_ec::Point::<generic_ec::curves::Secp256k1>::from_bytes(&p.bytes).expect("valid point");
    let k = generic_ec::Scalar::<generic_ec::curves::Secp256k1>::from_be_bytes(&k.bytes).expect("valid scalar");
    Point { bytes: (x * k).to_bytes(true).as_bytes().to_vec() }
}

/// `generic_ec`: `Point + Point` on secp256k1, the group operation: `v G + w G == (v + w) G`,
/// the scalars taken modulo the group order.
#[verifier::external_body]
fn ec_point_add(a: &Point, b: &Point) -> (r: Point)
    ensures
        r@ == point_sum(a@, b@),
        forall|v: int, w: int|
            0 <= v < group_order() && 0 <= w < group_order() && #[trigger] generator_times(v) == a@
                && #[trigger] generator_times(w) == b@ ==> r@ == generator_times((v + w) % group_order()),
{
    let x = generic_ec::Point::<generic_ec::curves::Secp256k1>::from_bytes(&a.bytes).expect("valid point");
    let y = generic_ec::Point::<generic_ec::curves::Secp256k1>::from_bytes(&b.bytes).expect("valid point");
    Point { bytes: (x + y).to_bytes(true).as_bytes().to_vec() }
}

/// `generic_ec`: `Point::is_zero` on secp256k1, whether the point is the identity.
#[verifier::external_body]
fn ec_point_is_zero(p: &Point) -> (r: bool)
    ensures
        r == is_identity(p@),
{
    let x = generic_ec::Point::<generic_ec::curves::Secp256k1>::from_bytes(&p.bytes).expect("valid point");
    x.is_zero()
}

/// `generic_ec`: `NonZero<Point>::x().to_scalar()` on secp256k1, the x-coordinate of a
/// point other than the identity, reduced modulo the group order.
#[verifier::external_body]
fn ec_point_x(p: &Point) -> (r: Scalar)
    requires
        !is_identity(p@),
    ensures
        r@ == x_coordinate_scalar(p@),
{
    let x = generic_ec::Point::<generic_ec::curves::Secp256k1>::from_bytes(&p.bytes).expect("valid point");
    let x = generic_ec::NonZero::from_point(x).expect("non-zero point");
    Scalar { bytes: x.x().to_scalar().to_be_bytes().as_bytes().to_vec() }
}

/// `generic_ec`: `Point::to_bytes(false)` on secp256k1 for a point other than the identity:
/// the 65-byte uncompressed encoding `04 || x || y`, which `Point::from_bytes` decodes back to
/// the point.
#[verifier::external_body]
fn ec_point_to_uncompressed(p: &Point) -> (r: Vec<u8>)
    requires
        !is_identity(p@),
    ensures
        r@.len() == 65,
        r@[0] == 4u8,
        decoded_point(r@) == Some(p@),
{
    let x = generic_ec::Point::<generic_ec::curves::Secp256k1>::from_bytes(&p.bytes).expect("valid point");
    x.to_bytes(false).as_bytes().to_vec()
}

/// `generic_ec`: `Point::from_bytes` on secp256k1, which accepts the compressed or the
/// uncompressed encoding of a point (or of the identity). It accepts only points that are
/// torsion-free, which on secp256k1 (a group of prime order) are the multiples of the
/// generator.
#[verifier::external_body]
fn ec_point_from_bytes(bytes: &[u8]) -> (r: Option<Point>)
    ensures
        (match r {
            Some(p) => Some(p@),
            None => None,
        }) == decoded_point(bytes@),
        r matches Some(p) ==> in_group(p@),
{
    let x = generic_ec::Point::<generic_ec::curves::Secp256k1>::from_bytes(bytes);
    x.ok().map(|p| Point { bytes: p.to_bytes(true).as_bytes().to_vec() })
}

impl Point {
    /// The identity point, zero times the generator.
    pub fn zero() -> (r: Point)
        ensures
            r@ == identity_encoding(),
            r@ == generator_times(0),
            in_group(r@),
    {
        ec_point_zero()
    }

    /// `k` times the generator of the group.
    pub fn generator_times(k: &Scalar) -> (r: Point)
        ensures
            r@ == generator_times(k@),
            in_group(r@),
    {
        proof {
            crate::scalar::lemma_scalar_range(*k);
        }
        ec_generator_mul(k)
    }

    /// `k` times this point; for `v G`, the point `(v k) G`.
    pub fn times(&self, k: &Scalar) -> (r: Point)
        ensures
            r@ == point_times(self@, k@),
            forall|v: int|
                0 <= v < group_order() && #[trigger] generator_times(v) == self@ ==> r@ == generator_times(
                    (v * k@) % group_order(),
                ),
            in_group(r@),
    {
        proof {
            use_type_invariant(self);
        }
        let r = ec_point_mul(self, k);
        proof {
            let v = choose|v: int| 0 <= v < group_order() && #[trigger] generator_times(v) == self@;
            assert(generator_times((v * k@) % group_order()) == r@);
        }
        r
    }

    /// The sum of the two points; for `v G` and `w G`, the point `(v + w) G`.
    pub fn plus(&self, other: &Point) -> (r: Point)
        ensures
            r@ == point_sum(self@, other@),
            forall|v: int, w: int|
                0 <= v < group_order() && 0 <= w < group_order() && #[trigger] generator_times(v) == self@
                    && #[trigger] generator_times(w) == other@ ==> r@ == generator_times((v + w) % group_order()),
            in_group(r@),
    {
        proof {
            use_type_invariant(self);
            use_type_invariant(other);
        }
        let r = ec_point_add(self, other);
        proof {
            let v = choose|v: int| 0 <= v < group_order() && #[trigger] generator_times(v) == self@;
            let w = choose|w: int| 0 <= w < group_order() && #[trigger] generator_times(w) == other@;
            assert(generator_times((v + w) % group_order()) == r@);
        }
        r
    }

    /// Whether this is the identity point.
    pub fn is_zero(&self) -> (r: bool)
        ensures
            r == is_identity(self@),
    {
        ec_point_is_zero(self)
    }

    /// The point that `bytes` encode, compressed or not; `None` when they encode none.
    pub fn from_bytes(bytes: &[u8]) -> (r: Option<Point>)
        ensures
            (match r {
                Some(p) => Some(p@),
                None => None,
            }) == decoded_point(bytes@),
            r matches Some(p) ==> in_group(p@),
    {
        ec_point_from_bytes(bytes)
    }

    /// Whether the two points are the same, by their encodings.
    pub fn equals(&self, other: &Point) -> (r: bool)
        ensures
            r == (self@ == other@),
    {
        if self.bytes.len() != other.bytes.len() {
            return false;
        }
        let mut k: usize = 0;
        while k < self.bytes.len()
            invariant
                self.bytes@.len() == other.bytes@.len(),
                k <= self.bytes@.len(),
                forall|t: int| 0 <= t < k ==> self.bytes@[t] == other.bytes@[t],
            decreases self.bytes.len() - k,
        {
            if self.bytes[k] != other.bytes[k] {
                return false;
            }
            k = k + 1;
        }
        proof {
            assert(self.bytes@ =~= other.bytes@);
        }
        true
    }

    /// The compressed encoding of the point.
    pub fn to_bytes(&self) -> (r: Vec<u8>)
        ensures
            r@ == self@,
    {
        let r = self.bytes.clone();
        proof {
            assert(r@ =~= self.bytes@);
        }
        r
    }
}

/// A point other than the identity.
#[derive(PartialEq, Eq, Debug)]
pub struct NonZeroPoint {
    inner: Point,
}

impl NonZeroPoint {
    /// The wrapped point is not the identity.
    #[verifier::type_invariant]
    spec fn nonzero(&self) -> bool {
        !is_identity(self.inner@)
    }
}

impl View for NonZeroPoint {
    type V = Seq<u8>;

    closed spec fn view(&self) -> Seq<u8> {
        self.inner@
    }
}

impl Clone for NonZeroPoint {
    fn clone(&self) -> (r: Self)
        ensures
            r@ == self@,
    {
        proof {
            use_type_invariant(self);
        }
        NonZeroPoint { inner: self.inner.clone() }
    }
}

impl NonZeroPoint {
    /// The point, when it is not the identity.
    pub fn from_point(p: Point) -> (r: Option<NonZeroPoint>)
        ensures
            r is Some <==> !is_identity(p@),
            r matches Some(v) ==> v@ == p@,
    {
        if p.is_zero() {
            None
        } else {
            Some(NonZeroPoint { inner: p })
        }
    }

    /// The point, which is not the identity.
    pub fn as_point(&self) -> (r: &Point)
        ensures
            r@ == self@,
            !is_identity(r@),
    {
        proof {
            use_type_invariant(self);
        }
        &self.inner
    }

    /// The 65-byte uncompressed encoding `04 || x || y` of the point.
    pub fn to_uncompressed(&self) -> (r: Vec<u8>)
        ensures
            r@.len() == 65,
            r@[0] == 4u8,
            decoded_point(r@) == Some(self@),
    {
        proof {
            use_type_invariant(self);
        }
        ec_point_to_uncompressed(&self.inner)
    }

    /// The x-coordinate of the point, reduced modulo the group order.
    pub fn x_scalar(&self) -> (r: Scalar)
        ensures
            r@ == x_coordinate_scalar(self@),
    {
        proof {
            use_type_invariant(self);
        }
        ec_point_x(&self.inner)
    }
}

} // verus!

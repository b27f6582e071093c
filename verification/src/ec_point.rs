//! An elliptic-curve point given by its coordinates and the parameters of its curve, and the
//! linear combination of such points on secp256k1.

use vstd::prelude::*;
use crate::integer::Integer;
use crate::error::{Error, ec_point_error};
use crate::integer::{
    Sign, abs, be_bytes, zero_bytes, lemma_be_bytes_padded, lemma_be_bytes_value,
    lemma_be_nat_bounds,
};
use crate::point::{
    Point, NonZeroPoint, decoded_point, identity_encoding, is_identity, point_sum, point_times,
};
use crate::scalar::{Scalar, group_order};
use crate::matrix::row_vals;

verus! {

/// Parameters defining an elliptic curve: the order `n`.
pub struct CurveParams {
    n: Integer,
}

/// A borrowed view of curve parameters.
pub struct CurveParamsRef<'a> {
    /// The order of the curve.
    pub n: &'a Integer,
}

/// A point on an elliptic curve: its coordinates and the parameters of its curve.
pub struct ECPoint {
    x: Integer,
    y: Integer,
    curve_params: CurveParams,
}

impl View for CurveParams {
    type V = int;

    closed spec fn view(&self) -> int {
        self.n@
    }
}

impl View for ECPoint {
    type V = (int, int, int);

    closed spec fn view(&self) -> (int, int, int) {
        (self.x@, self.y@, self.curve_params@)
    }
}

impl Clone for CurveParams {
    fn clone(&self) -> (r: Self)
        ensures
            r@ == self@,
    {
        CurveParams { n: self.n.clone() }
    }
}

impl Clone for ECPoint {
    fn clone(&self) -> (r: Self)
        ensures
            r@ == self@,
    {
        ECPoint { x: self.x.clone(), y: self.y.clone(), curve_params: self.curve_params.clone() }
    }
}

impl CurveParams {
    /// Creates curve parameters with the given order.
    pub fn new(n: Integer) -> (r: CurveParams)
        ensures
            r@ == n@,
    {
        CurveParams { n }
    }

    /// A borrowed view of the parameters.
    pub fn params(&self) -> (r: CurveParamsRef<'_>)
        ensures
            r.n@ == self@,
    {
        CurveParamsRef { n: &self.n }
    }
}

impl<'a> CurveParamsRef<'a> {
    /// The order of the curve.
    pub fn n(&self) -> (r: &'a Integer)
        ensures
            r@ == self.n@,
    {
        self.n
    }
}

impl ECPoint {
    /// Creates a point from its coordinates and curve parameters.
    pub fn new(x: Integer, y: Integer, curve_params: CurveParams) -> (r: ECPoint)
        ensures
            r@ == (x@, y@, curve_params@),
    {
        ECPoint { x, y, curve_params }
    }

    /// The coordinates of the point.
    pub fn coordinates(&self) -> (r: (&Integer, &Integer))
        ensures
            r.0@ == self@.0,
            r.1@ == self@.1,
    {
        (&self.x, &self.y)
    }

    /// The parameters of the point's curve.
    pub fn get_curve(&self) -> (r: &CurveParams)
        ensures
            r@ == self@.2,
    {
        &self.curve_params
    }

    /// Whether the two points have the same coordinates.
    pub fn equal(&self, other: &ECPoint) -> (r: bool)
        ensures
            r == (self@.0 == other@.0 && self@.1 == other@.1),
    {
        self.x.equals(&other.x) && self.y.equals(&other.y)
    }

    /// The linear combination of `points` with `scalars` on secp256k1: the sum of each scalar,
    /// reduced modulo the group order, times its point. The result keeps the curve
    /// parameters of the first point. Fails when the two slices differ in length or are
    /// empty, when a point's coordinates do not encode a point of the curve, and when the sum
    /// is the point at infinity, which has no coordinates.
    pub fn compute_linear_combination_point(scalars: &[Integer], points: &[ECPoint]) -> (res: Result<
        ECPoint,
        Error,
    >)
        ensures
            scalars@.len() != points@.len() ==> res is Err && ec_point_error(
                res->Err_0,
                "Mismatched scalars and points lengths"@,
            ),
            scalars@.len() == points@.len() && points@.len() == 0 ==> res is Err && ec_point_error(
                res->Err_0,
                "Empty points array"@,
            ),
            scalars@.len() == points@.len() && points@.len() > 0 && !all_on_curve(points@)
                ==> res is Err && ec_point_error(res->Err_0, "Invalid point"@),
            scalars@.len() == points@.len() && points@.len() > 0 && all_on_curve(points@) ==> {
                let sum = combination(row_vals(scalars@), points@, points@.len() as int);
                &&& is_identity(sum) ==> res is Err && ec_point_error(
                    res->Err_0,
                    "Point at infinity"@,
                )
                &&& !is_identity(sum) ==> (res matches Ok(p) && curve_point(p@) == Some(sum)
                    && p@.2 == points@[0]@.2)
            },
    {
        if scalars.len() != points.len() {
            proof {
                reveal_strlit("Mismatched scalars and points lengths");
            }
            return Err(Error::ECPointError("Mismatched scalars and points lengths".to_owned()));
        }
        if points.len() == 0 {
            proof {
                reveal_strlit("Empty points array");
            }
            return Err(Error::ECPointError("Empty points array".to_owned()));
        }
        let mut acc = Point::zero();
        let mut i: usize = 0;
        while i < points.len()
            invariant
                i <= points@.len(),
                scalars@.len() == points@.len(),
                forall|j: int| 0 <= j < i ==> #[trigger] curve_point(points@[j]@) is Some,
                acc@ == combination(row_vals(scalars@), points@, i as int),
            decreases points.len() - i,
        {
            let p = match points[i].to_curve_point() {
                Some(p) => p,
                None => {
                    proof {
                        reveal_strlit("Invalid point");
                    }
                    return Err(Error::ECPointError("Invalid point".to_owned()));
                },
            };
            let k = scalar_of(&scalars[i]);
            let term = p.times(&k);
            acc = acc.plus(&term);
            i = i + 1;
        }
        proof {
            assert forall|j: int| 0 <= j < points@.len() implies #[trigger] curve_point(
                points@[j]@,
            ) is Some by {}
        }
        let nz = match NonZeroPoint::from_point(acc) {
            Some(v) => v,
            None => {
                proof {
                    reveal_strlit("Point at infinity");
                }
                return Err(Error::ECPointError("Point at infinity".to_owned()));
            },
        };
        let enc = nz.to_uncompressed();
        let xb = copy_range(&enc, 1, 33);
        let yb = copy_range(&enc, 33, 65);
        let x = Integer::from_bytes_be(Sign::Plus, &xb);
        let y = Integer::from_bytes_be(Sign::Plus, &yb);
        proof {
            lemma_be_bytes_padded(xb@);
            lemma_be_bytes_padded(yb@);
            lemma_be_nat_bounds(xb@);
            lemma_be_nat_bounds(yb@);
            assert(enc@ =~= seq![4u8] + xb@ + yb@);
        }
        Ok(ECPoint { x, y, curve_params: points[0].curve_params.clone() })
    }

    /// The point of secp256k1 with these coordinates; `None` when they encode none.
    pub fn to_curve_point(&self) -> (r: Option<Point>)
        ensures
            (match r {
                Some(q) => Some(q@),
                None => None,
            }) == curve_point(self@),
    {
        let xb = match coordinate_bytes(&self.x) {
            Some(b) => b,
            None => return None,
        };
        let yb = match coordinate_bytes(&self.y) {
            Some(b) => b,
            None => return None,
        };
        let mut enc: Vec<u8> = Vec::new();
        enc.push(4u8);
        let mut i: usize = 0;
        while i < 32
            invariant
                i <= 32,
                xb@.len() == 32,
                enc@ == seq![4u8] + xb@.subrange(0, i as int),
            decreases 32 - i,
        {
            enc.push(xb[i]);
            i = i + 1;
            proof {
                assert(xb@.subrange(0, i as int) =~= xb@.subrange(0, i - 1).push(xb@[i - 1]));
            }
        }
        let mut i: usize = 0;
        while i < 32
            invariant
                i <= 32,
                xb@.len() == 32,
                yb@.len() == 32,
                enc@ == seq![4u8] + xb@ + yb@.subrange(0, i as int),
            decreases 32 - i,
        {
            enc.push(yb[i]);
            i = i + 1;
            proof {
                assert(yb@.subrange(0, i as int) =~= yb@.subrange(0, i - 1).push(yb@[i - 1]));
            }
        }
        proof {
            assert(xb@.subrange(0, 32) =~= xb@);
            assert(yb@.subrange(0, 32) =~= yb@);
            assert(enc@ =~= uncompressed_encoding(self.x@, self.y@));
        }
        Point::from_bytes(&enc)
    }
}

/// Whether `v` can be written as a 32-byte big-endian coordinate.
pub open spec fn coordinate_fits(v: int) -> bool {
    v >= 0 && be_bytes(v as nat).len() <= 32
}

/// The 32-byte big-endian encoding of a coordinate.
pub open spec fn coordinate_encoding(v: int) -> Seq<u8> {
    zero_bytes((32 - be_bytes(v as nat).len()) as nat) + be_bytes(v as nat)
}

/// The uncompressed encoding `04 || x || y` of the point with coordinates `x` and `y`.
pub open spec fn uncompressed_encoding(x: int, y: int) -> Seq<u8> {
    seq![4u8] + coordinate_encoding(x) + coordinate_encoding(y)
}

/// The point of secp256k1 (as its compressed encoding) with the coordinates of `p`, when
/// they are the coordinates of one.
pub open spec fn curve_point(p: (int, int, int)) -> Option<Seq<u8>> {
    if coordinate_fits(p.0) && coordinate_fits(p.1) {
        decoded_point(uncompressed_encoding(p.0, p.1))
    } else {
        None
    }
}

/// Whether every point's coordinates are those of a point of secp256k1.
pub open spec fn all_on_curve(points: Seq<ECPoint>) -> bool {
    forall|j: int| 0 <= j < points.len() ==> #[trigger] curve_point(points[j]@) is Some
}

/// The sum of the first `k` scalars, reduced modulo the group order, times their points.
pub open spec fn combination(scalars: Seq<int>, points: Seq<ECPoint>, k: int) -> Seq<u8>
    decreases k,
{
    if k <= 0 {
        identity_encoding()
    } else {
        point_sum(
            combination(scalars, points, k - 1),
            point_times(curve_point(points[k - 1]@)->0, scalars[k - 1] % group_order()),
        )
    }
}

/// The 32-byte big-endian encoding of `v`, when it fits.
fn coordinate_bytes(v: &Integer) -> (r: Option<Vec<u8>>)
    ensures
        r is Some <==> coordinate_fits(v@),
        r matches Some(b) ==> b@ == coordinate_encoding(v@),
{
    let (sign, mag) = v.to_bytes_be();
    if sign == Sign::Minus {
        return None;
    }
    if mag.len() > 32 {
        return None;
    }
    let pad: usize = 32 - mag.len();
    let mut out: Vec<u8> = Vec::new();
    let mut i: usize = 0;
    while i < pad
        invariant
            i <= pad,
            out@ == zero_bytes(i as nat),
        decreases pad - i,
    {
        out.push(0u8);
        i = i + 1;
        proof {
            assert(out@ =~= zero_bytes(i as nat));
        }
    }
    let mut j: usize = 0;
    while j < mag.len()
        invariant
            j <= mag@.len(),
            out@ == zero_bytes(pad as nat) + mag@.subrange(0, j as int),
        decreases mag.len() - j,
    {
        out.push(mag[j]);
        j = j + 1;
        proof {
            assert(mag@.subrange(0, j as int) =~= mag@.subrange(0, j - 1).push(mag@[j - 1]));
        }
    }
    proof {
        assert(mag@.subrange(0, mag@.len() as int) =~= mag@);
    }
    Some(out)
}

/// The bytes of `v` from `lo` up to `hi`.
fn copy_range(v: &Vec<u8>, lo: usize, hi: usize) -> (r: Vec<u8>)
    requires
        lo <= hi <= v@.len(),
    ensures
        r@ == v@.subrange(lo as int, hi as int),
{
    let mut out: Vec<u8> = Vec::new();
    let mut i: usize = lo;
    while i < hi
        invariant
            lo <= i <= hi,
            hi <= v@.len(),
            out@ == v@.subrange(lo as int, i as int),
        decreases hi - i,
    {
        out.push(v[i]);
        i = i + 1;
        proof {
            assert(out@ =~= v@.subrange(lo as int, i as int));
        }
    }
    out
}

/// The scalar `v` reduced modulo the group order.
fn scalar_of(v: &Integer) -> (r: Scalar)
    ensures
        r@ == v@ % group_order(),
{
    let (sign, mag) = v.to_bytes_be();
    let m = Scalar::from_be_bytes_mod_order(&mag);
    proof {
        lemma_be_bytes_value(abs(v@) as nat);
    }
    if sign == Sign::Minus {
        let r = m.negated();
        proof {
            lemma_neg_mod(abs(v@));
        }
        r
    } else {
        m
    }
}

/// `-a` modulo the group order is the negation of `a` modulo it.
proof fn lemma_neg_mod(a: int)
    ensures
        (group_order() - a % group_order()) % group_order() == (-a) % group_order(),
{
    let n = group_order();
    vstd::arithmetic::div_mod::lemma_fundamental_div_mod(a, n);
    let q = a / n;
    let r = a % n;
    assert(n - r == -a + n * (q + 1)) by (nonlinear_arith)
        requires
            a == n * q + r,
    ;
    vstd::arithmetic::div_mod::lemma_mod_multiples_vanish(q + 1, -a, n);
}

} // verus!

//! Turning the key shares of the signers into additive shares, the form that t-out-of-t
//! signing takes: each signer's share and public share are multiplied by its Birkhoff
//! coefficient (hierarchical shares) or its Lagrange coefficient at zero (threshold shares),
//! and an optional additive shift of the key is applied to the first signer.

use vstd::prelude::*;
use crate::scalar::{Scalar, NonZeroScalar, group_order};
use crate::point::{Point, generator_times, point_sum, point_times, is_identity};
use crate::birkhoff_error::BirkhoffError;
use crate::birkhoff_coefficient::{birkhoff_coefficient, birkhoff_system, gram_matrix, nonzero_row};
use crate::birkhoff_matrix::scalar_invertible;
use crate::matrix::is_pseudoinverse;
use generic_ec::curves::Secp256k1;

verus! {

/// Why the shares of the signers could not be made additive.
#[derive(Debug)]
pub enum ShareConversionError {
    /// Fewer signers than the threshold.
    MismatchedAmountOfParties,
    /// The signer's own position is not among the signers.
    SignerIndexOutOfBounds,
    /// A signer is not one of the parties.
    InvalidSubIndex,
    /// A party's rank is not below the threshold.
    InvalidRanks,
    /// The Birkhoff coefficients of the signers could not be computed.
    BirkhoffCoefficient(BirkhoffError),
    /// The shifted public key is the identity.
    DerivedChildKeyZero,
    /// The first signer's shifted share is zero.
    DerivedChildShareZero,
    /// The Lagrange coefficients of the signers could not be computed.
    LagrangeCoefficient,
}

/// The x-coordinates of the signers.
pub open spec fn signer_xs(xs: Seq<NonZeroScalar>, signers: Seq<u16>) -> Seq<int> {
    Seq::new(signers.len(), |k: int| xs[signers[k] as int]@)
}

/// The ranks of the signers.
pub open spec fn signer_ranks(ranks: Seq<u16>, signers: Seq<u16>) -> Seq<u16> {
    Seq::new(signers.len(), |k: int| ranks[signers[k] as int])
}

/// The linear system of the signers' Birkhoff parameters.
pub open spec fn signer_system(xs: Seq<NonZeroScalar>, ranks: Seq<u16>, signers: Seq<u16>, t: nat) -> Seq<Seq<int>> {
    birkhoff_system(signer_xs(xs, signers), signer_ranks(ranks, signers), t)
}

/// `b` is the first row of the pseudoinverse of the `m` x `t` system `sys`, which exists and
/// is unique.
pub open spec fn coefficients_of(sys: Seq<Seq<int>>, m: nat, t: nat, b: Seq<int>) -> bool {
    &&& exists|pinv: Seq<Seq<int>>|
        #[trigger] is_pseudoinverse(sys, m, t, group_order(), pinv) && pinv[0] == b
    &&& forall|pinv: Seq<Seq<int>>|
        #[trigger] is_pseudoinverse(sys, m, t, group_order(), pinv) ==> pinv[0] == b
}

/// The additive share of signer `i` given the Birkhoff coefficients `b`: `b[i] x`, shifted by
/// `shift` for the first signer.
pub open spec fn additive_share(b: Seq<int>, i: int, x: int, shift: int) -> int {
    let s = (b[i] * x) % group_order();
    if i == 0 {
        (s + shift) % group_order()
    } else {
        s
    }
}

/// The additive public share of signer `j`: `b[j]` times its public share, shifted by
/// `shift G` for the first signer.
pub open spec fn additive_public_share(b: Seq<int>, j: int, share: Seq<u8>, shift: int) -> Seq<u8> {
    let p = point_times(share, b[j]);
    if j == 0 {
        point_sum(p, generator_times(shift))
    } else {
        p
    }
}

/// The argument checks of the conversion, in their order; `None` when they pass.
pub open spec fn conversion_check(t: u16, i: u16, signers: Seq<u16>, ranks: Seq<u16>, n: nat) -> Option<ShareConversionError> {
    if signers.len() < t {
        Some(ShareConversionError::MismatchedAmountOfParties)
    } else if i >= signers.len() {
        Some(ShareConversionError::SignerIndexOutOfBounds)
    } else if exists|k: int| 0 <= k < signers.len() && #[trigger] signers[k] >= n {
        Some(ShareConversionError::InvalidSubIndex)
    } else if exists|k: int| 0 <= k < ranks.len() && #[trigger] ranks[k] >= t {
        Some(ShareConversionError::InvalidRanks)
    } else {
        None
    }
}

/// The argument checks of the conversion pass exactly when there are at least `t` signers,
/// signer `i` is one of them, every signer is one of the `n` parties, and every party's
/// rank (signer or not) is below `t`; when only a rank fails, the error names the ranks.
pub proof fn law_conversion_check(t: u16, i: u16, signers: Seq<u16>, ranks: Seq<u16>, n: nat)
    ensures
        conversion_check(t, i, signers, ranks, n) is None <==> (signers.len() >= t && i < signers.len()
            && (forall|k: int| 0 <= k < signers.len() ==> #[trigger] signers[k] < n) && (forall|k: int|
            0 <= k < ranks.len() ==> #[trigger] ranks[k] < t)),
        signers.len() >= t && i < signers.len() && (forall|k: int| 0 <= k < signers.len() ==> #[trigger] signers[k] < n)
            && (exists|k: int| 0 <= k < ranks.len() && #[trigger] ranks[k] >= t) ==> conversion_check(
            t,
            i,
            signers,
            ranks,
            n,
        ) == Some(ShareConversionError::InvalidRanks),
{
}

/// Converts the hierarchical share `x` of signer `i` (the position among `signers`, which
/// hold the indices of the parties) into an additive share, and the public shares of the
/// signers likewise. The x-coordinates, ranks and public shares are those of all parties.
/// After the argument checks, the Birkhoff coefficients `b` of the signers are computed;
/// the additive share is `b[i] x` and the public share of signer `j` is `b[j] X_j`; the
/// first signer's public share is then shifted by `shift G`, and its share by `shift`.
pub fn to_additive_shares(
    t: u16,
    i: u16,
    signers: &[u16],
    xs: &[NonZeroScalar],
    ranks: &[u16],
    public_shares: &[Point],
    x: &Scalar,
    shift: &Scalar,
) -> (res: Result<(Scalar, Vec<Point>), ShareConversionError>)
    requires
        ranks@.len() == xs@.len(),
        public_shares@.len() == xs@.len(),
    ensures
        conversion_check(t, i, signers@, ranks@, xs@.len()) matches Some(e) ==> res matches Err(
            e2,
        ) && e2 == e,
        signers@.len() >= t && i < signers@.len() && (forall|k: int|
            0 <= k < signers@.len() ==> #[trigger] signers@[k] < xs@.len()) && (exists|k: int|
            0 <= k < ranks@.len() && #[trigger] ranks@[k] >= t) ==> res matches Err(
            ShareConversionError::InvalidRanks,
        ),
        conversion_check(t, i, signers@, ranks@, xs@.len()) is None ==> {
            let sys = signer_system(xs@, ranks@, signers@, t as nat);
            let m = signers@.len();
            &&& (res matches Err(ShareConversionError::BirkhoffCoefficient(_))) ==> !scalar_invertible(
                gram_matrix(sys, m, t as nat),
                t as nat,
            ) || exists|pinv: Seq<Seq<int>>|
                #[trigger] is_pseudoinverse(sys, m, t as nat, group_order(), pinv) && exists|j: int|
                    0 <= j < m && #[trigger] pinv[0][j] == 0
            &&& scalar_invertible(gram_matrix(sys, m, t as nat), t as nat) ==> exists|b: Seq<int>|
                #[trigger] coefficients_of(sys, m, t as nat, b) && {
                    &&& (res is Ok <==> (forall|j: int| 0 <= j < m ==> #[trigger] b[j] != 0)
                        && !is_identity(
                        additive_public_share(b, 0, public_shares@[signers@[0] as int]@, shift@),
                    ) && (i == 0 ==> additive_share(b, 0, x@, shift@) != 0))
                    &&& res matches Ok((xi, pts)) ==> {
                        &&& xi@ == additive_share(b, i as int, x@, shift@)
                        &&& pts@.len() == m
                        &&& forall|j: int|
                            0 <= j < m ==> #[trigger] pts@[j]@ == additive_public_share(
                                b,
                                j,
                                public_shares@[signers@[j] as int]@,
                                shift@,
                            )
                    }
                }
        },
{
    proof {
        law_conversion_check(t, i, signers@, ranks@, xs@.len());
    }
    let n = xs.len();
    if signers.len() < t as usize {
        return Err(ShareConversionError::MismatchedAmountOfParties);
    }
    if i as usize >= signers.len() {
        return Err(ShareConversionError::SignerIndexOutOfBounds);
    }
    let mut k: usize = 0;
    while k < signers.len()
        invariant
            k <= signers@.len(),
            n == xs@.len(),
            signers@.len() >= t,
            i < signers@.len(),
            forall|q: int| 0 <= q < k ==> #[trigger] signers@[q] < n,
        decreases signers.len() - k,
    {
        if signers[k] as usize >= n {
            proof {
                assert(signers@[k as int] >= n);
            }
            return Err(ShareConversionError::InvalidSubIndex);
        }
        k = k + 1;
    }
    let mut k: usize = 0;
    while k < ranks.len()
        invariant
            k <= ranks@.len(),
            n == xs@.len(),
            signers@.len() >= t,
            i < signers@.len(),
            forall|q: int| 0 <= q < signers@.len() ==> #[trigger] signers@[q] < n,
            forall|q: int| 0 <= q < k ==> #[trigger] ranks@[q] < t,
        decreases ranks.len() - k,
    {
        if ranks[k] >= t {
            proof {
                assert(ranks@[k as int] >= t);
            }
            return Err(ShareConversionError::InvalidRanks);
        }
        k = k + 1;
    }
    // the signers' parameters and public shares
    let mut sel_xs: Vec<NonZeroScalar> = Vec::new();
    let mut sel_ranks: Vec<u16> = Vec::new();
    let mut sel_pts: Vec<Point> = Vec::new();
    let mut k: usize = 0;
    while k < signers.len()
        invariant
            k <= signers@.len(),
            n == xs@.len(),
            n == ranks@.len(),
            n == public_shares@.len(),
            forall|q: int| 0 <= q < signers@.len() ==> #[trigger] signers@[q] < n,
            sel_xs@.len() == k,
            sel_ranks@.len() == k,
            sel_pts@.len() == k,
            forall|q: int| 0 <= q < k ==> #[trigger] sel_xs@[q]@ == xs@[signers@[q] as int]@,
            forall|q: int| 0 <= q < k ==> #[trigger] sel_ranks@[q] == ranks@[signers@[q] as int],
            forall|q: int| 0 <= q < k ==> #[trigger] sel_pts@[q]@ == public_shares@[signers@[q] as int]@,
        decreases signers.len() - k,
    {
        let s = signers[k] as usize;
        sel_xs.push(xs[s].clone());
        sel_ranks.push(ranks[s]);
        sel_pts.push(public_shares[s].clone());
        k = k + 1;
    }
    proof {
        assert(nonzero_row(sel_xs@) =~= signer_xs(xs@, signers@));
        assert(sel_ranks@ =~= signer_ranks(ranks@, signers@));
        assert(t >= 1) by {
            if t == 0 {
                if n > 0 {
                    assert(ranks@[0] >= t);
                } else {
                    assert(signers@[0] >= n);
                }
            }
        }
    }
    let bres = birkhoff_coefficient(t, &sel_xs, &sel_ranks);
    let b = match bres {
        Ok(b) => b,
        Err(e) => {
            proof {
                let sys = signer_system(xs@, ranks@, signers@, t as nat);
                let m = signers@.len();
                assert(birkhoff_system(nonzero_row(sel_xs@), sel_ranks@, t as nat) == sys);
                if scalar_invertible(gram_matrix(sys, m, t as nat), t as nat) {
                    assert(e == BirkhoffError::ZeroCoefficient);
                    let pinv = choose|pinv: Seq<Seq<int>>|
                        #![trigger is_pseudoinverse(sys, m, t as nat, group_order(), pinv)]
                        is_pseudoinverse(sys, m, t as nat, group_order(), pinv) && exists|j: int|
                            0 <= j < m && #[trigger] pinv[0][j] == 0;
                    assert(is_pseudoinverse(sys, m, t as nat, group_order(), pinv));
                    let pu = choose|pu: Seq<Seq<int>>|
                        #![trigger is_pseudoinverse(sys, m, t as nat, group_order(), pu)]
                        {
                            &&& is_pseudoinverse(sys, m, t as nat, group_order(), pu)
                            &&& forall|b2: Seq<Seq<int>>|
                                is_pseudoinverse(sys, m, t as nat, group_order(), b2) ==> b2 == pu
                        };
                    assert(pinv == pu);
                    assert(coefficients_of(sys, m, t as nat, pu[0]));
                    let j = choose|j: int| 0 <= j < m && #[trigger] pinv[0][j] == 0;
                    assert(pu[0][j] == 0);
                }
            }
            return Err(ShareConversionError::BirkhoffCoefficient(e));
        },
    };
    let ghost bv = nonzero_row(b@);
    let ghost sys = signer_system(xs@, ranks@, signers@, t as nat);
    let ghost m = signers@.len();
    proof {
        assert(birkhoff_system(nonzero_row(sel_xs@), sel_ranks@, t as nat) == sys);
        assert(scalar_invertible(gram_matrix(sys, m, t as nat), t as nat));
        let pu = choose|pinv: Seq<Seq<int>>|
            #![trigger is_pseudoinverse(sys, m, t as nat, group_order(), pinv)]
            {
                &&& is_pseudoinverse(sys, m, t as nat, group_order(), pinv)
                &&& forall|b2: Seq<Seq<int>>|
                    is_pseudoinverse(sys, m, t as nat, group_order(), b2) ==> b2 == pinv
                &&& forall|j: int| 0 <= j < m ==> #[trigger] pinv[0][j] != 0
            };
        let pv = choose|pinv: Seq<Seq<int>>|
            #![trigger is_pseudoinverse(sys, m, t as nat, group_order(), pinv)]
            is_pseudoinverse(sys, m, t as nat, group_order(), pinv) && pinv[0] == bv;
        assert(pv == pu);
        assert(coefficients_of(sys, m, t as nat, bv));
        assert forall|j: int| 0 <= j < m implies #[trigger] bv[j] != 0 by {
            assert(pu[0][j] != 0);
        }
    }
    let xi = b[i as usize].as_scalar().times(x);
    let mut pts: Vec<Point> = Vec::new();
    let mut j: usize = 0;
    while j < signers.len()
        invariant
            j <= signers@.len(),
            b@.len() == signers@.len(),
            sel_pts@.len() == signers@.len(),
            bv == nonzero_row(b@),
            pts@.len() == j,
            n == public_shares@.len(),
            forall|q: int| 0 <= q < signers@.len() ==> #[trigger] signers@[q] < n,
            forall|q: int| 0 <= q < signers@.len() ==> #[trigger] sel_pts@[q]@ == public_shares@[signers@[q] as int]@,
            forall|q: int| 0 <= q < j ==> #[trigger] pts@[q]@ == point_times(sel_pts@[q]@, bv[q]),
        decreases signers.len() - j,
    {
        let p = sel_pts[j].times(b[j].as_scalar());
        pts.push(p);
        j = j + 1;
    }
    apply_shift(xi, pts, i, shift)
}

/// `prod_{m < k, m != j} xs[m]`.
pub open spec fn lagrange_numerator(xs: Seq<int>, j: int, k: int) -> int
    decreases k,
{
    if k <= 0 {
        1
    } else if k - 1 == j {
        lagrange_numerator(xs, j, k - 1)
    } else {
        lagrange_numerator(xs, j, k - 1) * xs[k - 1]
    }
}

/// `prod_{m < k, m != j} (xs[m] - xs[j])`.
pub open spec fn lagrange_denominator(xs: Seq<int>, j: int, k: int) -> int
    decreases k,
{
    if k <= 0 {
        1
    } else if k - 1 == j {
        lagrange_denominator(xs, j, k - 1)
    } else {
        lagrange_denominator(xs, j, k - 1) * (xs[k - 1] - xs[j])
    }
}

/// Whether the Lagrange coefficient at zero of point `j` among `xs` exists: its
/// denominator is invertible and its value is not zero.
pub open spec fn lagrange_defined(xs: Seq<int>, j: int) -> bool {
    &&& lagrange_denominator(xs, j, xs.len() as int) % group_order() != 0
    &&& lagrange_numerator(xs, j, xs.len() as int) % group_order() != 0
}

/// `l` is the Lagrange coefficient at zero of point `j` among `xs`:
/// `l * prod_{m != j} (xs[m] - xs[j]) == prod_{m != j} xs[m]` modulo the group order.
pub open spec fn is_lagrange_coefficient(xs: Seq<int>, j: int, l: int) -> bool {
    &&& 0 <= l < group_order()
    &&& (l * lagrange_denominator(xs, j, xs.len() as int)) % group_order() == lagrange_numerator(
        xs,
        j,
        xs.len() as int,
    ) % group_order()
}

/// The values of the scalars.
pub open spec fn scalar_values(xs: Seq<Scalar>) -> Seq<int> {
    Seq::new(xs.len(), |k: int| xs[k]@)
}

/// `generic_ec_zkp`: `polynomial::lagrange_coefficient_at_zero` on secp256k1, the
/// coefficient of point `j` for interpolating at zero: the product of the other points
/// times the inverse of the product of their differences to point `j`. `None` when `j` is
/// out of range, when that product of differences is not invertible, or when the result is
/// zero.
#[verifier::external_body]
fn lagrange_at_zero(j: usize, xs: &[Scalar]) -> (r: Option<Scalar>)
    ensures
        r is Some <==> (j < xs@.len() && lagrange_defined(scalar_values(xs@), j as int)),
        r matches Some(l) ==> is_lagrange_coefficient(scalar_values(xs@), j as int, l@),
{
    let mut v: Vec<generic_ec::Scalar<Secp256k1>> = Vec::new();
    for x in xs {
        v.push(generic_ec::Scalar::<Secp256k1>::from_be_bytes(&x.bytes).expect("valid scalar"));
    }
    generic_ec_zkp::polynomial::lagrange_coefficient_at_zero(j, &v).map(
        |l| Scalar { bytes: l.into_inner().to_be_bytes().as_bytes().to_vec() },
    )
}

/// The coefficients `b` are the Lagrange coefficients at zero of the points `xs`.
pub open spec fn lagrange_coefficients(xs: Seq<int>, b: Seq<int>) -> bool {
    &&& b.len() == xs.len()
    &&& forall|j: int| 0 <= j < xs.len() ==> #[trigger] is_lagrange_coefficient(xs, j, b[j])
}

/// Shifts the first signer's public share by `shift G`, and signer `i`'s share by `shift`
/// when `i` is the first signer.
fn apply_shift(xi: Scalar, pts: Vec<Point>, i: u16, shift: &Scalar) -> (res: Result<
    (Scalar, Vec<Point>),
    ShareConversionError,
>)
    requires
        pts@.len() > 0,
    ensures
        res is Ok <==> !is_identity(point_sum(pts@[0]@, generator_times(shift@))) && (i == 0 ==> (xi@
            + shift@) % group_order() != 0),
        res matches Err(e) ==> (e is DerivedChildKeyZero || e is DerivedChildShareZero),
        res matches Ok((x2, p2)) ==> p2@.len() == pts@.len() && p2@[0]@ == point_sum(
            pts@[0]@,
            generator_times(shift@),
        ) && (forall|j: int| 0 < j < pts@.len() ==> #[trigger] p2@[j]@ == pts@[j]@) && x2@ == (if i
            == 0 {
            (xi@ + shift@) % group_order()
        } else {
            xi@
        }),
{
    let mut pts = pts;
    let mut xi = xi;
    let sh = Point::generator_times(shift);
    let p0 = pts[0].plus(&sh);
    if p0.is_zero() {
        return Err(ShareConversionError::DerivedChildKeyZero);
    }
    pts.set(0, p0);
    if i == 0 {
        let shifted = xi.plus(shift);
        if shifted.is_zero() {
            return Err(ShareConversionError::DerivedChildShareZero);
        }
        xi = shifted;
    }
    Ok((xi, pts))
}

/// Converts the threshold (Lagrange) share `x` of signer `i` (the position among
/// `signers`, which hold the indices of the parties) into an additive share, and the public
/// shares of the signers likewise. The x-coordinates and public shares are those of all
/// parties. After the argument checks, the Lagrange coefficients at zero `l` of the
/// signers' points are computed; the additive share is `l[i] x` and the public share of
/// signer `j` is `l[j] X_j`; the first signer's public share is then shifted by `shift G`,
/// and its share by `shift`.
pub fn lagrange_to_additive_shares(
    t: u16,
    i: u16,
    signers: &[u16],
    xs: &[NonZeroScalar],
    public_shares: &[Point],
    x: &Scalar,
    shift: &Scalar,
) -> (res: Result<(Scalar, Vec<Point>), ShareConversionError>)
    requires
        public_shares@.len() == xs@.len(),
    ensures
        conversion_check(t, i, signers@, Seq::empty(), xs@.len()) matches Some(e) ==> res matches Err(
            e2,
        ) && e2 == e,
        conversion_check(t, i, signers@, Seq::empty(), xs@.len()) is None ==> {
            let ys = signer_xs(xs@, signers@);
            let m = signers@.len();
            &&& (exists|j: int| 0 <= j < m && !#[trigger] lagrange_defined(ys, j)) <==> (res matches Err(
                ShareConversionError::LagrangeCoefficient,
            ))
            &&& (forall|j: int| 0 <= j < m ==> #[trigger] lagrange_defined(ys, j)) ==> exists|b: Seq<int>|
                #[trigger] lagrange_coefficients(ys, b) && {
                    &&& (res is Ok <==> !is_identity(
                        additive_public_share(b, 0, public_shares@[signers@[0] as int]@, shift@),
                    ) && (i == 0 ==> additive_share(b, 0, x@, shift@) != 0))
                    &&& res matches Ok((xi, pts)) ==> {
                        &&& xi@ == additive_share(b, i as int, x@, shift@)
                        &&& pts@.len() == m
                        &&& forall|j: int|
                            0 <= j < m ==> #[trigger] pts@[j]@ == additive_public_share(
                                b,
                                j,
                                public_shares@[signers@[j] as int]@,
                                shift@,
                            )
                    }
                }
        },
{
    let n = xs.len();
    if signers.len() < t as usize {
        return Err(ShareConversionError::MismatchedAmountOfParties);
    }
    if i as usize >= signers.len() {
        return Err(ShareConversionError::SignerIndexOutOfBounds);
    }
    let mut k: usize = 0;
    while k < signers.len()
        invariant
            k <= signers@.len(),
            n == xs@.len(),
            signers@.len() >= t,
            i < signers@.len(),
            forall|q: int| 0 <= q < k ==> #[trigger] signers@[q] < n,
        decreases signers.len() - k,
    {
        if signers[k] as usize >= n {
            proof {
                assert(signers@[k as int] >= n);
            }
            return Err(ShareConversionError::InvalidSubIndex);
        }
        k = k + 1;
    }
    let m = signers.len();
    let ghost ys = signer_xs(xs@, signers@);
    proof {
        assert(conversion_check(t, i, signers@, Seq::empty(), xs@.len()) is None);
    }
    // the signers' points and public shares
    let mut sel_xs: Vec<Scalar> = Vec::new();
    let mut sel_pts: Vec<Point> = Vec::new();
    let mut k: usize = 0;
    while k < m
        invariant
            m == signers@.len(),
            k <= m,
            n == xs@.len(),
            n == public_shares@.len(),
            forall|q: int| 0 <= q < m ==> #[trigger] signers@[q] < n,
            sel_xs@.len() == k,
            sel_pts@.len() == k,
            forall|q: int| 0 <= q < k ==> #[trigger] sel_xs@[q]@ == xs@[signers@[q] as int]@,
            forall|q: int| 0 <= q < k ==> #[trigger] sel_pts@[q]@ == public_shares@[signers@[q] as int]@,
        decreases m - k,
    {
        let s = signers[k] as usize;
        sel_xs.push(xs[s].as_scalar().clone());
        sel_pts.push(public_shares[s].clone());
        k = k + 1;
    }
    proof {
        assert(scalar_values(sel_xs@) =~= ys);
    }
    // the Lagrange coefficients
    let mut lambdas: Vec<Scalar> = Vec::new();
    let mut j: usize = 0;
    while j < m
        invariant
            conversion_check(t, i, signers@, Seq::empty(), xs@.len()) is None,
            ys == signer_xs(xs@, signers@),
            m == signers@.len(),
            sel_xs@.len() == m,
            scalar_values(sel_xs@) == ys,
            ys.len() == m,
            j <= m,
            lambdas@.len() == j,
            forall|q: int| 0 <= q < j ==> #[trigger] lagrange_defined(ys, q),
            forall|q: int| 0 <= q < j ==> #[trigger] is_lagrange_coefficient(ys, q, lambdas@[q]@),
        decreases m - j,
    {
        match lagrange_at_zero(j, &sel_xs) {
            Some(l) => {
                lambdas.push(l);
            },
            None => {
                proof {
                    assert(!lagrange_defined(ys, j as int));
                }
                return Err(ShareConversionError::LagrangeCoefficient);
            },
        }
        j = j + 1;
    }
    let ghost bv = Seq::new(lambdas@.len(), |q: int| lambdas@[q]@);
    let xi = lambdas[i as usize].times(x);
    let mut pts: Vec<Point> = Vec::new();
    let mut j: usize = 0;
    while j < m
        invariant
            m == signers@.len(),
            lambdas@.len() == m,
            sel_pts@.len() == m,
            n == public_shares@.len(),
            forall|q: int| 0 <= q < m ==> #[trigger] signers@[q] < n,
            forall|q: int| 0 <= q < m ==> #[trigger] sel_pts@[q]@ == public_shares@[signers@[q] as int]@,
            bv == Seq::new(lambdas@.len(), |q: int| lambdas@[q]@),
            pts@.len() == j,
            j <= m,
            forall|q: int| 0 <= q < j ==> #[trigger] pts@[q]@ == point_times(sel_pts@[q]@, bv[q]),
        decreases m - j,
    {
        let p = sel_pts[j].times(&lambdas[j]);
        pts.push(p);
        j = j + 1;
    }
    let res = apply_shift(xi, pts, i, shift);
    proof {
        assert(lagrange_coefficients(ys, bv));
    }
    res
}

} // verus!

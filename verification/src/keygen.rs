//! Hierarchical threshold key generation: the shares of round 1 from a secret polynomial,
//! the checks of round 2 on what the other parties sent (decommitments, sizes of the public
//! polynomials, Feldman verification of the shares at this party's derivative order) with
//! the public shares and the secret share that follow, and the Schnorr proofs and shared
//! public key of the last round.

use vstd::prelude::*;
use vstd::arithmetic::div_mod::*;
use crate::point::{Point, generator_times, point_sum, point_times, identity_encoding, is_identity};
use crate::scalar::{Scalar, group_order};
use crate::polynomial::{Polynomial, PointPolynomial, point_derivative, commits_to};
use crate::birkhoff_matrix::scalar_row;
use crate::interpolation::deriv_sum;
use generic_ec::curves::Secp256k1;

verus! {

/// Why round 2 was aborted, with the parties to blame in increasing order.
#[derive(Debug)]
pub enum Round2Error {
    /// Their decommitments do not hash to their commitments.
    InvalidDecommitment(Vec<u16>),
    /// Their public polynomials do not have degree `t - 1`.
    InvalidDataSize(Vec<u16>),
    /// The share each sent, times the generator, differs from the derivative of its public
    /// polynomial at this party's point.
    FeldmanVerificationFailed(Vec<u16>),
    /// A public share or the secret share is zero.
    ZeroShare,
}

/// What round 2 yields: the public share of every party and this party's secret share.
pub struct Round2Output {
    /// `y_l`, the derivative of order `ranks[l]` of the summed public polynomial at `l + 1`.
    pub public_shares: Vec<Point>,
    /// The sum of the shares that every party sent to this one.
    pub secret_share: Scalar,
}

/// The other parties, before `k`, whose decommitment does not hash to their commitment.
pub open spec fn commitment_blame(i: int, commitments: Seq<Vec<u8>>, hashes: Seq<Vec<u8>>, k: int) -> Seq<u16>
    decreases k,
{
    if k <= 0 {
        Seq::empty()
    } else {
        let b = commitment_blame(i, commitments, hashes, k - 1);
        if k - 1 != i && commitments[k - 1]@ != hashes[k - 1]@ {
            b.push((k - 1) as u16)
        } else {
            b
        }
    }
}

/// The degree of a polynomial with `len` coefficients: the index of the last one, and 0
/// for the polynomial without coefficients.
pub open spec fn poly_degree(len: nat) -> nat {
    if len == 0 {
        0
    } else {
        (len - 1) as nat
    }
}

/// The other parties, before `k`, whose public polynomial does not have degree `t - 1`.
pub open spec fn size_blame(i: int, polys: Seq<PointPolynomial>, t: nat, k: int) -> Seq<u16>
    decreases k,
{
    if k <= 0 {
        Seq::empty()
    } else {
        let b = size_blame(i, polys, t, k - 1);
        if k - 1 != i && poly_degree(polys[k - 1].coefficients().len()) + 1 != t {
            b.push((k - 1) as u16)
        } else {
            b
        }
    }
}

/// Whether the share from party `j` fails the Feldman check: the derivative of order `rank`
/// of its public polynomial at `i + 1` is not the share times the generator.
pub open spec fn feldman_fails(i: int, rank: nat, poly: PointPolynomial, sigma: Scalar) -> bool {
    point_derivative(poly.coefficients(), i + 1, rank) != generator_times(sigma@)
}

/// For each party `q` other than `i` before `m`: when its public polynomial is the
/// commitment `f G` to a scalar polynomial `f`, its derivative of order `rank` at `i + 1` is
/// the commitment to `f^(rank)(i + 1)`.
pub open spec fn derivatives_commit(i: int, rank: nat, polys: Seq<PointPolynomial>, m: int) -> bool {
    forall|q: int, f: Seq<int>|
        0 <= q < m && q != i && #[trigger] commits_to(polys[q].coefficients(), f) ==> point_derivative(
            polys[q].coefficients(),
            i + 1,
            rank,
        ) == generator_times(deriv_sum(f, rank, i + 1, f.len()) % group_order())
}

/// The other parties, before `k`, whose share fails the Feldman check.
pub open spec fn feldman_blame(i: int, rank: nat, polys: Seq<PointPolynomial>, sigmas: Seq<Scalar>, k: int) -> Seq<u16>
    decreases k,
{
    if k <= 0 {
        Seq::empty()
    } else {
        let b = feldman_blame(i, rank, polys, sigmas, k - 1);
        if k - 1 != i && feldman_fails(i, rank, polys[k - 1], sigmas[k - 1]) {
            b.push((k - 1) as u16)
        } else {
            b
        }
    }
}

/// One step of a blame list: party `k - 1` is added exactly when `bad`; the earlier parties'
/// membership does not change.
proof fn lemma_blame_step(b: Seq<u16>, c: Seq<u16>, k: int, bad: bool)
    requires
        1 <= k <= 65536,
        c == (if bad {
            b.push((k - 1) as u16)
        } else {
            b
        }),
        forall|q: int| 0 <= q < b.len() ==> #[trigger] b[q] < k - 1,
    ensures
        forall|q: int| 0 <= q < c.len() ==> #[trigger] c[q] < k,
        forall|j: int| 0 <= j < k - 1 ==> (#[trigger] c.contains(j as u16) <==> b.contains(j as u16)),
        c.contains((k - 1) as u16) <==> bad,
{
    assert forall|j: int| 0 <= j < k - 1 implies (#[trigger] c.contains(j as u16) <==> b.contains(j as u16)) by {
        if c.contains(j as u16) {
            let q = choose|q: int| 0 <= q < c.len() && c[q] == j as u16;
            if q == b.len() {
                assert(c[q] == (k - 1) as u16);
            } else {
                assert(b[q] == j as u16);
            }
        }
        if b.contains(j as u16) {
            let q = choose|q: int| 0 <= q < b.len() && b[q] == j as u16;
            assert(c[q] == b[q]);
        }
    }
    if bad {
        assert(c[b.len() as int] == (k - 1) as u16);
    }
    if c.contains((k - 1) as u16) {
        let q = choose|q: int| 0 <= q < c.len() && c[q] == (k - 1) as u16;
        if q < b.len() {
            assert(b[q] < k - 1);
        }
    }
}

/// Round 2 blames a party other than `i` for its decommitment exactly when the decommitment
/// does not hash to its commitment, whatever its position.
pub proof fn law_commitment_blame(i: int, commitments: Seq<Vec<u8>>, hashes: Seq<Vec<u8>>, k: int)
    requires
        0 <= k <= commitments.len(),
        k <= hashes.len(),
        k <= 65536,
    ensures
        forall|j: int|
            0 <= j < k ==> (#[trigger] commitment_blame(i, commitments, hashes, k).contains(j as u16) <==> (j != i
                && commitments[j]@ != hashes[j]@)),
        forall|q: int|
            0 <= q < commitment_blame(i, commitments, hashes, k).len() ==> #[trigger] commitment_blame(
                i,
                commitments,
                hashes,
                k,
            )[q] < k,
    decreases k,
{
    if k > 0 {
        law_commitment_blame(i, commitments, hashes, k - 1);
        lemma_blame_step(
            commitment_blame(i, commitments, hashes, k - 1),
            commitment_blame(i, commitments, hashes, k),
            k,
            k - 1 != i && commitments[k - 1]@ != hashes[k - 1]@,
        );
    }
}

/// Round 2 blames a party other than `i`, whatever its position, for the size of its public
/// polynomial exactly when the polynomial does not have `t` coefficients (fewer or more);
/// the polynomial without coefficients has degree 0 and counts as one coefficient.
pub proof fn law_size_blame(i: int, polys: Seq<PointPolynomial>, t: nat, k: int)
    requires
        0 <= k <= polys.len(),
        k <= 65536,
    ensures
        forall|j: int|
            0 <= j < k ==> (#[trigger] size_blame(i, polys, t, k).contains(j as u16) <==> (j != i && (if polys[j].coefficients().len()
                == 0 {
                1
            } else {
                polys[j].coefficients().len()
            }) != t)),
        forall|q: int| 0 <= q < size_blame(i, polys, t, k).len() ==> #[trigger] size_blame(i, polys, t, k)[q] < k,
    decreases k,
{
    if k > 0 {
        law_size_blame(i, polys, t, k - 1);
        lemma_blame_step(
            size_blame(i, polys, t, k - 1),
            size_blame(i, polys, t, k),
            k,
            k - 1 != i && poly_degree(polys[k - 1].coefficients().len()) + 1 != t,
        );
    }
}

/// Round 2 blames a party other than `i` for its share exactly when the derivative of order
/// `rank` of its public polynomial at `i + 1` is not the share times the generator.
pub proof fn law_feldman_blame(i: int, rank: nat, polys: Seq<PointPolynomial>, sigmas: Seq<Scalar>, k: int)
    requires
        0 <= k <= polys.len(),
        k <= sigmas.len(),
        k <= 65536,
    ensures
        forall|j: int|
            0 <= j < k ==> (#[trigger] feldman_blame(i, rank, polys, sigmas, k).contains(j as u16) <==> (j != i
                && point_derivative(polys[j].coefficients(), i + 1, rank) != generator_times(sigmas[j]@))),
        forall|q: int|
            0 <= q < feldman_blame(i, rank, polys, sigmas, k).len() ==> #[trigger] feldman_blame(
                i,
                rank,
                polys,
                sigmas,
                k,
            )[q] < k,
    decreases k,
{
    if k > 0 {
        law_feldman_blame(i, rank, polys, sigmas, k - 1);
        lemma_blame_step(
            feldman_blame(i, rank, polys, sigmas, k - 1),
            feldman_blame(i, rank, polys, sigmas, k),
            k,
            k - 1 != i && feldman_fails(i, rank, polys[k - 1], sigmas[k - 1]),
        );
    }
}

/// The sum of coefficient `c` of the first `k` polynomials, added one after the other to the
/// identity; a polynomial without coefficient `c` adds nothing.
pub open spec fn sum_coefficient(polys: Seq<PointPolynomial>, c: int, k: int) -> Seq<u8>
    decreases k,
{
    if k <= 0 {
        identity_encoding()
    } else {
        if c < polys[k - 1].coefficients().len() {
            point_sum(sum_coefficient(polys, c, k - 1), polys[k - 1].coefficients()[c])
        } else {
            sum_coefficient(polys, c, k - 1)
        }
    }
}

/// The coefficients of the sum of all the polynomials, `t` of them.
pub open spec fn summed_polynomial(polys: Seq<PointPolynomial>, t: nat) -> Seq<Seq<u8>> {
    Seq::new(t, |c: int| sum_coefficient(polys, c, polys.len() as int))
}

/// The public share of party `l`: the derivative of order `ranks[l]` of the summed
/// polynomial at `l + 1`.
pub open spec fn public_share(polys: Seq<PointPolynomial>, t: nat, ranks: Seq<u16>, l: int) -> Seq<u8> {
    point_derivative(summed_polynomial(polys, t), l + 1, ranks[l] as nat)
}

/// The sum of the first `k` shares.
pub open spec fn share_sum(sigmas: Seq<Scalar>, k: int) -> int
    decreases k,
{
    if k <= 0 {
        0
    } else {
        share_sum(sigmas, k - 1) + sigmas[k - 1]@
    }
}

/// Whether some public share, or the secret share, is zero.
pub open spec fn some_share_zero(polys: Seq<PointPolynomial>, sigmas: Seq<Scalar>, t: nat, ranks: Seq<u16>) -> bool {
    ||| exists|l: int| 0 <= l < ranks.len() && is_identity(#[trigger] public_share(polys, t, ranks, l))
    ||| share_sum(sigmas, sigmas.len() as int) % group_order() == 0
}

/// Whether the two byte strings are equal.
fn same_bytes(a: &Vec<u8>, b: &Vec<u8>) -> (r: bool)
    ensures
        r == (a@ == b@),
{
    if a.len() != b.len() {
        return false;
    }
    let mut k: usize = 0;
    while k < a.len()
        invariant
            a@.len() == b@.len(),
            k <= a@.len(),
            forall|q: int| 0 <= q < k ==> a@[q] == b@[q],
        decreases a.len() - k,
    {
        if a[k] != b[k] {
            return false;
        }
        k = k + 1;
    }
    proof {
        assert(a@ =~= b@);
    }
    true
}

/// The sum of the polynomials, cut to its first `len` coefficients; a polynomial without
/// coefficient `c` adds nothing to coefficient `c`.
fn sum_polynomials(polynomials: &[PointPolynomial], len: usize) -> (r: PointPolynomial)
    ensures
        r.coefficients() == summed_polynomial(polynomials@, len as nat),
{
    let n = polynomials.len();
    let mut coefs: Vec<Point> = Vec::new();
    let mut c: usize = 0;
    while c < len
        invariant
            n == polynomials@.len(),
            c <= len,
            coefs@.len() == c,
            forall|q: int| 0 <= q < c ==> #[trigger] coefs@[q]@ == sum_coefficient(polynomials@, q, n as int),
        decreases len - c,
    {
        let mut acc = Point::zero();
        let mut k: usize = 0;
        while k < n
            invariant
                n == polynomials@.len(),
                c < len,
                k <= n,
                acc@ == sum_coefficient(polynomials@, c as int, k as int),
            decreases n - k,
        {
            if c < polynomials[k].len() {
                acc = acc.plus(polynomials[k].coefficient(c));
            }
            k = k + 1;
        }
        coefs.push(acc);
        c = c + 1;
    }
    let summed = PointPolynomial::from_coefs(coefs);
    proof {
        assert(summed.coefficients() =~= summed_polynomial(polynomials@, len as nat));
    }
    summed
}

/// Checks what the other parties sent in rounds 1 and 2 and derives the shares. Party `j`'s
/// entries sit at index `j` of each slice; this party's (`i`) own entries are its public
/// polynomial and the share it kept, and its commitment entries are not checked. The hashes
/// are those of the decommitments, in the form the commitments were made. In this order the
/// checks fail with the parties to blame: decommitments that do not hash to the commitment,
/// public polynomials whose degree is not `t - 1`, shares `s_j` with `F_j^(r)(i + 1) != s_j G`
/// (`r` this party's rank). Then the public share of each party `l` is the derivative of
/// order `ranks[l]` of the summed polynomial at `l + 1`, and the secret share is the sum of
/// the shares; it fails when one of them is zero.
pub fn validate_round2(
    i: u16,
    t: u16,
    ranks: &[u16],
    commitments: &[Vec<u8>],
    decommitment_hashes: &[Vec<u8>],
    polynomials: &[PointPolynomial],
    sigmas: &[Scalar],
) -> (res: Result<Round2Output, Round2Error>)
    requires
        i < ranks@.len(),
        ranks@.len() <= u16::MAX,
        commitments@.len() == ranks@.len(),
        decommitment_hashes@.len() == ranks@.len(),
        polynomials@.len() == ranks@.len(),
        sigmas@.len() == ranks@.len(),
        polynomials@[i as int].coefficients().len() == t,
    ensures
        commitment_blame(i as int, commitments@, decommitment_hashes@, ranks@.len() as int).len() > 0
            ==> (res matches Err(Round2Error::InvalidDecommitment(b)) && b@ == commitment_blame(
            i as int,
            commitments@,
            decommitment_hashes@,
            ranks@.len() as int,
        )),
        commitment_blame(i as int, commitments@, decommitment_hashes@, ranks@.len() as int).len() == 0
            && size_blame(i as int, polynomials@, t as nat, ranks@.len() as int).len() > 0 ==> (res matches Err(
            Round2Error::InvalidDataSize(b),
        ) && b@ == size_blame(i as int, polynomials@, t as nat, ranks@.len() as int)),
        commitment_blame(i as int, commitments@, decommitment_hashes@, ranks@.len() as int).len() == 0
            && size_blame(i as int, polynomials@, t as nat, ranks@.len() as int).len() == 0
            && feldman_blame(i as int, ranks@[i as int] as nat, polynomials@, sigmas@, ranks@.len() as int).len()
            > 0 ==> (res matches Err(Round2Error::FeldmanVerificationFailed(b)) && b@ == feldman_blame(
            i as int,
            ranks@[i as int] as nat,
            polynomials@,
            sigmas@,
            ranks@.len() as int,
        )),
        commitment_blame(i as int, commitments@, decommitment_hashes@, ranks@.len() as int).len() == 0
            && size_blame(i as int, polynomials@, t as nat, ranks@.len() as int).len() == 0
            && feldman_blame(i as int, ranks@[i as int] as nat, polynomials@, sigmas@, ranks@.len() as int).len()
            == 0 ==> (some_share_zero(polynomials@, sigmas@, t as nat, ranks@) <==> res matches Err(
            Round2Error::ZeroShare,
        )),
        commitment_blame(i as int, commitments@, decommitment_hashes@, ranks@.len() as int).len() == 0
            && size_blame(i as int, polynomials@, t as nat, ranks@.len() as int).len() == 0
            && feldman_blame(i as int, ranks@[i as int] as nat, polynomials@, sigmas@, ranks@.len() as int).len()
            == 0 && !some_share_zero(polynomials@, sigmas@, t as nat, ranks@) ==> res is Ok,
        commitment_blame(i as int, commitments@, decommitment_hashes@, ranks@.len() as int).len() == 0
            && size_blame(i as int, polynomials@, t as nat, ranks@.len() as int).len() == 0 ==> forall|k: int, f: Seq<int>|
            0 <= k < ranks@.len() && k != i && #[trigger] commits_to(polynomials@[k].coefficients(), f)
                && sigmas@[k]@ == deriv_sum(f, ranks@[i as int] as nat, i + 1, f.len()) % group_order()
                ==> !feldman_fails(i as int, ranks@[i as int] as nat, polynomials@[k], sigmas@[k]),
        res matches Ok(out) ==> out.public_shares@.len() == ranks@.len() && (forall|l: int|
            0 <= l < ranks@.len() ==> #[trigger] out.public_shares@[l]@ == public_share(
                polynomials@,
                t as nat,
                ranks@,
                l,
            )) && out.secret_share@ == share_sum(sigmas@, ranks@.len() as int) % group_order(),
        forall|j: int|
            0 <= j < ranks@.len() && j != i && #[trigger] commitments@[j]@ != decommitment_hashes@[j]@ ==> (res matches Err(
                Round2Error::InvalidDecommitment(b),
            ) && b@.contains(j as u16)),
        (forall|j: int| 0 <= j < ranks@.len() && j != i ==> #[trigger] commitments@[j]@ == decommitment_hashes@[j]@)
            ==> forall|j: int|
            0 <= j < ranks@.len() && j != i && (if #[trigger] polynomials@[j].coefficients().len() == 0 {
                1
            } else {
                polynomials@[j].coefficients().len()
            }) != t ==> (res matches Err(Round2Error::InvalidDataSize(b)) && b@.contains(j as u16)),
        res matches Err(Round2Error::InvalidDecommitment(b)) ==> forall|j: int|
            0 <= j < ranks@.len() ==> (#[trigger] b@.contains(j as u16) <==> (j != i && commitments@[j]@
                != decommitment_hashes@[j]@)),
        res matches Err(Round2Error::InvalidDataSize(b)) ==> forall|j: int|
            0 <= j < ranks@.len() ==> (#[trigger] b@.contains(j as u16) <==> (j != i && (if polynomials@[j].coefficients().len()
                == 0 {
                1
            } else {
                polynomials@[j].coefficients().len()
            }) != t)),
        res matches Err(Round2Error::FeldmanVerificationFailed(b)) ==> forall|j: int|
            0 <= j < ranks@.len() ==> (#[trigger] b@.contains(j as u16) <==> (j != i && point_derivative(
                polynomials@[j].coefficients(),
                i + 1,
                ranks@[i as int] as nat,
            ) != generator_times(sigmas@[j]@))),
{
    let res = check_round2(i, t, ranks, commitments, decommitment_hashes, polynomials, sigmas);
    proof {
        let n = ranks@.len() as int;
        let cb = commitment_blame(i as int, commitments@, decommitment_hashes@, n);
        let sb = size_blame(i as int, polynomials@, t as nat, n);
        let fb = feldman_blame(i as int, ranks@[i as int] as nat, polynomials@, sigmas@, n);
        law_commitment_blame(i as int, commitments@, decommitment_hashes@, n);
        law_size_blame(i as int, polynomials@, t as nat, n);
        law_feldman_blame(i as int, ranks@[i as int] as nat, polynomials@, sigmas@, n);
        assert forall|j: int|
            0 <= j < n && j != i && #[trigger] commitments@[j]@ != decommitment_hashes@[j]@ implies (res matches Err(
                Round2Error::InvalidDecommitment(b),
            ) && b@.contains(j as u16)) by {
            assert(cb.contains(j as u16));
        }
        if forall|j: int| 0 <= j < n && j != i ==> #[trigger] commitments@[j]@ == decommitment_hashes@[j]@ {
            if cb.len() > 0 {
                let x = cb[0] as int;
                assert(cb[0] < n);
                assert(cb.contains(x as u16));
                assert(commitments@[x]@ == decommitment_hashes@[x]@);
            }
            assert forall|j: int|
                0 <= j < n && j != i && (if #[trigger] polynomials@[j].coefficients().len() == 0 {
                    1
                } else {
                    polynomials@[j].coefficients().len()
                }) != t implies (res matches Err(Round2Error::InvalidDataSize(b)) && b@.contains(j as u16)) by {
                assert(sb.contains(j as u16));
            }
        }
    }
    res
}

/// The checks and shares of round 2, each error with its blame list.
fn check_round2(
    i: u16,
    t: u16,
    ranks: &[u16],
    commitments: &[Vec<u8>],
    decommitment_hashes: &[Vec<u8>],
    polynomials: &[PointPolynomial],
    sigmas: &[Scalar],
) -> (res: Result<Round2Output, Round2Error>)
    requires
        i < ranks@.len(),
        ranks@.len() <= u16::MAX,
        commitments@.len() == ranks@.len(),
        decommitment_hashes@.len() == ranks@.len(),
        polynomials@.len() == ranks@.len(),
        sigmas@.len() == ranks@.len(),
        polynomials@[i as int].coefficients().len() == t,
    ensures
        commitment_blame(i as int, commitments@, decommitment_hashes@, ranks@.len() as int).len() > 0
            ==> (res matches Err(Round2Error::InvalidDecommitment(b)) && b@ == commitment_blame(
            i as int,
            commitments@,
            decommitment_hashes@,
            ranks@.len() as int,
        )),
        commitment_blame(i as int, commitments@, decommitment_hashes@, ranks@.len() as int).len() == 0
            && size_blame(i as int, polynomials@, t as nat, ranks@.len() as int).len() > 0 ==> (res matches Err(
            Round2Error::InvalidDataSize(b),
        ) && b@ == size_blame(i as int, polynomials@, t as nat, ranks@.len() as int)),
        commitment_blame(i as int, commitments@, decommitment_hashes@, ranks@.len() as int).len() == 0
            && size_blame(i as int, polynomials@, t as nat, ranks@.len() as int).len() == 0
            && feldman_blame(i as int, ranks@[i as int] as nat, polynomials@, sigmas@, ranks@.len() as int).len()
            > 0 ==> (res matches Err(Round2Error::FeldmanVerificationFailed(b)) && b@ == feldman_blame(
            i as int,
            ranks@[i as int] as nat,
            polynomials@,
            sigmas@,
            ranks@.len() as int,
        )),
        commitment_blame(i as int, commitments@, decommitment_hashes@, ranks@.len() as int).len() == 0
            && size_blame(i as int, polynomials@, t as nat, ranks@.len() as int).len() == 0
            && feldman_blame(i as int, ranks@[i as int] as nat, polynomials@, sigmas@, ranks@.len() as int).len()
            == 0 ==> (some_share_zero(polynomials@, sigmas@, t as nat, ranks@) <==> res matches Err(
            Round2Error::ZeroShare,
        )),
        commitment_blame(i as int, commitments@, decommitment_hashes@, ranks@.len() as int).len() == 0
            && size_blame(i as int, polynomials@, t as nat, ranks@.len() as int).len() == 0
            && feldman_blame(i as int, ranks@[i as int] as nat, polynomials@, sigmas@, ranks@.len() as int).len()
            == 0 && !some_share_zero(polynomials@, sigmas@, t as nat, ranks@) ==> res is Ok,
        commitment_blame(i as int, commitments@, decommitment_hashes@, ranks@.len() as int).len() == 0
            && size_blame(i as int, polynomials@, t as nat, ranks@.len() as int).len() == 0 ==> forall|k: int, f: Seq<int>|
            0 <= k < ranks@.len() && k != i && #[trigger] commits_to(polynomials@[k].coefficients(), f)
                && sigmas@[k]@ == deriv_sum(f, ranks@[i as int] as nat, i + 1, f.len()) % group_order()
                ==> !feldman_fails(i as int, ranks@[i as int] as nat, polynomials@[k], sigmas@[k]),
        res matches Ok(out) ==> out.public_shares@.len() == ranks@.len() && (forall|l: int|
            0 <= l < ranks@.len() ==> #[trigger] out.public_shares@[l]@ == public_share(
                polynomials@,
                t as nat,
                ranks@,
                l,
            )) && out.secret_share@ == share_sum(sigmas@, ranks@.len() as int) % group_order(),
{
    let n = ranks.len();
    // decommitments
    let mut blame: Vec<u16> = Vec::new();
    let mut j: usize = 0;
    while j < n
        invariant
            n == ranks@.len(),
            n <= u16::MAX,
            commitments@.len() == n,
            decommitment_hashes@.len() == n,
            j <= n,
            blame@ == commitment_blame(i as int, commitments@, decommitment_hashes@, j as int),
        decreases n - j,
    {
        if j != i as usize && !same_bytes(&commitments[j], &decommitment_hashes[j]) {
            blame.push(j as u16);
        }
        j = j + 1;
    }
    if blame.len() > 0 {
        return Err(Round2Error::InvalidDecommitment(blame));
    }
    // sizes
    let mut blame: Vec<u16> = Vec::new();
    let mut j: usize = 0;
    while j < n
        invariant
            n == ranks@.len(),
            n <= u16::MAX,
            polynomials@.len() == n,
            j <= n,
            blame@ == size_blame(i as int, polynomials@, t as nat, j as int),
        decreases n - j,
    {
        let len = polynomials[j].len();
        let degree = if len == 0 { 0 } else { len - 1 };
        if j != i as usize && degree + 1 != t as usize {
            blame.push(j as u16);
        }
        j = j + 1;
    }
    if blame.len() > 0 {
        return Err(Round2Error::InvalidDataSize(blame));
    }
    // Feldman verification at this party's point and rank
    let x = Scalar::from_u64(i as u64 + 1);
    let rank = ranks[i as usize];
    let mut blame: Vec<u16> = Vec::new();
    let mut j: usize = 0;
    while j < n
        invariant
            n == ranks@.len(),
            n <= u16::MAX,
            polynomials@.len() == n,
            sigmas@.len() == n,
            x@ == i + 1,
            i < n,
            rank == ranks@[i as int],
            j <= n,
            blame@ == feldman_blame(i as int, rank as nat, polynomials@, sigmas@, j as int),
            derivatives_commit(i as int, rank as nat, polynomials@, j as int),
        decreases n - j,
    {
        let ghost j0 = j as int;
        if j != i as usize {
            let d = polynomials[j].nth_derivative_at(&x, rank as u64);
            proof {
                assert forall|q: int, f: Seq<int>|
                    0 <= q < j0 + 1 && q != i && #[trigger] commits_to(polynomials@[q].coefficients(), f)
                        implies point_derivative(polynomials@[q].coefficients(), i + 1, rank as nat)
                        == generator_times(deriv_sum(f, rank as nat, i + 1, f.len()) % group_order()) by {
                    if q == j0 {
                        assert(d@ == generator_times(deriv_sum(f, rank as nat, x@, f.len()) % group_order()));
                    }
                }
            }
            let g = Point::generator_times(&sigmas[j]);
            if !d.equals(&g) {
                blame.push(j as u16);
            }
        }
        j = j + 1;
    }
    if blame.len() > 0 {
        return Err(Round2Error::FeldmanVerificationFailed(blame));
    }
    // the summed public polynomial
    let summed = sum_polynomials(polynomials, t as usize);
    // public shares
    let mut ys: Vec<Point> = Vec::new();
    let mut l: usize = 0;
    while l < n
        invariant
            n == ranks@.len(),
            n <= u16::MAX,
            commitment_blame(i as int, commitments@, decommitment_hashes@, n as int).len() == 0,
            size_blame(i as int, polynomials@, t as nat, n as int).len() == 0,
            feldman_blame(i as int, ranks@[i as int] as nat, polynomials@, sigmas@, n as int).len() == 0,
            i < n,
            derivatives_commit(i as int, ranks@[i as int] as nat, polynomials@, n as int),
            summed.coefficients() == summed_polynomial(polynomials@, t as nat),
            l <= n,
            ys@.len() == l,
            forall|q: int| 0 <= q < l ==> #[trigger] ys@[q]@ == public_share(polynomials@, t as nat, ranks@, q),
            forall|q: int| 0 <= q < l ==> !is_identity(#[trigger] public_share(polynomials@, t as nat, ranks@, q)),
        decreases n - l,
    {
        let xl = Scalar::from_u64(l as u64 + 1);
        let y = summed.nth_derivative_at(&xl, ranks[l] as u64);
        if y.is_zero() {
            proof {
                assert(y@ == public_share(polynomials@, t as nat, ranks@, l as int));
                assert(is_identity(public_share(polynomials@, t as nat, ranks@, l as int)));
            }
            return Err(Round2Error::ZeroShare);
        }
        ys.push(y);
        l = l + 1;
    }
    // the secret share
    let mut sigma = Scalar::zero();
    let mut k: usize = 0;
    while k < n
        invariant
            commitment_blame(i as int, commitments@, decommitment_hashes@, n as int).len() == 0,
            size_blame(i as int, polynomials@, t as nat, n as int).len() == 0,
            feldman_blame(i as int, ranks@[i as int] as nat, polynomials@, sigmas@, n as int).len() == 0,
            i < n,
            derivatives_commit(i as int, ranks@[i as int] as nat, polynomials@, n as int),
            n == ranks@.len(),
            ys@.len() == n,
            forall|q: int| 0 <= q < n ==> #[trigger] ys@[q]@ == public_share(polynomials@, t as nat, ranks@, q),
            forall|q: int| 0 <= q < n ==> !is_identity(#[trigger] public_share(polynomials@, t as nat, ranks@, q)),
            n == sigmas@.len(),
            k <= n,
            sigma@ == share_sum(sigmas@, k as int) % group_order(),
        decreases n - k,
    {
        let next = sigma.plus(&sigmas[k]);
        proof {
            lemma_add_mod_noop(share_sum(sigmas@, k as int), sigmas@[k as int]@, group_order());
            lemma_mod_twice(sigmas@[k as int]@, group_order());
            crate::scalar::lemma_scalar_range(sigmas@[k as int]);
            lemma_small_mod(sigmas@[k as int]@ as nat, group_order() as nat);
        }
        sigma = next;
        k = k + 1;
    }
    if sigma.is_zero() {
        return Err(Round2Error::ZeroShare);
    }
    Ok(Round2Output { public_shares: ys, secret_share: sigma })
}

/// Why the last round of key generation was aborted.
#[derive(Debug)]
pub enum FinalizeError {
    /// Their Schnorr proofs do not verify; the parties to blame, in increasing order.
    InvalidSchnorrProof(Vec<u16>),
    /// The shared public key is the identity.
    ZeroPublicKey,
}

/// Whether a Schnorr proof `z` of knowledge of the discrete logarithm of `x`, with the
/// commitment `commit` and the challenge `e`, verifies: `z G == commit + e x`.
pub open spec fn schnorr_verifies(z: int, commit: Seq<u8>, e: int, x: Seq<u8>) -> bool {
    generator_times(z) == point_sum(commit, point_times(x, e))
}

/// `generic_ec_zkp`: `schnorr_pok::Proof::verify` on secp256k1, which accepts exactly when
/// `z * G == commit + e * x`.
#[verifier::external_body]
fn schnorr_proof_verify(z: &Scalar, commit: &Point, e: &Scalar, x: &Point) -> (r: bool)
    ensures
        r == schnorr_verifies(z@, commit@, e@, x@),
{
    let z = generic_ec::Scalar::<Secp256k1>::from_be_bytes(&z.bytes).expect("valid scalar");
    let e = generic_ec::Scalar::<Secp256k1>::from_be_bytes(&e.bytes).expect("valid scalar");
    let c = generic_ec::Point::<Secp256k1>::from_bytes(commit.to_bytes()).expect("valid point");
    let x = generic_ec::Point::<Secp256k1>::from_bytes(x.to_bytes()).expect("valid point");
    let proof = generic_ec_zkp::schnorr_pok::Proof(z);
    let challenge = generic_ec_zkp::schnorr_pok::Challenge { nonce: e };
    proof.verify(&generic_ec_zkp::schnorr_pok::Commit(c), &challenge, &x).is_ok()
}

/// The encodings of the points.
pub open spec fn encodings(points: Seq<Point>) -> Seq<Seq<u8>> {
    points.map_values(|p: Point| p@)
}

/// The other parties, before `k`, whose Schnorr proof does not verify against their public
/// share (given by its encoding).
pub open spec fn schnorr_blame(
    i: int,
    proofs: Seq<Scalar>,
    commits: Seq<Point>,
    challenges: Seq<Scalar>,
    shares: Seq<Seq<u8>>,
    k: int,
) -> Seq<u16>
    decreases k,
{
    if k <= 0 {
        Seq::empty()
    } else {
        let b = schnorr_blame(i, proofs, commits, challenges, shares, k - 1);
        if k - 1 != i && !schnorr_verifies(
            proofs[k - 1]@,
            commits[k - 1]@,
            challenges[k - 1]@,
            shares[k - 1],
        ) {
            b.push((k - 1) as u16)
        } else {
            b
        }
    }
}

/// The last round blames a party other than `i`, before or after it, exactly when its
/// Schnorr proof `z` does not satisfy `z G == commit + e X` for its commitment, challenge
/// `e` and public share `X`.
pub proof fn law_schnorr_blame(
    i: int,
    proofs: Seq<Scalar>,
    commits: Seq<Point>,
    challenges: Seq<Scalar>,
    shares: Seq<Seq<u8>>,
    k: int,
)
    requires
        0 <= k <= proofs.len(),
        k <= commits.len(),
        k <= challenges.len(),
        k <= shares.len(),
        k <= 65536,
    ensures
        forall|j: int|
            0 <= j < k ==> (#[trigger] schnorr_blame(i, proofs, commits, challenges, shares, k).contains(j as u16)
                <==> (j != i && generator_times(proofs[j]@) != point_sum(
                commits[j]@,
                point_times(shares[j], challenges[j]@),
            ))),
        forall|q: int|
            0 <= q < schnorr_blame(i, proofs, commits, challenges, shares, k).len() ==> #[trigger] schnorr_blame(
                i,
                proofs,
                commits,
                challenges,
                shares,
                k,
            )[q] < k,
    decreases k,
{
    if k > 0 {
        law_schnorr_blame(i, proofs, commits, challenges, shares, k - 1);
        lemma_blame_step(
            schnorr_blame(i, proofs, commits, challenges, shares, k - 1),
            schnorr_blame(i, proofs, commits, challenges, shares, k),
            k,
            k - 1 != i && !schnorr_verifies(proofs[k - 1]@, commits[k - 1]@, challenges[k - 1]@, shares[k - 1]),
        );
    }
}

/// The last checks of key generation and the shared public key: every other party's Schnorr
/// proof must verify against its public share (with the commitment it made in round 1 and
/// the challenge derived for it), and the shared public key, the sum of the constant
/// coefficients of all the public polynomials, must not be the identity.
pub fn finalize_key_generation(
    i: u16,
    polynomials: &[PointPolynomial],
    public_shares: &[Point],
    commits: &[Point],
    challenges: &[Scalar],
    proofs: &[Scalar],
) -> (res: Result<Point, FinalizeError>)
    requires
        i < polynomials@.len(),
        polynomials@.len() <= u16::MAX,
        public_shares@.len() == polynomials@.len(),
        commits@.len() == polynomials@.len(),
        challenges@.len() == polynomials@.len(),
        proofs@.len() == polynomials@.len(),
        forall|k: int| 0 <= k < polynomials@.len() ==> #[trigger] polynomials@[k].coefficients().len() > 0,
    ensures
        ({
            let n = polynomials@.len() as int;
            let b = schnorr_blame(i as int, proofs@, commits@, challenges@, encodings(public_shares@), n);
            let y = sum_coefficient(polynomials@, 0, n);
            &&& b.len() > 0 ==> (res matches Err(FinalizeError::InvalidSchnorrProof(v)) && v@ == b)
            &&& b.len() == 0 ==> (is_identity(y) <==> res matches Err(FinalizeError::ZeroPublicKey))
            &&& b.len() == 0 && !is_identity(y) ==> (res matches Ok(p) && p@ == y)
            &&& res matches Ok(p) ==> p@ == y
        }),
        forall|j: int|
            0 <= j < polynomials@.len() && j != i && #[trigger] generator_times(proofs@[j]@) != point_sum(
                commits@[j]@,
                point_times(public_shares@[j]@, challenges@[j]@),
            ) ==> (res matches Err(FinalizeError::InvalidSchnorrProof(b)) && b@.contains(j as u16)),
        res matches Err(FinalizeError::InvalidSchnorrProof(b)) ==> forall|j: int|
            0 <= j < polynomials@.len() ==> (#[trigger] b@.contains(j as u16) <==> (j != i && generator_times(
                proofs@[j]@,
            ) != point_sum(commits@[j]@, point_times(public_shares@[j]@, challenges@[j]@)))),
        (forall|j: int|
            0 <= j < polynomials@.len() && j != i ==> #[trigger] generator_times(proofs@[j]@) == point_sum(
                commits@[j]@,
                point_times(public_shares@[j]@, challenges@[j]@),
            )) && !is_identity(sum_coefficient(polynomials@, 0, polynomials@.len() as int)) ==> (res matches Ok(p)
            && p@ == sum_coefficient(polynomials@, 0, polynomials@.len() as int)),
{
    let res = check_proofs_and_sum_key(i, polynomials, public_shares, commits, challenges, proofs);
    proof {
        let n = polynomials@.len() as int;
        let sh = encodings(public_shares@);
        let b = schnorr_blame(i as int, proofs@, commits@, challenges@, sh, n);
        law_schnorr_blame(i as int, proofs@, commits@, challenges@, sh, n);
        assert forall|j: int|
            0 <= j < n && j != i && #[trigger] generator_times(proofs@[j]@) != point_sum(
                commits@[j]@,
                point_times(public_shares@[j]@, challenges@[j]@),
            ) implies (res matches Err(FinalizeError::InvalidSchnorrProof(v)) && v@.contains(j as u16)) by {
            assert(sh[j] == public_shares@[j]@);
            assert(b.contains(j as u16));
        }
        if forall|j: int|
            0 <= j < n && j != i ==> #[trigger] generator_times(proofs@[j]@) == point_sum(
                commits@[j]@,
                point_times(public_shares@[j]@, challenges@[j]@),
            ) {
            if b.len() > 0 {
                let x = b[0] as int;
                assert(b[0] < n);
                assert(b.contains(x as u16));
                assert(sh[x] == public_shares@[x]@);
                assert(generator_times(proofs@[x]@) == point_sum(
                    commits@[x]@,
                    point_times(public_shares@[x]@, challenges@[x]@),
                ));
            }
        }
        assert forall|j: int| 0 <= j < n implies #[trigger] sh[j] == public_shares@[j]@ by {}
    }
    res
}

/// The Schnorr checks and the sum of the shared public key.
fn check_proofs_and_sum_key(
    i: u16,
    polynomials: &[PointPolynomial],
    public_shares: &[Point],
    commits: &[Point],
    challenges: &[Scalar],
    proofs: &[Scalar],
) -> (res: Result<Point, FinalizeError>)
    requires
        i < polynomials@.len(),
        polynomials@.len() <= u16::MAX,
        public_shares@.len() == polynomials@.len(),
        commits@.len() == polynomials@.len(),
        challenges@.len() == polynomials@.len(),
        proofs@.len() == polynomials@.len(),
        forall|k: int| 0 <= k < polynomials@.len() ==> #[trigger] polynomials@[k].coefficients().len() > 0,
    ensures
        ({
            let n = polynomials@.len() as int;
            let b = schnorr_blame(i as int, proofs@, commits@, challenges@, encodings(public_shares@), n);
            let y = sum_coefficient(polynomials@, 0, n);
            &&& b.len() > 0 ==> (res matches Err(FinalizeError::InvalidSchnorrProof(v)) && v@ == b)
            &&& b.len() == 0 ==> (is_identity(y) <==> res matches Err(FinalizeError::ZeroPublicKey))
            &&& b.len() == 0 && !is_identity(y) ==> (res matches Ok(p) && p@ == y)
            &&& res matches Ok(p) ==> p@ == y
        }),
{
    let n = polynomials.len();
    let mut blame: Vec<u16> = Vec::new();
    let mut j: usize = 0;
    while j < n
        invariant
            n == polynomials@.len(),
            n <= u16::MAX,
            public_shares@.len() == n,
            commits@.len() == n,
            challenges@.len() == n,
            proofs@.len() == n,
            j <= n,
            blame@ == schnorr_blame(i as int, proofs@, commits@, challenges@, encodings(public_shares@), j as int),
        decreases n - j,
    {
        if j != i as usize && !schnorr_proof_verify(&proofs[j], &commits[j], &challenges[j], &public_shares[j]) {
            blame.push(j as u16);
        }
        j = j + 1;
    }
    if blame.len() > 0 {
        return Err(FinalizeError::InvalidSchnorrProof(blame));
    }
    let mut y = Point::zero();
    let mut k: usize = 0;
    while k < n
        invariant
            n == polynomials@.len(),
            forall|q: int| 0 <= q < n ==> #[trigger] polynomials@[q].coefficients().len() > 0,
            k <= n,
            y@ == sum_coefficient(polynomials@, 0, k as int),
        decreases n - k,
    {
        y = y.plus(polynomials[k].coefficient(0));
        k = k + 1;
    }
    if y.is_zero() {
        return Err(FinalizeError::ZeroPublicKey);
    }
    Ok(y)
}

/// Why threshold key generation could not make the key share.
#[derive(Debug)]
pub enum KeyShareError {
    /// A public share is zero.
    ZeroShare,
    /// Their Schnorr proofs do not verify; the parties to blame, in increasing order.
    InvalidSchnorrProof(Vec<u16>),
    /// The shared public key is the identity.
    ZeroPublicKey,
}

/// The key share that threshold key generation gives party `i`.
pub struct KeyShare {
    /// The index of the party.
    pub i: u16,
    /// The shared public key, the sum of the constant coefficients of all the public
    /// polynomials.
    pub shared_public_key: Point,
    /// The public share of every party.
    pub public_shares: Vec<Point>,
    /// How many parties must sign together.
    pub min_signers: u16,
    /// The point of every party's share: `l + 1` for party `l`.
    pub share_indexes: Vec<Scalar>,
    /// The secret share of party `i`.
    pub secret_share: Scalar,
}

/// The greatest number of coefficients among the first `k` polynomials.
pub open spec fn longest(polys: Seq<PointPolynomial>, k: int) -> nat
    decreases k,
{
    if k <= 0 {
        0
    } else {
        let r = longest(polys, k - 1);
        if polys[k - 1].coefficients().len() > r {
            polys[k - 1].coefficients().len()
        } else {
            r
        }
    }
}

/// The public shares of threshold key generation: party `l`'s is the sum of all the public
/// polynomials at `l + 1`.
pub open spec fn threshold_public_shares(polys: Seq<PointPolynomial>) -> Seq<Seq<u8>> {
    let c = summed_polynomial(polys, longest(polys, polys.len() as int));
    Seq::new(polys.len(), |l: int| point_derivative(c, l + 1, 0))
}

/// Makes party `i`'s key share at the end of threshold key generation, from every party's
/// public polynomial, Schnorr commitment, challenge and proof (party `j`'s at index `j`) and
/// this party's secret share `sigma`. The public share of party `l` is the sum of the
/// public polynomials at `l + 1`; it fails when one of them is zero. Then every other
/// party's Schnorr proof must verify against its public share, and the shared public key,
/// the sum of the constant coefficients, must not be the identity.
pub fn create_key_share(
    i: u16,
    t: u16,
    polynomials: &[PointPolynomial],
    commits: &[Point],
    challenges: &[Scalar],
    proofs: &[Scalar],
    sigma: &Scalar,
) -> (res: Result<KeyShare, KeyShareError>)
    requires
        i < polynomials@.len(),
        polynomials@.len() <= u16::MAX,
        commits@.len() == polynomials@.len(),
        challenges@.len() == polynomials@.len(),
        proofs@.len() == polynomials@.len(),
        forall|k: int| 0 <= k < polynomials@.len() ==> #[trigger] polynomials@[k].coefficients().len() > 0,
    ensures
        ({
            let n = polynomials@.len() as int;
            let ys = threshold_public_shares(polynomials@);
            let zero = exists|l: int| 0 <= l < n && is_identity(#[trigger] ys[l]);
            let b = schnorr_blame(i as int, proofs@, commits@, challenges@, ys, n);
            let y = sum_coefficient(polynomials@, 0, n);
            &&& zero <==> (res matches Err(KeyShareError::ZeroShare))
            &&& !zero && b.len() > 0 ==> (res matches Err(KeyShareError::InvalidSchnorrProof(v)) && v@ == b)
            &&& !zero && b.len() == 0 ==> (is_identity(y) <==> res matches Err(KeyShareError::ZeroPublicKey))
            &&& !zero && b.len() == 0 && !is_identity(y) ==> res is Ok
            &&& res matches Ok(ks) ==> (ks.i == i && ks.shared_public_key@ == y && encodings(ks.public_shares@)
                == ys && ks.min_signers == t && ks.share_indexes@.len() == n && (forall|l: int|
                0 <= l < n ==> #[trigger] ks.share_indexes@[l]@ == l + 1) && ks.secret_share@ == sigma@)
        }),
{
    let n = polynomials.len();
    let mut m: usize = 0;
    let mut k: usize = 0;
    while k < n
        invariant
            n == polynomials@.len(),
            k <= n,
            m == longest(polynomials@, k as int),
        decreases n - k,
    {
        if polynomials[k].len() > m {
            m = polynomials[k].len();
        }
        k = k + 1;
    }
    let summed = sum_polynomials(polynomials, m);
    let ghost ys_spec = threshold_public_shares(polynomials@);
    let mut ys: Vec<Point> = Vec::new();
    let mut l: usize = 0;
    while l < n
        invariant
            n == polynomials@.len(),
            n <= u16::MAX,
            summed.coefficients() == summed_polynomial(polynomials@, longest(polynomials@, n as int)),
            ys_spec == threshold_public_shares(polynomials@),
            l <= n,
            ys@.len() == l,
            forall|q: int| 0 <= q < l ==> #[trigger] ys@[q]@ == ys_spec[q],
            forall|q: int| 0 <= q < l ==> !is_identity(#[trigger] ys_spec[q]),
        decreases n - l,
    {
        let x = Scalar::from_u64(l as u64 + 1);
        let y = summed.nth_derivative_at(&x, 0);
        proof {
            assert(y@ == ys_spec[l as int]);
        }
        if y.is_zero() {
            return Err(KeyShareError::ZeroShare);
        }
        ys.push(y);
        l = l + 1;
    }
    proof {
        assert(encodings(ys@) =~= ys_spec);
    }
    let shared = match finalize_key_generation(i, polynomials, &ys, commits, challenges, proofs) {
        Err(FinalizeError::InvalidSchnorrProof(b)) => {
            return Err(KeyShareError::InvalidSchnorrProof(b));
        },
        Err(FinalizeError::ZeroPublicKey) => {
            return Err(KeyShareError::ZeroPublicKey);
        },
        Ok(y) => y,
    };
    let mut indexes: Vec<Scalar> = Vec::new();
    let mut q: usize = 0;
    while q < n
        invariant
            n <= u16::MAX,
            q <= n,
            indexes@.len() == q,
            forall|r: int| 0 <= r < q ==> #[trigger] indexes@[r]@ == r + 1,
        decreases n - q,
    {
        indexes.push(Scalar::from_u64(q as u64 + 1));
        q = q + 1;
    }
    Ok(
        KeyShare {
            i,
            shared_public_key: shared,
            public_shares: ys,
            min_signers: t,
            share_indexes: indexes,
            secret_share: sigma.clone(),
        },
    )
}

/// What a party of hierarchical key generation computes in round 1 from its secret
/// polynomial: the public polynomial it commits to and the share of every party.
pub struct Round1Shares {
    /// `f G`: coefficient `i` is `f_i G`.
    pub public_polynomial: PointPolynomial,
    /// For each party `j`, the derivative of order `ranks[j]` of `f` at `j + 1`.
    pub shares: Vec<Scalar>,
}

/// The public polynomial and the shares of round 1 for the secret polynomial with the
/// coefficients `coefs` (lowest degree first), which the caller draws at random.
pub fn round1_shares(coefs: &Vec<Scalar>, ranks: &[u16]) -> (r: Round1Shares)
    requires
        ranks@.len() < u64::MAX,
    ensures
        commits_to(r.public_polynomial.coefficients(), scalar_row(coefs@)),
        r.shares@.len() == ranks@.len(),
        forall|j: int|
            0 <= j < ranks@.len() ==> #[trigger] r.shares@[j]@ == deriv_sum(
                scalar_row(coefs@),
                ranks@[j] as nat,
                j + 1,
                coefs@.len(),
            ) % group_order(),
{
    let mut points: Vec<Point> = Vec::new();
    let mut copy: Vec<Scalar> = Vec::new();
    let mut k: usize = 0;
    while k < coefs.len()
        invariant
            k <= coefs@.len(),
            points@.len() == k,
            copy@.len() == k,
            forall|q: int| 0 <= q < k ==> #[trigger] copy@[q]@ == coefs@[q]@,
            forall|q: int| 0 <= q < k ==> #[trigger] points@[q]@ == generator_times(coefs@[q]@),
        decreases coefs.len() - k,
    {
        points.push(Point::generator_times(&coefs[k]));
        copy.push(coefs[k].clone());
        k = k + 1;
    }
    let public_polynomial = PointPolynomial::from_coefs(points);
    let f = Polynomial::from_coefs(copy);
    proof {
        assert(f.coefficients() =~= scalar_row(coefs@));
        assert forall|q: int| 0 <= q < coefs@.len() implies 0 <= #[trigger] scalar_row(coefs@)[q] < group_order()
            && public_polynomial.coefficients()[q] == generator_times(scalar_row(coefs@)[q]) by {
            crate::scalar::lemma_scalar_range(coefs@[q]);
        }
    }
    let mut shares: Vec<Scalar> = Vec::new();
    let mut j: usize = 0;
    while j < ranks.len()
        invariant
            ranks@.len() < u64::MAX,
            f.coefficients() == scalar_row(coefs@),
            j <= ranks@.len(),
            shares@.len() == j,
            forall|q: int|
                0 <= q < j ==> #[trigger] shares@[q]@ == deriv_sum(
                    scalar_row(coefs@),
                    ranks@[q] as nat,
                    q + 1,
                    coefs@.len(),
                ) % group_order(),
        decreases ranks.len() - j,
    {
        let x = Scalar::from_u64(j as u64 + 1);
        shares.push(f.nth_derivative_at(&x, ranks[j] as u64));
        j = j + 1;
    }
    Round1Shares { public_polynomial, shares }
}

/// The Schnorr proof of knowledge of `secret` with the ephemeral secret `nonce` and the
/// challenge `challenge`: `nonce + challenge * secret`, as `generic_ec_zkp`'s `prove`
/// computes it.
pub fn schnorr_prove(nonce: &Scalar, challenge: &Scalar, secret: &Scalar) -> (z: Scalar)
    ensures
        z@ == (nonce@ + (challenge@ * secret@) % group_order()) % group_order(),
{
    nonce.plus(&challenge.times(secret))
}

} // verus!

//! ECDSA signatures over secp256k1 and their byte encoding, partial signatures and their
//! combination, and the error types of the signing protocol that carry no protocol data.

use vstd::prelude::*;
use crate::scalar::{Scalar, NonZeroScalar, group_order, lemma_scalar_range, inverse_mod_order,
    lemma_inverse_unique};
use crate::integer::{be_nat, lemma_be_nat_bounds};
use vstd::slice::slice_subrange;
use crate::point::{Point, NonZeroPoint, generator_times, point_times, point_sum, is_identity,
    x_coordinate_scalar};

verus! {

/// Bug source in signing protocol
#[derive(Debug, Clone, Copy, PartialEq, Eq, Structural)]
#[allow(non_camel_case_types)]
pub enum BugSource {
    /// $K_i$ from round 1
    K_i,
    /// $G_i$ from round 1
    G_i,
    /// $psi_i$ from round 2
    psi_i,
    /// $gamma_i_times_K_j$ from round 2
    gamma_i_times_K_j,
    /// $neg_beta_ij_enc$ from round 2
    neg_beta_ij_enc,
    /// $D_ji$ from round 2
    D_ji,
    /// $F_ji$ from round 2
    F_ji,
    /// $x_i_times_K_j$ from round 2
    x_i_times_K_j,
    /// $neg_hat_beta_ij_enc$ from round 2
    neg_hat_beta_ij_enc,
    /// $hat_D_ji$ from round 2
    hat_D_ji,
    /// $hat_F_ji$ from round 2
    hat_F_ji,
    /// $psi_ji$ from round 2
    psi_ji,
    /// $hat_psi_ji$ from round 2
    hat_psi_ji,
    /// $alpha_ij$ from round 3
    alpha_ij,
    /// $hat_psi_i$ from round 3
    hat_psi_i,
    /// $hat_alpha_ij$ from round 3
    hat_alpha_ij,
}

/// Error indicating that signature is not valid for given public key and message
#[derive(Debug, Clone, Copy, PartialEq, Eq, Structural)]
pub struct InvalidSignature;

impl InvalidSignature {
    /// The error's message.
    pub fn message(&self) -> (r: String)
        ensures
            r@ == "signature is not valid"@,
    {
        "signature is not valid".to_owned()
    }
}

/// A (prehashed) data to be signed: a scalar that is the output of a cryptographic hash
/// function of the message, taken modulo the group order.
pub struct DataToSign(Scalar);

impl View for DataToSign {
    type V = int;

    closed spec fn view(&self) -> int {
        self.0@
    }
}

/// What SHA-256 gives for the bytes `data`.
pub uninterp spec fn sha256_digest(data: Seq<u8>) -> Seq<u8>;

/// `sha2`: `Sha256::digest`, the 32-byte SHA-256 hash of `data`.
#[verifier::external_body]
fn sha256(data: &[u8]) -> (r: Vec<u8>)
    ensures
        r@ == sha256_digest(data@),
        r@.len() == 32,
{
    <sha2::Sha256 as sha2::Digest>::digest(data).to_vec()
}

impl DataToSign {
    /// The data to be signed for the message `data`: its SHA-256 hash read as a big-endian
    /// integer, modulo the group order.
    pub fn digest(data: &[u8]) -> (r: DataToSign)
        ensures
            r@ == be_nat(sha256_digest(data@)) % group_order(),
    {
        let hash = sha256(data);
        DataToSign(Scalar::from_be_bytes_mod_order(&hash))
    }

    /// The data to be signed for the output `hash` of a digest: read as a big-endian integer,
    /// modulo the group order.
    pub fn from_digest(hash: &[u8]) -> (r: DataToSign)
        ensures
            r@ == be_nat(hash@) % group_order(),
    {
        DataToSign(Scalar::from_be_bytes_mod_order(hash))
    }

    /// The data to be signed held by `scalar`, which must be the output of a cryptographic
    /// hash function applied to the message.
    pub fn from_scalar(scalar: Scalar) -> (r: DataToSign)
        ensures
            r@ == scalar@,
    {
        DataToSign(scalar)
    }

    /// The scalar that represents the data to be signed.
    pub fn to_scalar(self) -> (r: Scalar)
        ensures
            r@ == self@,
    {
        self.0
    }
}

/// The sum of the `sigma_i` values of the first `k` partial signatures.
pub open spec fn sigma_sum(ps: Seq<PartialSignature>, k: nat) -> int
    decreases k,
{
    if k == 0 {
        0
    } else {
        sigma_sum(ps, (k - 1) as nat) + ps[k - 1].sigma_i@
    }
}

/// `s` or its negation modulo the group order, whichever is smaller.
pub open spec fn normalized_s(s: int) -> int {
    let neg = (group_order() - s) % group_order();
    if neg < s {
        neg
    } else {
        s
    }
}

/// Normalizing twice changes nothing more than normalizing once, and the normalized value
/// lies in the lower half: for `0 < s < n`, `normalized_s(s)` is `s` or `n - s`, and at most
/// `n / 2`.
pub proof fn law_normalize_s_idempotent(s: int)
    requires
        0 < s < group_order(),
    ensures
        normalized_s(normalized_s(s)) == normalized_s(s),
        2 * normalized_s(s) < group_order(),
        normalized_s(s) == s || normalized_s(s) == group_order() - s,
{
    let n = group_order();
    vstd::arithmetic::div_mod::lemma_small_mod((n - s) as nat, n as nat);
    let t = normalized_s(s);
    vstd::arithmetic::div_mod::lemma_small_mod((n - t) as nat, n as nat);
}

/// A partial signature issued by one signer; a threshold of them combine into a signature.
pub struct PartialSignature {
    /// The `r` component of the partial signature.
    pub r: Scalar,
    /// The `sigma` component of the partial signature.
    pub sigma_i: Scalar,
}

/// An ECDSA signature over secp256k1.
#[derive(PartialEq, Eq, PartialOrd, Ord, Debug)]
pub struct Signature {
    /// The `r` component of the signature.
    pub r: NonZeroScalar,
    /// The `s` component of the signature.
    pub s: NonZeroScalar,
}

impl Clone for Signature {
    fn clone(&self) -> (c: Self)
        ensures
            c.r@ == self.r@,
            c.s@ == self.s@,
    {
        Signature { r: self.r.clone(), s: self.s.clone() }
    }
}

impl PartialSignature {
    /// Combines partial signatures into a signature with the `r` of the first and the sum of
    /// the `sigma_i` as `s`, normalized. `None` when there are none, or when that `r` or the
    /// sum is zero. The signature may be invalid when a signer cheated: verify it.
    pub fn combine(partial_signatures: &[PartialSignature]) -> (res: Option<Signature>)
        ensures
            partial_signatures@.len() == 0 ==> res is None,
            partial_signatures@.len() > 0 ==> (res is Some <==> (partial_signatures@[0].r@ != 0 && sigma_sum(
                partial_signatures@,
                partial_signatures@.len(),
            ) % group_order() != 0)),
            res matches Some(sig) ==> sig.r@ == partial_signatures@[0].r@ && sig.s@ == normalized_s(
                sigma_sum(partial_signatures@, partial_signatures@.len()) % group_order(),
            ),
    {
        if partial_signatures.len() == 0 {
            return None;
        }
        let r = match NonZeroScalar::from_scalar(partial_signatures[0].r.clone()) {
            Some(v) => v,
            None => {
                return None;
            },
        };
        let ghost n = group_order();
        let mut sum = Scalar::zero();
        let mut i: usize = 0;
        while i < partial_signatures.len()
            invariant
                n == group_order(),
                i <= partial_signatures@.len(),
                sum@ == sigma_sum(partial_signatures@, i as nat) % n,
            decreases partial_signatures@.len() - i,
        {
            let next = sum.plus(&partial_signatures[i].sigma_i);
            proof {
                vstd::arithmetic::div_mod::lemma_add_mod_noop(
                    sigma_sum(partial_signatures@, i as nat),
                    partial_signatures@[i as int].sigma_i@,
                    n,
                );
                lemma_scalar_range(partial_signatures@[i as int].sigma_i);
                vstd::arithmetic::div_mod::lemma_small_mod(partial_signatures@[i as int].sigma_i@ as nat, n as nat);
                vstd::arithmetic::div_mod::lemma_mod_twice(sigma_sum(partial_signatures@, i as nat), n);
            }
            sum = next;
            i = i + 1;
        }
        let s = match NonZeroScalar::from_scalar(sum) {
            Some(v) => v,
            None => {
                return None;
            },
        };
        Some(Signature { r, s }.normalize_s())
    }
}

/// The bytes hold two 32-byte big-endian values in `(0, group_order())`, `r` then `s`.
pub open spec fn signature_bytes_valid(b: Seq<u8>) -> bool {
    &&& b.len() == 64
    &&& 0 < be_nat(b.subrange(0, 32)) < group_order()
    &&& 0 < be_nat(b.subrange(32, 64)) < group_order()
}

impl Signature {
    /// The signature with the components `r` and `s`.
    pub fn from_raw_parts(r: NonZeroScalar, s: NonZeroScalar) -> (sig: Signature)
        ensures
            sig.r@ == r@,
            sig.s@ == s@,
    {
        Signature { r, s }
    }

    /// The signature with `s` replaced by its negation when that is smaller: `(r, s)` and
    /// `(r, -s)` are both valid, and this picks `s` in the lower half.
    pub fn normalize_s(self) -> (sig: Signature)
        ensures
            sig.r@ == self.r@,
            sig.s@ == normalized_s(self.s@),
            2 * sig.s@ < group_order(),
    {
        let s_scalar = self.s.as_scalar();
        let neg_s = s_scalar.negated();
        proof {
            lemma_scalar_range(*s_scalar);
        }
        if neg_s.less_than(s_scalar) {
            let s = match NonZeroScalar::from_scalar(neg_s) {
                Some(v) => v,
                None => {
                    return self;
                },
            };
            Signature { r: self.r, s }
        } else {
            self
        }
    }

    /// The size of the encoding of a signature: two 32-byte scalars.
    pub fn serialized_len() -> (r: usize)
        ensures
            r == 64,
    {
        2 * 32
    }

    /// Writes `r` then `s` as 32 big-endian bytes each into the first 64 bytes of `out`;
    /// leaves a shorter `out` as it is. What it writes is read back by `read_from_slice`.
    pub fn write_to_slice(&self, out: &mut [u8])
        ensures
            final(out)@.len() == old(out)@.len(),
            old(out)@.len() < 64 ==> final(out)@ == old(out)@,
            old(out)@.len() >= 64 ==> {
                &&& be_nat(final(out)@.subrange(0, 32)) == self.r@
                &&& be_nat(final(out)@.subrange(32, 64)) == self.s@
                &&& final(out)@.subrange(64, old(out)@.len() as int) == old(out)@.subrange(64, old(out)@.len() as int)
                &&& signature_bytes_valid(final(out)@.subrange(0, 64))
            },
    {
        if out.len() < Self::serialized_len() {
            return;
        }
        let r_scalar = self.r.as_scalar();
        let s_scalar = self.s.as_scalar();
        let r_bytes = r_scalar.to_be_bytes();
        let s_bytes = s_scalar.to_be_bytes();
        proof {
            lemma_scalar_range(*r_scalar);
            lemma_scalar_range(*s_scalar);
        }
        let ghost start = out@;
        let mut k: usize = 0;
        while k < 32
            invariant
                out@.len() == start.len(),
                start.len() >= 64,
                r_bytes@.len() == 32,
                s_bytes@.len() == 32,
                k <= 32,
                forall|t: int| 0 <= t < k ==> #[trigger] out@[t] == r_bytes@[t],
                forall|t: int| 0 <= t < k ==> #[trigger] out@[t + 32] == s_bytes@[t],
                forall|t: int| 64 <= t < start.len() ==> #[trigger] out@[t] == start[t],
            decreases 32 - k,
        {
            out[k] = r_bytes[k];
            out[k + 32] = s_bytes[k];
            k = k + 1;
        }
        proof {
            assert(out@.subrange(0, 32) =~= r_bytes@);
            assert forall|t: int| 0 <= t < 32 implies #[trigger] out@.subrange(32, 64)[t] == s_bytes@[t] by {
                assert(out@[t + 32] == s_bytes@[t]);
            }
            assert(out@.subrange(32, 64) =~= s_bytes@);
            assert(out@.subrange(64, start.len() as int) =~= start.subrange(64, start.len() as int));
            assert(out@.subrange(0, 64).subrange(0, 32) =~= out@.subrange(0, 32));
            assert(out@.subrange(0, 64).subrange(32, 64) =~= out@.subrange(32, 64));
        }
    }

    /// The signature encoded by `inp`: exactly 64 bytes, `r` then `s` in 32 big-endian bytes
    /// each, neither zero nor as large as the group order; `None` otherwise.
    pub fn read_from_slice(inp: &[u8]) -> (res: Option<Signature>)
        ensures
            res is Some <==> signature_bytes_valid(inp@),
            res matches Some(sig) ==> sig.r@ == be_nat(inp@.subrange(0, 32)) && sig.s@ == be_nat(
                inp@.subrange(32, 64),
            ),
    {
        if inp.len() != Self::serialized_len() {
            return None;
        }
        let half = inp.len() / 2;
        let r_bytes = slice_subrange(inp, 0, half);
        let s_bytes = slice_subrange(inp, half, inp.len());
        let r = match Scalar::from_be_bytes(r_bytes) {
            Some(v) => v,
            None => {
                return None;
            },
        };
        let r = match NonZeroScalar::from_scalar(r) {
            Some(v) => v,
            None => {
                proof {
                    lemma_be_nat_bounds(inp@.subrange(0, 32));
                }
                return None;
            },
        };
        let s = match Scalar::from_be_bytes(s_bytes) {
            Some(v) => v,
            None => {
                return None;
            },
        };
        let s = match NonZeroScalar::from_scalar(s) {
            Some(v) => v,
            None => {
                proof {
                    lemma_be_nat_bounds(inp@.subrange(32, 64));
                }
                return None;
            },
        };
        proof {
            lemma_be_nat_bounds(inp@.subrange(0, 32));
            lemma_be_nat_bounds(inp@.subrange(32, 64));
        }
        Some(Self::from_raw_parts(r, s))
    }
}

/// The point `(m G + r P) s^-1` that the verification of the signature `(r, s)` of the
/// message `m` under the public key `P` computes.
pub open spec fn verification_point(public_key: Seq<u8>, m: int, r: int, s: int) -> Seq<u8> {
    point_times(point_sum(generator_times(m), point_times(public_key, r)), inverse_mod_order(s))
}

impl Signature {
    /// Verifies the signature of `message` under `public_key`: the point
    /// `(m G + r P) s^-1` must not be the identity, and its x-coordinate modulo the group
    /// order must be `r`.
    pub fn verify(&self, public_key: &Point, message: &DataToSign) -> (res: Result<(), InvalidSignature>)
        ensures
            res is Ok <==> (!is_identity(verification_point(public_key@, message@, self.r@, self.s@))
                && self.r@ == x_coordinate_scalar(
                verification_point(public_key@, message@, self.r@, self.s@),
            )),
    {
        let g_m = Point::generator_times(&message.0);
        let p_r = public_key.times(self.r.as_scalar());
        let sum = g_m.plus(&p_r);
        let s_scalar = self.s.as_scalar();
        let s_inv = match s_scalar.invert() {
            Some(v) => v,
            None => {
                return Err(InvalidSignature);
            },
        };
        proof {
            lemma_scalar_range(s_inv);
            lemma_inverse_unique(self.s@, s_inv@);
        }
        let r_point = sum.times(&s_inv);
        let r_point = match NonZeroPoint::from_point(r_point) {
            Some(p) => p,
            None => {
                return Err(InvalidSignature);
            },
        };
        let x = r_point.x_scalar();
        if self.r.as_scalar().equals(&x) {
            Ok(())
        } else {
            Err(InvalidSignature)
        }
    }
}

/// A presignature: with it a signer issues a partial signature without talking to the
/// others. It must never be used twice.
#[allow(non_snake_case)]
pub struct Presignature {
    /// `Gamma = G * gamma`
    pub Gamma: NonZeroPoint,
    /// The share `k_i` scaled by `delta^-1`
    pub hat_k_i: Scalar,
    /// The share `chi_i` scaled by `delta^-1`
    pub hat_chi_i: Scalar,
    /// The points `Delta_j` scaled by `delta^-1`
    pub hat_Delta_j: Vec<Point>,
    /// The points `S_j` scaled by `delta^-1`
    pub hat_S_j: Vec<Point>,
}

impl Presignature {
    /// Issues the partial signature of `message_to_sign`: `r` is the x-coordinate of
    /// `Gamma` and `sigma_i = hat_k_i m + r hat_chi_i`, modulo the group order.
    pub fn issue_partial_signature(self, message_to_sign: DataToSign) -> (p: PartialSignature)
        ensures
            p.r@ == x_coordinate_scalar(self.Gamma@),
            p.sigma_i@ == (self.hat_k_i@ * message_to_sign@ + x_coordinate_scalar(self.Gamma@)
                * self.hat_chi_i@) % group_order(),
    {
        let r = self.Gamma.x_scalar();
        let m = message_to_sign.to_scalar();
        let km = self.hat_k_i.times(&m);
        let rc = r.times(&self.hat_chi_i);
        let sigma_i = km.plus(&rc);
        proof {
            let n = group_order();
            vstd::arithmetic::div_mod::lemma_add_mod_noop(self.hat_k_i@ * m@, r@ * self.hat_chi_i@, n);
        }
        PartialSignature { r, sigma_i }
    }
}

} // verus!

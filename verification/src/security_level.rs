//! Security levels of the protocol: the sizes of exponents and of Paillier keys that they
//! demand.

use vstd::prelude::*;
use crate::integer::{Integer, abs, bit_len, big_bits};

verus! {

/// Hardcoded value of the security parameter `m`.
pub const M: usize = 128;

/// Hardcoded size in bits of the Paillier public key.
pub const N_SIZE: u32 = 3072;

/// Hardcoded size in bits of the Paillier secret key `alpha`.
pub const A_SIZE: u32 = 512;

/// The parameters of a security level.
pub struct SecurityLevelParams {
    /// Security bits `kappa`
    pub security_bits: u32,
    /// `epsilon` bits
    pub epsilon: usize,
    /// `ell` parameter
    pub ell: usize,
    /// `ell'` parameter
    pub ell_prime: usize,
    /// Size of the Paillier public key
    pub n_size: u32,
    /// Size of the Paillier secret key `alpha`
    pub a_size: u32,
    /// How much smaller than `n_size` the public key may be
    pub epsilon_n_size: u32,
    /// How much smaller than `n_size / 2` the prime `p` may be
    pub epsilon_p_size: u32,
    /// How much smaller than `n_size / 2` the prime `q` may be
    pub epsilon_q_size: u32,
    /// How much smaller than `a_size` the secret key `alpha` may be
    pub epsilon_a_size: u32,
}

/// The sizes `(x_bits, y_bits)` of the exponents `x` and `y` in `s^x t^y mod N`.
pub open spec fn exponents_size(l: SecurityLevelParams) -> (int, int) {
    let a = (l.ell as u32) + (l.epsilon as u32) + 4 * l.security_bits;
    let b = ((l.ell_prime + l.epsilon) as u32) as int;
    (if a >= b { a } else { b }, ((l.ell + l.epsilon) as u32) + 8 * l.security_bits)
}

/// Determines the max size of exponents: during the protocol `s^x t^y mod N` is computed
/// often; given the security level, `x` and `y` have at most `(x_bits, y_bits)` bits.
pub fn max_exponents_size(l: &SecurityLevelParams) -> (r: (u32, u32))
    requires
        (l.ell as u32) + (l.epsilon as u32) + 4 * l.security_bits <= u32::MAX,
        l.ell + l.epsilon <= usize::MAX,
        l.ell_prime + l.epsilon <= usize::MAX,
        ((l.ell + l.epsilon) as u32) + 8 * l.security_bits <= u32::MAX,
    ensures
        r.0 == exponents_size(*l).0,
        r.1 == exponents_size(*l).1,
{
    let a = (l.ell as u32) + (l.epsilon as u32) + 4 * l.security_bits;
    let b = (l.ell_prime + l.epsilon) as u32;
    let x_bits = if a >= b { a } else { b };
    let y_bits = ((l.ell + l.epsilon) as u32) + 8 * l.security_bits;
    (x_bits, y_bits)
}

/// Whether the Paillier public key `n` has at least `n_size - epsilon_n_size` bits.
pub fn validate_public_paillier_key_size(l: &SecurityLevelParams, n: &Integer) -> (r: bool)
    requires
        l.epsilon_n_size <= l.n_size,
    ensures
        r == (bit_len(abs(n@)) >= l.n_size - l.epsilon_n_size),
{
    big_bits(n) >= (l.n_size - l.epsilon_n_size) as u64
}

/// Whether the Paillier secret key `(p, q, alpha)` is large enough: `p` and `q` of at least
/// `n_size / 2` bits, less their epsilons, and `alpha` of at least `a_size - epsilon_a_size`.
pub fn validate_secret_paillier_key_size(
    l: &SecurityLevelParams,
    p: &Integer,
    q: &Integer,
    alpha: &Integer,
) -> (r: bool)
    requires
        l.epsilon_p_size <= l.n_size / 2,
        l.epsilon_q_size <= l.n_size / 2,
        l.epsilon_a_size <= l.a_size,
    ensures
        r == (bit_len(abs(p@)) >= l.n_size / 2 - l.epsilon_p_size && bit_len(abs(q@)) >= l.n_size
            / 2 - l.epsilon_q_size && bit_len(abs(alpha@)) >= l.a_size - l.epsilon_a_size),
{
    big_bits(p) >= (l.n_size / 2 - l.epsilon_p_size) as u64 && big_bits(q) >= (l.n_size / 2
        - l.epsilon_q_size) as u64 && big_bits(alpha) >= (l.a_size - l.epsilon_a_size) as u64
}

} // verus!

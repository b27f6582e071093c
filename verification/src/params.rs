//! The parameter rules of the key generation, key refresh and signing protocols, and the
//! errors that report a broken rule.

use vstd::prelude::*;
use vstd::string::*;
use crate::integer::{Integer, decimal_string};

verus! {

/// Invalid parameters of the threshold key generation.
#[derive(Debug, Clone, Copy, PartialEq, Eq, Structural)]
pub enum KeygenParameterError {
    /// Party index must be less than the number of parties
    InvalidPartyIndex {
        /// Party index
        i: u16,
        /// Number of parties
        n: u16,
    },
    /// Number of parties must be at least 2
    TooFewParties(u16),
    /// Threshold must be at least 1
    ThresholdTooSmall(u16),
    /// Threshold must not exceed the number of parties
    ThresholdTooLarge {
        /// Threshold
        t: u16,
        /// Number of parties
        n: u16,
    },
}

/// Invalid parameters of the hierarchical threshold key generation.
#[derive(Debug, Clone, Copy, PartialEq, Eq, Structural)]
pub enum HierarchicalThresholdKeygenParameterError {
    /// Party index must be less than the number of parties
    InvalidPartyIndex {
        /// Party index
        i: u16,
        /// Number of parties
        n: u16,
    },
    /// Number of parties must be at least 2
    TooFewParties(u16),
    /// Threshold must be at least 1
    ThresholdTooSmall(u16),
    /// Threshold must not exceed the number of parties
    ThresholdTooLarge {
        /// Threshold
        t: u16,
        /// Number of parties
        n: u16,
    },
    /// Ranks vector must have exactly n elements
    InvalidRanksLength {
        /// Expected length
        n: u16,
        /// Actual length
        len: usize,
    },
    /// All ranks must be less than t
    InvalidRank {
        /// Threshold
        t: u16,
        /// Invalid rank
        rank: u16,
    },
}

/// Invalid parameters of the auxiliary information generation.
#[derive(Debug, Clone, Copy, PartialEq, Eq, Structural)]
pub enum AuxGenParameterError {
    /// Party index must be less than the number of parties
    InvalidPartyIndex {
        /// Party index
        i: u16,
        /// Number of parties
        n: u16,
    },
    /// Number of parties must be at least 2
    TooFewParties(u16),
}

/// Invalid parameters of the signing protocol.
#[derive(Debug, Clone, Copy, PartialEq, Eq, Structural)]
pub enum SigningParameterError {
    /// Party index is invalid
    InvalidPartyIndex {
        /// Party index
        i: u16,
        /// Number of parties
        n: u16,
    },
    /// Too few parties for the protocol
    TooFewParties(u16),
    /// Mismatched amount of parties for threshold
    MismatchedAmountOfParties,
    /// Invalid sub-index
    InvalidSubIndex,
}

/// The outcome of the threshold key generation's parameter rules, checked in order: the
/// party index is below `n`, `n >= 2`, `t >= 1`, `t <= n`.
pub open spec fn keygen_parameters_outcome(i: u16, t: u16, n: u16) -> Result<(), KeygenParameterError> {
    if i >= n {
        Err(KeygenParameterError::InvalidPartyIndex { i, n })
    } else if n < 2 {
        Err(KeygenParameterError::TooFewParties(n))
    } else if t < 1 {
        Err(KeygenParameterError::ThresholdTooSmall(t))
    } else if t > n {
        Err(KeygenParameterError::ThresholdTooLarge { t, n })
    } else {
        Ok(())
    }
}

/// Index of the first rank that is not below `t`, if any.
pub open spec fn first_rank_not_below(ranks: Seq<u16>, t: u16) -> Option<int> {
    if exists|k: int| 0 <= k < ranks.len() && #[trigger] ranks[k] >= t {
        Some(
            choose|k: int|
                0 <= k < ranks.len() && #[trigger] ranks[k] >= t && forall|j: int|
                    0 <= j < k ==> #[trigger] ranks[j] < t,
        )
    } else {
        None
    }
}

/// The outcome of the hierarchical key generation's parameter rules: those of the
/// threshold key generation, then exactly `n` ranks, each below `t`.
pub open spec fn hierarchical_parameters_outcome(i: u16, t: u16, ranks: Seq<u16>, n: u16) -> Result<
    (),
    HierarchicalThresholdKeygenParameterError,
> {
    if i >= n {
        Err(HierarchicalThresholdKeygenParameterError::InvalidPartyIndex { i, n })
    } else if n < 2 {
        Err(HierarchicalThresholdKeygenParameterError::TooFewParties(n))
    } else if t < 1 {
        Err(HierarchicalThresholdKeygenParameterError::ThresholdTooSmall(t))
    } else if t > n {
        Err(HierarchicalThresholdKeygenParameterError::ThresholdTooLarge { t, n })
    } else if ranks.len() != n {
        Err(HierarchicalThresholdKeygenParameterError::InvalidRanksLength { n, len: ranks.len() as usize })
    } else {
        match first_rank_not_below(ranks, t) {
            Some(k) => Err(HierarchicalThresholdKeygenParameterError::InvalidRank { t, rank: ranks[k] }),
            None => Ok(()),
        }
    }
}

/// The outcome of the auxiliary information generation's parameter rules.
pub open spec fn aux_gen_parameters_outcome(i: u16, n: u16) -> Result<(), AuxGenParameterError> {
    if i >= n {
        Err(AuxGenParameterError::InvalidPartyIndex { i, n })
    } else if n < 2 {
        Err(AuxGenParameterError::TooFewParties(n))
    } else {
        Ok(())
    }
}

/// The outcome of the signing protocol's parameter rules, for a key shared among
/// `n_parties` parties of which `min_signers` (all, when absent) must sign: the number of
/// parties fits in 16 bits, at least the threshold of parties sign, the party index is
/// within the signers, and every signer is one of the parties.
pub open spec fn signing_parameters_outcome(
    i: u16,
    signing_parties: Seq<u16>,
    n_parties: nat,
    min_signers: Option<u16>,
) -> Result<(), SigningParameterError> {
    if n_parties > u16::MAX {
        Err(SigningParameterError::TooFewParties(0))
    } else {
        let n = n_parties as u16;
        let t = match min_signers {
            Some(t) => t,
            None => n,
        };
        if signing_parties.len() < t {
            Err(SigningParameterError::MismatchedAmountOfParties)
        } else if !(i < signing_parties.len()) {
            Err(SigningParameterError::InvalidPartyIndex { i, n: signing_parties.len() as u16 })
        } else if exists|k: int| 0 <= k < signing_parties.len() && #[trigger] signing_parties[k] >= n {
            Err(SigningParameterError::InvalidSubIndex)
        } else {
            Ok(())
        }
    }
}

/// Checks the parameters of the threshold key generation: party index `i`, threshold `t`
/// and number of parties `n`.
pub fn validate_keygen_parameters(i: u16, t: u16, n: u16) -> (res: Result<(), KeygenParameterError>)
    ensures
        res == keygen_parameters_outcome(i, t, n),
        res is Ok <==> (i < n && 2 <= n && 1 <= t && t <= n),
        i < n && 2 <= n && 1 <= t && n < t ==> res == Err::<(), KeygenParameterError>(
            KeygenParameterError::ThresholdTooLarge { t, n },
        ),
{
    if i >= n {
        return Err(KeygenParameterError::InvalidPartyIndex { i, n });
    }
    if n < 2 {
        return Err(KeygenParameterError::TooFewParties(n));
    }
    if t < 1 {
        return Err(KeygenParameterError::ThresholdTooSmall(t));
    }
    if t > n {
        return Err(KeygenParameterError::ThresholdTooLarge { t, n });
    }
    Ok(())
}

/// Checks the parameters of the hierarchical threshold key generation: those of the
/// threshold key generation, and one rank below `t` per party.
pub fn validate_hierarchical_keygen_parameters(i: u16, t: u16, ranks: &[u16], n: u16) -> (res: Result<
    (),
    HierarchicalThresholdKeygenParameterError,
>)
    ensures
        res == hierarchical_parameters_outcome(i, t, ranks@, n),
        res is Ok <==> (i < n && 2 <= n && 1 <= t && t <= n && ranks@.len() == n && forall|k: int|
            0 <= k < ranks@.len() ==> #[trigger] ranks@[k] < t),
        i < n && 2 <= n && 1 <= t && n < t ==> res == Err::<(), HierarchicalThresholdKeygenParameterError>(
            HierarchicalThresholdKeygenParameterError::ThresholdTooLarge { t, n },
        ),
{
    if i >= n {
        return Err(HierarchicalThresholdKeygenParameterError::InvalidPartyIndex { i, n });
    }
    if n < 2 {
        return Err(HierarchicalThresholdKeygenParameterError::TooFewParties(n));
    }
    if t < 1 {
        return Err(HierarchicalThresholdKeygenParameterError::ThresholdTooSmall(t));
    }
    if t > n {
        return Err(HierarchicalThresholdKeygenParameterError::ThresholdTooLarge { t, n });
    }
    if ranks.len() != n as usize {
        return Err(
            HierarchicalThresholdKeygenParameterError::InvalidRanksLength { n, len: ranks.len() },
        );
    }
    let mut k: usize = 0;
    while k < ranks.len()
        invariant
            i < n,
            n >= 2,
            t >= 1,
            t <= n,
            ranks@.len() == n,
            k <= ranks@.len(),
            forall|j: int| 0 <= j < k ==> #[trigger] ranks@[j] < t,
        decreases ranks@.len() - k,
    {
        let rank = ranks[k];
        if rank >= t {
            proof {
                assert(0 <= k < ranks@.len() && ranks@[k as int] >= t && forall|j: int|
                    0 <= j < k ==> #[trigger] ranks@[j] < t);
                let w = choose|w: int|
                    0 <= w < ranks@.len() && #[trigger] ranks@[w] >= t && forall|j: int|
                        0 <= j < w ==> #[trigger] ranks@[j] < t;
                assert(ranks@[k as int] >= t);
                if w < k {
                    assert(ranks@[w] < t);
                } else if w > k {
                    assert(ranks@[k as int] < t);
                }
            }
            return Err(HierarchicalThresholdKeygenParameterError::InvalidRank { t, rank });
        }
        k = k + 1;
    }
    Ok(())
}

/// Checks the parameters of the auxiliary information generation: party index `i` and
/// number of parties `n`.
pub fn validate_aux_gen_parameters(i: u16, n: u16) -> (res: Result<(), AuxGenParameterError>)
    ensures
        res == aux_gen_parameters_outcome(i, n),
        res is Ok <==> (i < n && 2 <= n),
{
    if i >= n {
        return Err(AuxGenParameterError::InvalidPartyIndex { i, n });
    }
    if n < 2 {
        return Err(AuxGenParameterError::TooFewParties(n));
    }
    Ok(())
}

/// Checks the parameters of the signing protocol: the party's index `i` among the signers,
/// the signers' indexes among the key's `n_parties` parties, and the key's threshold
/// `min_signers` (all parties when absent).
pub fn validate_signing_parameters(
    i: u16,
    signing_parties: &[u16],
    n_parties: usize,
    min_signers: Option<u16>,
) -> (res: Result<(), SigningParameterError>)
    ensures
        res == signing_parameters_outcome(i, signing_parties@, n_parties as nat, min_signers),
        res is Ok <==> (n_parties <= u16::MAX && signing_parties@.len() >= (match min_signers {
            Some(t) => t as int,
            None => n_parties as int,
        }) && i < signing_parties@.len() && forall|k: int|
            0 <= k < signing_parties@.len() ==> #[trigger] signing_parties@[k] < n_parties),
{
    if n_parties > u16::MAX as usize {
        return Err(SigningParameterError::TooFewParties(0));
    }
    let n = n_parties as u16;
    let t = match min_signers {
        Some(t) => t,
        None => n,
    };
    if signing_parties.len() < t as usize {
        return Err(SigningParameterError::MismatchedAmountOfParties);
    }
    if !((i as usize) < signing_parties.len()) {
        return Err(
            SigningParameterError::InvalidPartyIndex { i, n: signing_parties.len() as u16 },
        );
    }
    let mut k: usize = 0;
    while k < signing_parties.len()
        invariant
            n_parties <= u16::MAX,
            n == n_parties,
            t == (match min_signers {
                Some(t) => t,
                None => n,
            }),
            signing_parties@.len() >= t,
            i < signing_parties@.len(),
            k <= signing_parties@.len(),
            forall|j: int| 0 <= j < k ==> #[trigger] signing_parties@[j] < n,
        decreases signing_parties@.len() - k,
    {
        if signing_parties[k] >= n {
            proof {
                assert(signing_parties@[k as int] >= n);
            }
            return Err(SigningParameterError::InvalidSubIndex);
        }
        k = k + 1;
    }
    Ok(())
}

/// Threshold key generation accepts exactly the parameters with a party index below the
/// number of parties, at least two parties and a threshold from 1 to the number of parties
/// (an n-of-n key among them); a threshold above the number of parties, the other rules
/// holding, is refused as too large.
pub proof fn law_keygen_parameters(i: u16, t: u16, n: u16)
    ensures
        keygen_parameters_outcome(i, t, n) is Ok <==> (i < n && 2 <= n && 1 <= t && t <= n),
        i < n && 2 <= n && 1 <= t && n < t ==> keygen_parameters_outcome(i, t, n) == Err::<
            (),
            KeygenParameterError,
        >(KeygenParameterError::ThresholdTooLarge { t, n }),
{
}

/// Hierarchical key generation accepts exactly the parameters of threshold key generation
/// that come with one rank per party, each below the threshold.
pub proof fn law_hierarchical_keygen_parameters(i: u16, t: u16, ranks: Seq<u16>, n: u16)
    ensures
        hierarchical_parameters_outcome(i, t, ranks, n) is Ok <==> (i < n && 2 <= n && 1 <= t && t <= n
            && ranks.len() == n && forall|k: int| 0 <= k < ranks.len() ==> #[trigger] ranks[k] < t),
        i < n && 2 <= n && 1 <= t && n < t ==> hierarchical_parameters_outcome(i, t, ranks, n) == Err::<
            (),
            HierarchicalThresholdKeygenParameterError,
        >(HierarchicalThresholdKeygenParameterError::ThresholdTooLarge { t, n }),
{
    if i < n && 2 <= n && 1 <= t && t <= n && ranks.len() == n {
        if exists|k: int| 0 <= k < ranks.len() && #[trigger] ranks[k] >= t {
            let k = choose|k: int| 0 <= k < ranks.len() && #[trigger] ranks[k] >= t;
            lemma_first_rank_exists(ranks, t, k);
        }
    }
}

/// When some rank is not below `t`, there is a first one.
proof fn lemma_first_rank_exists(ranks: Seq<u16>, t: u16, k: int)
    requires
        0 <= k < ranks.len(),
        ranks[k] >= t,
    ensures
        exists|w: int|
            0 <= w < ranks.len() && #[trigger] ranks[w] >= t && forall|j: int| 0 <= j < w ==> #[trigger] ranks[j] < t,
    decreases k,
{
    if exists|j: int| 0 <= j < k && #[trigger] ranks[j] >= t {
        let j = choose|j: int| 0 <= j < k && #[trigger] ranks[j] >= t;
        lemma_first_rank_exists(ranks, t, j);
    } else {
        assert(forall|j: int| 0 <= j < k ==> #[trigger] ranks[j] < t);
    }
}

/// Auxiliary information generation accepts exactly a party index below the number of
/// parties, with at least two parties.
pub proof fn law_aux_gen_parameters(i: u16, n: u16)
    ensures
        aux_gen_parameters_outcome(i, n) is Ok <==> (i < n && 2 <= n),
{
}

/// Signing accepts exactly: a key of at most 2^16 - 1 parties, at least its threshold of
/// signers (all parties when it has none), the party's index among the signers, and signers
/// that are all parties of the key.
pub proof fn law_signing_parameters(i: u16, signing_parties: Seq<u16>, n_parties: nat, min_signers: Option<u16>)
    ensures
        signing_parameters_outcome(i, signing_parties, n_parties, min_signers) is Ok <==> (n_parties
            <= u16::MAX && signing_parties.len() >= (match min_signers {
            Some(t) => t as int,
            None => n_parties as int,
        }) && i < signing_parties.len() && forall|k: int|
            0 <= k < signing_parties.len() ==> #[trigger] signing_parties[k] < n_parties),
{
}

} // verus!

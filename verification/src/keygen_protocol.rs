//! The parties of threshold and hierarchical threshold key generation, made from checked
//! parameters. What the rounds compute (shares, public shares, proofs) is handed to the
//! functions of `keygen` as arguments, the random values among them drawn by the caller.

use vstd::prelude::*;
use crate::execution_id::ExecutionId;
use crate::params::{
    validate_keygen_parameters, validate_hierarchical_keygen_parameters, keygen_parameters_outcome,
    hierarchical_parameters_outcome, KeygenParameterError, HierarchicalThresholdKeygenParameterError,
};

verus! {

/// What a party of threshold key generation holds from the start.
pub struct KeygenState {
    /// The index of the party.
    pub i: u16,
    /// How many parties must sign together.
    pub t: u16,
    /// The number of parties.
    pub n: u16,
    /// The execution ID that every party shares.
    pub sid: ExecutionId<'static>,
    /// Whether broadcasts are checked to have reached every party alike.
    pub reliable_broadcast_enforced: bool,
    /// Whether the key supports HD derivation.
    pub hd_enabled: bool,
}

/// A party of threshold key generation.
pub struct KeygenProtocol {
    /// Its state.
    pub state: KeygenState,
}

impl KeygenProtocol {
    /// The party `i` of `n`, with threshold `t`, once the parameters pass their rules.
    pub fn new(
        i: u16,
        t: u16,
        n: u16,
        sid: ExecutionId<'static>,
        reliable_broadcast_enforced: bool,
        hd_enabled: bool,
    ) -> (res: Result<KeygenProtocol, KeygenParameterError>)
        ensures
            keygen_parameters_outcome(i, t, n) matches Err(e) ==> res == Err::<KeygenProtocol, _>(e),
            keygen_parameters_outcome(i, t, n) is Ok ==> (res matches Ok(p) && p.state == KeygenState {
                i,
                t,
                n,
                sid,
                reliable_broadcast_enforced,
                hd_enabled,
            }),
    {
        match validate_keygen_parameters(i, t, n) {
            Err(e) => Err(e),
            Ok(()) => Ok(
                KeygenProtocol { state: KeygenState { i, t, n, sid, reliable_broadcast_enforced, hd_enabled } },
            ),
        }
    }
}

/// What a party of hierarchical threshold key generation holds from the start.
pub struct HierarchicalThresholdKeygenState {
    /// The index of the party.
    pub i: u16,
    /// The threshold.
    pub t: u16,
    /// The rank of every party.
    pub ranks: Vec<u16>,
    /// The number of parties.
    pub n: u16,
    /// The execution ID that every party shares.
    pub sid: ExecutionId<'static>,
    /// Whether broadcasts are checked to have reached every party alike.
    pub reliable_broadcast_enforced: bool,
    /// Whether the key supports HD derivation.
    pub hd_enabled: bool,
}

/// A party of hierarchical threshold key generation.
pub struct HierarchicalThresholdKeygenProtocol {
    /// Its state.
    pub state: HierarchicalThresholdKeygenState,
}

impl HierarchicalThresholdKeygenProtocol {
    /// The party `i` of `n`, with threshold `t` and the parties' ranks, once the parameters
    /// pass their rules.
    pub fn new(
        i: u16,
        t: u16,
        ranks: Vec<u16>,
        n: u16,
        sid: ExecutionId<'static>,
        reliable_broadcast_enforced: bool,
        hd_enabled: bool,
    ) -> (res: Result<HierarchicalThresholdKeygenProtocol, HierarchicalThresholdKeygenParameterError>)
        ensures
            hierarchical_parameters_outcome(i, t, ranks@, n) matches Err(e) ==> res
                == Err::<HierarchicalThresholdKeygenProtocol, _>(e),
            hierarchical_parameters_outcome(i, t, ranks@, n) is Ok ==> (res matches Ok(p) && p.state.i == i
                && p.state.t == t && p.state.ranks@ == ranks@ && p.state.n == n && p.state.sid == sid
                && p.state.reliable_broadcast_enforced == reliable_broadcast_enforced && p.state.hd_enabled
                == hd_enabled),
    {
        match validate_hierarchical_keygen_parameters(i, t, ranks.as_slice(), n) {
            Err(e) => Err(e),
            Ok(()) => Ok(
                HierarchicalThresholdKeygenProtocol {
                    state: HierarchicalThresholdKeygenState {
                        i,
                        t,
                        ranks,
                        n,
                        sid,
                        reliable_broadcast_enforced,
                        hd_enabled,
                    },
                },
            ),
        }
    }
}

} // verus!

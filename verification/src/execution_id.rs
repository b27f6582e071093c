//! Protocol execution ids, and the inputs whose digests separate the proofs of one
//! execution from those of another.

use vstd::prelude::*;

verus! {

/// Protocol execution ID
///
/// Each protocol execution must have a unique execution ID. All signers taking part in the
/// protocol must share the same execution ID, otherwise the protocol aborts.
#[derive(Clone, Copy, Debug)]
pub struct ExecutionId<'id> {
    id: &'id [u8],
}

/// `Box::leak` of the boxed slice made from `v`: a reference to its bytes that lives as long
/// as the program.
#[verifier::external_body]
fn leak_bytes(v: Vec<u8>) -> (r: &'static [u8])
    ensures
        r@ == v@,
{
    Box::leak(v.into_boxed_slice())
}

impl<'id> ExecutionId<'id> {
    /// The bytes of the id.
    pub closed spec fn bytes(&self) -> Seq<u8> {
        self.id@
    }

    /// Constructs an execution ID from bytes.
    pub fn new(eid: &'id [u8]) -> (r: ExecutionId<'id>)
        ensures
            r.bytes() == eid@,
    {
        ExecutionId { id: eid }
    }

    /// Constructs an execution ID with a static lifetime from a copy of the bytes, which is
    /// never freed.
    pub fn new_static(eid: &[u8]) -> (r: ExecutionId<'static>)
        ensures
            r.bytes() == eid@,
    {
        let copy = vstd::slice::slice_to_vec(eid);
        ExecutionId { id: leak_bytes(copy) }
    }

    /// The bytes that represent the execution ID.
    pub fn as_bytes(&self) -> (r: &'id [u8])
        ensures
            r@ == self.bytes(),
    {
        self.id
    }
}

/// Input of the challenge of the ring-Pedersen parameters proof.
pub struct ProofPrm<'a> {
    /// The execution
    pub sid: ExecutionId<'a>,
    /// The prover
    pub prover: u16,
}

/// Input of the challenge of the Blum modulus proof.
pub struct ProofMod<'a> {
    /// The execution
    pub sid: ExecutionId<'a>,
    /// The common random bytes
    pub rho: &'a [u8],
    /// The prover
    pub prover: u16,
}

/// Input of the challenge of the no-small-factor proof.
pub struct ProofFac<'a> {
    /// The execution
    pub sid: ExecutionId<'a>,
    /// The common random bytes
    pub rho: &'a [u8],
    /// The prover
    pub prover: u16,
}

/// Input of the challenge of the encryption-in-range proof.
pub struct ProofEnc<'a> {
    /// The execution
    pub sid: ExecutionId<'a>,
    /// The prover
    pub prover: u16,
}

/// Input of the challenge of the affine-operation proof.
pub struct ProofPsi<'a> {
    /// The execution
    pub sid: ExecutionId<'a>,
    /// The prover
    pub prover: u16,
    /// Whether the proof is for the second (hat) operation
    pub hat: bool,
}

/// Input of the challenge of the group-element-vs-ciphertext proof.
pub struct ProofLog<'a> {
    /// The execution
    pub sid: ExecutionId<'a>,
    /// The prover
    pub prover: u16,
    /// Whether the proof is the one of the last round
    pub prime_prime: bool,
}

} // verus!

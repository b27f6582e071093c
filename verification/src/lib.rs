//! Threshold-signature support library: arbitrary-precision integers, modular matrix
//! algebra, Birkhoff interpolation over big integers and over the secp256k1 scalar field,
//! polynomial derivatives, the rounds of threshold and hierarchical key generation (shares
//! and commitments, the checks of round 2, Schnorr proofs, the key share), the conversion of
//! hierarchical and threshold shares into additive ones for signing, ECDSA signatures and
//! their combination from partial signatures, blame collection, and the parameter rules of
//! the key generation, key refresh and signing protocols.

pub mod integer;
pub mod linalg;
pub mod error;
pub mod birkhoff_error;
pub mod matrix;
pub mod scalar;
pub mod point;
pub mod birkhoff_matrix;
pub mod birkhoff_coefficient;
pub mod polynomial;
pub mod keygen;
pub mod keygen_protocol;
pub mod ec_point;
pub mod interpolation;
pub mod recovery;
pub mod params;
pub mod utils;
pub mod execution_id;
pub mod signing;
pub mod share_conversion;
pub mod protocol;
pub mod security_level;

use vstd::prelude::*;

verus! {

} // verus!

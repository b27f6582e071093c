//! Errors of the Birkhoff interpolation and matrix algebra.

use vstd::prelude::*;

verus! {

/// Error types for the Birkhoff interpolation module.
#[derive(Debug, PartialEq, Eq)]
pub enum Error {
    /// The threshold is larger than the number of Birkhoff parameters.
    EqualOrLargerThreshold,
    /// No combination of the Birkhoff parameters can recover the secret.
    NoValidBks,
    /// The Birkhoff parameters are invalid (e.g. a parameter is repeated).
    InvalidBks,
    /// A requested Birkhoff parameter does not exist.
    NoExistBk,
    /// The computed public key differs from the expected one.
    InconsistentPubKey,
    /// A matrix operation failed, with a description.
    MatrixError(String),
    /// An elliptic-curve point operation failed, with a description.
    ECPointError(String),
    /// The field order is invalid (e.g. too small).
    InvalidFieldOrder,
}

/// `e` is a matrix error with the text `msg`.
pub open spec fn matrix_error(e: Error, msg: Seq<char>) -> bool {
    e matches Error::MatrixError(s) && s@ == msg
}

/// `e` is an elliptic-curve point error with the text `msg`.
pub open spec fn ec_point_error(e: Error, msg: Seq<char>) -> bool {
    e matches Error::ECPointError(s) && s@ == msg
}

} // verus!

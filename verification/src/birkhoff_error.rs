//! Errors of the generic-curve Birkhoff computations, with their messages.

use vstd::prelude::*;
use vstd::string::*;
use crate::integer::{Integer, decimal_string};

verus! {

/// Error types of the Birkhoff computations.
#[derive(Debug, PartialEq, Eq, Structural)]
pub enum BirkhoffError {
    /// Error when an element is not invertible
    ElementNotInvertible {
        row: usize,
        col: usize,
    },
    /// Error when the ranks and xs have different lengths
    MismatchedLengths {
        ranks_len: usize,
        xs_len: usize,
    },
    /// Error when a coefficient is 0 in the birkhoff matrix
    ZeroCoefficient,
    /// Error when a row/column index is out of bounds
    IndexOutOfBounds {
        index: usize,
        max_index: usize,
    },
    /// Error when the matrix is not square
    NotSquareMatrix {
        rows: usize,
        cols: usize,
    },
    /// Error when the matrix is not diagonal
    NotDiagonalMatrix,
    /// Error when the matrix is not invertible
    NotInvertibleMatrix,
    /// Error when the matrix dimensions do not match for multiplication
    MatrixDimensionsMismatch {
        self_rows: usize,
        self_cols: usize,
        other_rows: usize,
        other_cols: usize,
    },
    /// Error when the rows have different lengths
    RowsDifferentLengths {
        row1_len: usize,
        row2_len: usize,
    },
    /// Error when the matrix is not invertible during Gauss elimination
    GaussEliminationFailed,
    /// Error when the matrix is not invertible during matrix inversion
    MatrixInversionFailed,
    /// Error when the matrix is not invertible during pseudo-inverse calculation
    PseudoInverseFailed,
    /// Error when the matrix is not invertible during multi-inverse-diagonal calculation
    MultiInverseDiagonalFailed,
    /// Error when the matrix is not invertible during mod-inverse calculation
    ModInverseFailed,
    /// Error when the matrix is not invertible during polynomial interpolation
    PolynomialInterpolationFailed,
    /// Error when the matrix is not invertible during birkhoff coefficient calculation
    BirkhoffCoefficientFailed,
}

/// Result type of the Birkhoff computations.
pub type BirkhoffResult<T> = Result<T, BirkhoffError>;

/// The message of an error.
pub open spec fn birkhoff_error_text(e: BirkhoffError) -> Seq<char> {
    match e {
        BirkhoffError::ElementNotInvertible { row, col } => "Element is not invertible: row="@ + decimal_string(row as int) + ", col="@ + decimal_string(col as int),
        BirkhoffError::MismatchedLengths { ranks_len, xs_len } => "Ranks and xs have different lengths: ranks_len="@ + decimal_string(ranks_len as int) + ", xs_len="@ + decimal_string(xs_len as int),
        BirkhoffError::ZeroCoefficient => "Coefficient is 0"@,
        BirkhoffError::IndexOutOfBounds { index, max_index } => "Row/column index out of bounds: index="@ + decimal_string(index as int) + ", max_index="@ + decimal_string(max_index as int),
        BirkhoffError::NotSquareMatrix { rows, cols } => "Matrix is not square: rows="@ + decimal_string(rows as int) + ", cols="@ + decimal_string(cols as int),
        BirkhoffError::NotDiagonalMatrix => "Matrix is not diagonal"@,
        BirkhoffError::NotInvertibleMatrix => "Matrix is not invertible"@,
        BirkhoffError::MatrixDimensionsMismatch { self_rows, self_cols, other_rows, other_cols } => "Matrix dimensions do not match for multiplication: self_rows="@ + decimal_string(self_rows as int) + ", self_cols="@ + decimal_string(self_cols as int) + ", other_rows="@ + decimal_string(other_rows as int) + ", other_cols="@ + decimal_string(other_cols as int),
        BirkhoffError::RowsDifferentLengths { row1_len, row2_len } => "Rows have different lengths: row1_len="@ + decimal_string(row1_len as int) + ", row2_len="@ + decimal_string(row2_len as int),
        BirkhoffError::GaussEliminationFailed => "Gauss elimination failed"@,
        BirkhoffError::MatrixInversionFailed => "Matrix inversion failed"@,
        BirkhoffError::PseudoInverseFailed => "Pseudo-inverse calculation failed"@,
        BirkhoffError::MultiInverseDiagonalFailed => "Multi-inverse-diagonal calculation failed"@,
        BirkhoffError::ModInverseFailed => "Mod-inverse calculation failed"@,
        BirkhoffError::PolynomialInterpolationFailed => "Polynomial interpolation failed"@,
        BirkhoffError::BirkhoffCoefficientFailed => "Birkhoff coefficient calculation failed"@,
    }
}

/// The error that `from_str_error` gives for a text.
pub open spec fn birkhoff_error_of_text(s: Seq<char>) -> BirkhoffError {
    if s == "Element is not invertible"@ {
        BirkhoffError::ElementNotInvertible { row: 0, col: 0 }
    } else if s == "Ranks and xs have different lengths"@ {
        BirkhoffError::MismatchedLengths { ranks_len: 0, xs_len: 0 }
    } else if s == "Coefficient is 0"@ {
        BirkhoffError::ZeroCoefficient
    } else if s == "Row/column index out of bounds"@ {
        BirkhoffError::IndexOutOfBounds { index: 0, max_index: 0 }
    } else if s == "Matrix is not square"@ {
        BirkhoffError::NotSquareMatrix { rows: 0, cols: 0 }
    } else if s == "Matrix is not diagonal"@ {
        BirkhoffError::NotDiagonalMatrix
    } else if s == "Matrix is not invertible"@ {
        BirkhoffError::NotInvertibleMatrix
    } else if s == "Matrix dimensions do not match for multiplication"@ {
        BirkhoffError::MatrixDimensionsMismatch { self_rows: 0, self_cols: 0, other_rows: 0, other_cols: 0 }
    } else if s == "Rows have different lengths"@ {
        BirkhoffError::RowsDifferentLengths { row1_len: 0, row2_len: 0 }
    } else if s == "Gauss elimination failed"@ {
        BirkhoffError::GaussEliminationFailed
    } else if s == "Matrix inversion failed"@ {
        BirkhoffError::MatrixInversionFailed
    } else if s == "Pseudo-inverse calculation failed"@ {
        BirkhoffError::PseudoInverseFailed
    } else if s == "Multi-inverse-diagonal calculation failed"@ {
        BirkhoffError::MultiInverseDiagonalFailed
    } else if s == "Mod-inverse calculation failed"@ {
        BirkhoffError::ModInverseFailed
    } else if s == "Polynomial interpolation failed"@ {
        BirkhoffError::PolynomialInterpolationFailed
    } else if s == "Birkhoff coefficient calculation failed"@ {
        BirkhoffError::BirkhoffCoefficientFailed
    } else {
        BirkhoffError::BirkhoffCoefficientFailed
    }
}

impl BirkhoffError {
    /// The error's message, with its numbers in decimal.
    pub fn message(&self) -> (r: String)
        ensures
            r@ == birkhoff_error_text(*self),
    {
        match self {
            BirkhoffError::ElementNotInvertible { row, col } => {
                let mut s = "Element is not invertible: row=".to_owned();
                s.append(usize_decimal(*row).as_str());
                s.append(", col=");
                s.append(usize_decimal(*col).as_str());
                s
            },
            BirkhoffError::MismatchedLengths { ranks_len, xs_len } => {
                let mut s = "Ranks and xs have different lengths: ranks_len=".to_owned();
                s.append(usize_decimal(*ranks_len).as_str());
                s.append(", xs_len=");
                s.append(usize_decimal(*xs_len).as_str());
                s
            },
            BirkhoffError::ZeroCoefficient => "Coefficient is 0".to_owned(),
            BirkhoffError::IndexOutOfBounds { index, max_index } => {
                let mut s = "Row/column index out of bounds: index=".to_owned();
                s.append(usize_decimal(*index).as_str());
                s.append(", max_index=");
                s.append(usize_decimal(*max_index).as_str());
                s
            },
            BirkhoffError::NotSquareMatrix { rows, cols } => {
                let mut s = "Matrix is not square: rows=".to_owned();
                s.append(usize_decimal(*rows).as_str());
                s.append(", cols=");
                s.append(usize_decimal(*cols).as_str());
                s
            },
            BirkhoffError::NotDiagonalMatrix => "Matrix is not diagonal".to_owned(),
            BirkhoffError::NotInvertibleMatrix => "Matrix is not invertible".to_owned(),
            BirkhoffError::MatrixDimensionsMismatch { self_rows, self_cols, other_rows, other_cols } => {
                let mut s = "Matrix dimensions do not match for multiplication: self_rows=".to_owned();
                s.append(usize_decimal(*self_rows).as_str());
                s.append(", self_cols=");
                s.append(usize_decimal(*self_cols).as_str());
                s.append(", other_rows=");
                s.append(usize_decimal(*other_rows).as_str());
                s.append(", other_cols=");
                s.append(usize_decimal(*other_cols).as_str());
                s
            },
            BirkhoffError::RowsDifferentLengths { row1_len, row2_len } => {
                let mut s = "Rows have different lengths: row1_len=".to_owned();
                s.append(usize_decimal(*row1_len).as_str());
                s.append(", row2_len=");
                s.append(usize_decimal(*row2_len).as_str());
                s
            },
            BirkhoffError::GaussEliminationFailed => "Gauss elimination failed".to_owned(),
            BirkhoffError::MatrixInversionFailed => "Matrix inversion failed".to_owned(),
            BirkhoffError::PseudoInverseFailed => "Pseudo-inverse calculation failed".to_owned(),
            BirkhoffError::MultiInverseDiagonalFailed => "Multi-inverse-diagonal calculation failed".to_owned(),
            BirkhoffError::ModInverseFailed => "Mod-inverse calculation failed".to_owned(),
            BirkhoffError::PolynomialInterpolationFailed => "Polynomial interpolation failed".to_owned(),
            BirkhoffError::BirkhoffCoefficientFailed => "Birkhoff coefficient calculation failed".to_owned(),
        }
    }
}

/// The decimal text of `n`.
fn usize_decimal(n: usize) -> (r: String)
    ensures
        r@ == decimal_string(n as int),
{
    Integer::from_u64(n as u64).to_decimal()
}

/// Whether two texts are equal.
fn same_text(a: &str, b: &str) -> (r: bool)
    ensures
        r == (a@ == b@),
{
    a.to_owned() == b.to_owned()
}

/// The error named by a message text; any other text gives `BirkhoffCoefficientFailed`.
pub fn from_str_error(msg: &'static str) -> (r: BirkhoffError)
    ensures
        r == birkhoff_error_of_text(msg@),
{
    if same_text(msg, "Element is not invertible") {
        BirkhoffError::ElementNotInvertible { row: 0, col: 0 }
    } else if same_text(msg, "Ranks and xs have different lengths") {
        BirkhoffError::MismatchedLengths { ranks_len: 0, xs_len: 0 }
    } else if same_text(msg, "Coefficient is 0") {
        BirkhoffError::ZeroCoefficient
    } else if same_text(msg, "Row/column index out of bounds") {
        BirkhoffError::IndexOutOfBounds { index: 0, max_index: 0 }
    } else if same_text(msg, "Matrix is not square") {
        BirkhoffError::NotSquareMatrix { rows: 0, cols: 0 }
    } else if same_text(msg, "Matrix is not diagonal") {
        BirkhoffError::NotDiagonalMatrix
    } else if same_text(msg, "Matrix is not invertible") {
        BirkhoffError::NotInvertibleMatrix
    } else if same_text(msg, "Matrix dimensions do not match for multiplication") {
        BirkhoffError::MatrixDimensionsMismatch { self_rows: 0, self_cols: 0, other_rows: 0, other_cols: 0 }
    } else if same_text(msg, "Rows have different lengths") {
        BirkhoffError::RowsDifferentLengths { row1_len: 0, row2_len: 0 }
    } else if same_text(msg, "Gauss elimination failed") {
        BirkhoffError::GaussEliminationFailed
    } else if same_text(msg, "Matrix inversion failed") {
        BirkhoffError::MatrixInversionFailed
    } else if same_text(msg, "Pseudo-inverse calculation failed") {
        BirkhoffError::PseudoInverseFailed
    } else if same_text(msg, "Multi-inverse-diagonal calculation failed") {
        BirkhoffError::MultiInverseDiagonalFailed
    } else if same_text(msg, "Mod-inverse calculation failed") {
        BirkhoffError::ModInverseFailed
    } else if same_text(msg, "Polynomial interpolation failed") {
        BirkhoffError::PolynomialInterpolationFailed
    } else if same_text(msg, "Birkhoff coefficient calculation failed") {
        BirkhoffError::BirkhoffCoefficientFailed
    } else {
        BirkhoffError::BirkhoffCoefficientFailed
    }
}

/// The message of an error without fields names that error: `from_str_error` gives it back.
pub proof fn law_message_names_its_error(e: BirkhoffError)
    requires
        !(e is ElementNotInvertible || e is MismatchedLengths || e is IndexOutOfBounds || e is NotSquareMatrix
            || e is MatrixDimensionsMismatch || e is RowsDifferentLengths),
    ensures
        birkhoff_error_of_text(birkhoff_error_text(e)) == e,
{
    match e {
        BirkhoffError::ZeroCoefficient => {
            reveal_strlit("Coefficient is 0");
            reveal_strlit("Element is not invertible");
            assert("Coefficient is 0"@.len() != "Element is not invertible"@.len());
            reveal_strlit("Ranks and xs have different lengths");
            assert("Coefficient is 0"@.len() != "Ranks and xs have different lengths"@.len());
        },
        BirkhoffError::NotDiagonalMatrix => {
            reveal_strlit("Matrix is not diagonal");
            reveal_strlit("Element is not invertible");
            assert("Matrix is not diagonal"@.len() != "Element is not invertible"@.len());
            reveal_strlit("Ranks and xs have different lengths");
            assert("Matrix is not diagonal"@.len() != "Ranks and xs have different lengths"@.len());
            reveal_strlit("Coefficient is 0");
            assert("Matrix is not diagonal"@.len() != "Coefficient is 0"@.len());
            reveal_strlit("Row/column index out of bounds");
            assert("Matrix is not diagonal"@.len() != "Row/column index out of bounds"@.len());
            reveal_strlit("Matrix is not square");
            assert("Matrix is not diagonal"@.len() != "Matrix is not square"@.len());
        },
        BirkhoffError::NotInvertibleMatrix => {
            reveal_strlit("Matrix is not invertible");
            reveal_strlit("Element is not invertible");
            assert("Matrix is not invertible"@.len() != "Element is not invertible"@.len());
            reveal_strlit("Ranks and xs have different lengths");
            assert("Matrix is not invertible"@.len() != "Ranks and xs have different lengths"@.len());
            reveal_strlit("Coefficient is 0");
            assert("Matrix is not invertible"@.len() != "Coefficient is 0"@.len());
            reveal_strlit("Row/column index out of bounds");
            assert("Matrix is not invertible"@.len() != "Row/column index out of bounds"@.len());
            reveal_strlit("Matrix is not square");
            assert("Matrix is not invertible"@.len() != "Matrix is not square"@.len());
            reveal_strlit("Matrix is not diagonal");
            assert("Matrix is not invertible"@.len() != "Matrix is not diagonal"@.len());
        },
        BirkhoffError::GaussEliminationFailed => {
            reveal_strlit("Gauss elimination failed");
            reveal_strlit("Element is not invertible");
            assert("Gauss elimination failed"@.len() != "Element is not invertible"@.len());
            reveal_strlit("Ranks and xs have different lengths");
            assert("Gauss elimination failed"@.len() != "Ranks and xs have different lengths"@.len());
            reveal_strlit("Coefficient is 0");
            assert("Gauss elimination failed"@.len() != "Coefficient is 0"@.len());
            reveal_strlit("Row/column index out of bounds");
            assert("Gauss elimination failed"@.len() != "Row/column index out of bounds"@.len());
            reveal_strlit("Matrix is not square");
            assert("Gauss elimination failed"@.len() != "Matrix is not square"@.len());
            reveal_strlit("Matrix is not diagonal");
            assert("Gauss elimination failed"@.len() != "Matrix is not diagonal"@.len());
            reveal_strlit("Matrix is not invertible");
            assert("Gauss elimination failed"@[0] != "Matrix is not invertible"@[0]);
            reveal_strlit("Matrix dimensions do not match for multiplication");
            assert("Gauss elimination failed"@.len() != "Matrix dimensions do not match for multiplication"@.len());
            reveal_strlit("Rows have different lengths");
            assert("Gauss elimination failed"@.len() != "Rows have different lengths"@.len());
        },
        BirkhoffError::MatrixInversionFailed => {
            reveal_strlit("Matrix inversion failed");
            reveal_strlit("Element is not invertible");
            assert("Matrix inversion failed"@.len() != "Element is not invertible"@.len());
            reveal_strlit("Ranks and xs have different lengths");
            assert("Matrix inversion failed"@.len() != "Ranks and xs have different lengths"@.len());
            reveal_strlit("Coefficient is 0");
            assert("Matrix inversion failed"@.len() != "Coefficient is 0"@.len());
            reveal_strlit("Row/column index out of bounds");
            assert("Matrix inversion failed"@.len() != "Row/column index out of bounds"@.len());
            reveal_strlit("Matrix is not square");
            assert("Matrix inversion failed"@.len() != "Matrix is not square"@.len());
            reveal_strlit("Matrix is not diagonal");
            assert("Matrix inversion failed"@.len() != "Matrix is not diagonal"@.len());
            reveal_strlit("Matrix is not invertible");
            assert("Matrix inversion failed"@.len() != "Matrix is not invertible"@.len());
            reveal_strlit("Matrix dimensions do not match for multiplication");
            assert("Matrix inversion failed"@.len() != "Matrix dimensions do not match for multiplication"@.len());
            reveal_strlit("Rows have different lengths");
            assert("Matrix inversion failed"@.len() != "Rows have different lengths"@.len());
            reveal_strlit("Gauss elimination failed");
            assert("Matrix inversion failed"@.len() != "Gauss elimination failed"@.len());
        },
        BirkhoffError::PseudoInverseFailed => {
            reveal_strlit("Pseudo-inverse calculation failed");
            reveal_strlit("Element is not invertible");
            assert("Pseudo-inverse calculation failed"@.len() != "Element is not invertible"@.len());
            reveal_strlit("Ranks and xs have different lengths");
            assert("Pseudo-inverse calculation failed"@.len() != "Ranks and xs have different lengths"@.len());
            reveal_strlit("Coefficient is 0");
            assert("Pseudo-inverse calculation failed"@.len() != "Coefficient is 0"@.len());
            reveal_strlit("Row/column index out of bounds");
            assert("Pseudo-inverse calculation failed"@.len() != "Row/column index out of bounds"@.len());
            reveal_strlit("Matrix is not square");
            assert("Pseudo-inverse calculation failed"@.len() != "Matrix is not square"@.len());
            reveal_strlit("Matrix is not diagonal");
            assert("Pseudo-inverse calculation failed"@.len() != "Matrix is not diagonal"@.len());
            reveal_strlit("Matrix is not invertible");
            assert("Pseudo-inverse calculation failed"@.len() != "Matrix is not invertible"@.len());
            reveal_strlit("Matrix dimensions do not match for multiplication");
            assert("Pseudo-inverse calculation failed"@.len() != "Matrix dimensions do not match for multiplication"@.len());
            reveal_strlit("Rows have different lengths");
            assert("Pseudo-inverse calculation failed"@.len() != "Rows have different lengths"@.len());
            reveal_strlit("Gauss elimination failed");
            assert("Pseudo-inverse calculation failed"@.len() != "Gauss elimination failed"@.len());
            reveal_strlit("Matrix inversion failed");
            assert("Pseudo-inverse calculation failed"@.len() != "Matrix inversion failed"@.len());
        },
        BirkhoffError::MultiInverseDiagonalFailed => {
            reveal_strlit("Multi-inverse-diagonal calculation failed");
            reveal_strlit("Element is not invertible");
            assert("Multi-inverse-diagonal calculation failed"@.len() != "Element is not invertible"@.len());
            reveal_strlit("Ranks and xs have different lengths");
            assert("Multi-inverse-diagonal calculation failed"@.len() != "Ranks and xs have different lengths"@.len());
            reveal_strlit("Coefficient is 0");
            assert("Multi-inverse-diagonal calculation failed"@.len() != "Coefficient is 0"@.len());
            reveal_strlit("Row/column index out of bounds");
            assert("Multi-inverse-diagonal calculation failed"@.len() != "Row/column index out of bounds"@.len());
            reveal_strlit("Matrix is not square");
            assert("Multi-inverse-diagonal calculation failed"@.len() != "Matrix is not square"@.len());
            reveal_strlit("Matrix is not diagonal");
            assert("Multi-inverse-diagonal calculation failed"@.len() != "Matrix is not diagonal"@.len());
            reveal_strlit("Matrix is not invertible");
            assert("Multi-inverse-diagonal calculation failed"@.len() != "Matrix is not invertible"@.len());
            reveal_strlit("Matrix dimensions do not match for multiplication");
            assert("Multi-inverse-diagonal calculation failed"@.len() != "Matrix dimensions do not match for multiplication"@.len());
            reveal_strlit("Rows have different lengths");
            assert("Multi-inverse-diagonal calculation failed"@.len() != "Rows have different lengths"@.len());
            reveal_strlit("Gauss elimination failed");
            assert("Multi-inverse-diagonal calculation failed"@.len() != "Gauss elimination failed"@.len());
            reveal_strlit("Matrix inversion failed");
            assert("Multi-inverse-diagonal calculation failed"@.len() != "Matrix inversion failed"@.len());
            reveal_strlit("Pseudo-inverse calculation failed");
            assert("Multi-inverse-diagonal calculation failed"@.len() != "Pseudo-inverse calculation failed"@.len());
        },
        BirkhoffError::ModInverseFailed => {
            reveal_strlit("Mod-inverse calculation failed");
            reveal_strlit("Element is not invertible");
            assert("Mod-inverse calculation failed"@.len() != "Element is not invertible"@.len());
            reveal_strlit("Ranks and xs have different lengths");
            assert("Mod-inverse calculation failed"@.len() != "Ranks and xs have different lengths"@.len());
            reveal_strlit("Coefficient is 0");
            assert("Mod-inverse calculation failed"@.len() != "Coefficient is 0"@.len());
            reveal_strlit("Row/column index out of bounds");
            assert("Mod-inverse calculation failed"@[0] != "Row/column index out of bounds"@[0]);
            reveal_strlit("Matrix is not square");
            assert("Mod-inverse calculation failed"@.len() != "Matrix is not square"@.len());
            reveal_strlit("Matrix is not diagonal");
            assert("Mod-inverse calculation failed"@.len() != "Matrix is not diagonal"@.len());
            reveal_strlit("Matrix is not invertible");
            assert("Mod-inverse calculation failed"@.len() != "Matrix is not invertible"@.len());
            reveal_strlit("Matrix dimensions do not match for multiplication");
            assert("Mod-inverse calculation failed"@.len() != "Matrix dimensions do not match for multiplication"@.len());
            reveal_strlit("Rows have different lengths");
            assert("Mod-inverse calculation failed"@.len() != "Rows have different lengths"@.len());
            reveal_strlit("Gauss elimination failed");
            assert("Mod-inverse calculation failed"@.len() != "Gauss elimination failed"@.len());
            reveal_strlit("Matrix inversion failed");
            assert("Mod-inverse calculation failed"@.len() != "Matrix inversion failed"@.len());
            reveal_strlit("Pseudo-inverse calculation failed");
            assert("Mod-inverse calculation failed"@.len() != "Pseudo-inverse calculation failed"@.len());
            reveal_strlit("Multi-inverse-diagonal calculation failed");
            assert("Mod-inverse calculation failed"@.len() != "Multi-inverse-diagonal calculation failed"@.len());
        },
        BirkhoffError::PolynomialInterpolationFailed => {
            reveal_strlit("Polynomial interpolation failed");
            reveal_strlit("Element is not invertible");
            assert("Polynomial interpolation failed"@.len() != "Element is not invertible"@.len());
            reveal_strlit("Ranks and xs have different lengths");
            assert("Polynomial interpolation failed"@.len() != "Ranks and xs have different lengths"@.len());
            reveal_strlit("Coefficient is 0");
            assert("Polynomial interpolation failed"@.len() != "Coefficient is 0"@.len());
            reveal_strlit("Row/column index out of bounds");
            assert("Polynomial interpolation failed"@.len() != "Row/column index out of bounds"@.len());
            reveal_strlit("Matrix is not square");
            assert("Polynomial interpolation failed"@.len() != "Matrix is not square"@.len());
            reveal_strlit("Matrix is not diagonal");
            assert("Polynomial interpolation failed"@.len() != "Matrix is not diagonal"@.len());
            reveal_strlit("Matrix is not invertible");
            assert("Polynomial interpolation failed"@.len() != "Matrix is not invertible"@.len());
            reveal_strlit("Matrix dimensions do not match for multiplication");
            assert("Polynomial interpolation failed"@.len() != "Matrix dimensions do not match for multiplication"@.len());
            reveal_strlit("Rows have different lengths");
            assert("Polynomial interpolation failed"@.len() != "Rows have different lengths"@.len());
            reveal_strlit("Gauss elimination failed");
            assert("Polynomial interpolation failed"@.len() != "Gauss elimination failed"@.len());
            reveal_strlit("Matrix inversion failed");
            assert("Polynomial interpolation failed"@.len() != "Matrix inversion failed"@.len());
            reveal_strlit("Pseudo-inverse calculation failed");
            assert("Polynomial interpolation failed"@.len() != "Pseudo-inverse calculation failed"@.len());
            reveal_strlit("Multi-inverse-diagonal calculation failed");
            assert("Polynomial interpolation failed"@.len() != "Multi-inverse-diagonal calculation failed"@.len());
            reveal_strlit("Mod-inverse calculation failed");
            assert("Polynomial interpolation failed"@.len() != "Mod-inverse calculation failed"@.len());
        },
        BirkhoffError::BirkhoffCoefficientFailed => {
            reveal_strlit("Birkhoff coefficient calculation failed");
            reveal_strlit("Element is not invertible");
            assert("Birkhoff coefficient calculation failed"@.len() != "Element is not invertible"@.len());
            reveal_strlit("Ranks and xs have different lengths");
            assert("Birkhoff coefficient calculation failed"@.len() != "Ranks and xs have different lengths"@.len());
            reveal_strlit("Coefficient is 0");
            assert("Birkhoff coefficient calculation failed"@.len() != "Coefficient is 0"@.len());
            reveal_strlit("Row/column index out of bounds");
            assert("Birkhoff coefficient calculation failed"@.len() != "Row/column index out of bounds"@.len());
            reveal_strlit("Matrix is not square");
            assert("Birkhoff coefficient calculation failed"@.len() != "Matrix is not square"@.len());
            reveal_strlit("Matrix is not diagonal");
            assert("Birkhoff coefficient calculation failed"@.len() != "Matrix is not diagonal"@.len());
            reveal_strlit("Matrix is not invertible");
            assert("Birkhoff coefficient calculation failed"@.len() != "Matrix is not invertible"@.len());
            reveal_strlit("Matrix dimensions do not match for multiplication");
            assert("Birkhoff coefficient calculation failed"@.len() != "Matrix dimensions do not match for multiplication"@.len());
            reveal_strlit("Rows have different lengths");
            assert("Birkhoff coefficient calculation failed"@.len() != "Rows have different lengths"@.len());
            reveal_strlit("Gauss elimination failed");
            assert("Birkhoff coefficient calculation failed"@.len() != "Gauss elimination failed"@.len());
            reveal_strlit("Matrix inversion failed");
            assert("Birkhoff coefficient calculation failed"@.len() != "Matrix inversion failed"@.len());
            reveal_strlit("Pseudo-inverse calculation failed");
            assert("Birkhoff coefficient calculation failed"@.len() != "Pseudo-inverse calculation failed"@.len());
            reveal_strlit("Multi-inverse-diagonal calculation failed");
            assert("Birkhoff coefficient calculation failed"@.len() != "Multi-inverse-diagonal calculation failed"@.len());
            reveal_strlit("Mod-inverse calculation failed");
            assert("Birkhoff coefficient calculation failed"@.len() != "Mod-inverse calculation failed"@.len());
            reveal_strlit("Polynomial interpolation failed");
            assert("Birkhoff coefficient calculation failed"@.len() != "Polynomial interpolation failed"@.len());
        },
        _ => {},
    }
}

} // verus!

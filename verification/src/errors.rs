//! The two recoverable error kinds of the matrix type, each carrying a
//! human-readable message whose exact text is part of the contract, and a
//! programmatic discriminant where callers need to branch.

use vstd::prelude::*;
use vstd::string::*;

use crate::digits::dec_digits;
use crate::digits::to_decimal;

verus! {

/// The message carried by `CapacityExhaustedError` for a given capacity.
pub open spec fn capacity_message(capacity: int) -> Seq<char> {
    "Capacity of "@ + dec_digits(capacity) + " exhausted."@
}

/// The message carried by `IncompatibleMatrixError` when the left operand has
/// `lhs_cols` columns but the right operand has `rhs_rows` rows.
pub open spec fn mismatch_message(lhs_cols: int, rhs_rows: int) -> Seq<char> {
    "Lhs matrix has "@ + dec_digits(lhs_cols) + " rows - rhs matrix has "@ + dec_digits(rhs_rows)
        + " cols - they should be the same."@
}

/// Builds the capacity message as a `String`.
pub fn capacity_message_string(capacity: usize) -> (s: String)
    ensures
        s@ == capacity_message(capacity as int),
{
    let mut s = String::from_str("Capacity of ");
    let digits = to_decimal(capacity);
    s.append(digits.as_str());
    s.append(" exhausted.");
    proof {
        assert(s@ =~= capacity_message(capacity as int));
    }
    s
}

/// Builds the dimension-mismatch message as a `String`.
pub fn mismatch_message_string(lhs_cols: usize, rhs_rows: usize) -> (s: String)
    ensures
        s@ == mismatch_message(lhs_cols as int, rhs_rows as int),
{
    let mut s = String::from_str("Lhs matrix has ");
    let lhs_digits = to_decimal(lhs_cols);
    s.append(lhs_digits.as_str());
    s.append(" rows - rhs matrix has ");
    let rhs_digits = to_decimal(rhs_rows);
    s.append(rhs_digits.as_str());
    s.append(" cols - they should be the same.");
    proof {
        assert(s@ =~= mismatch_message(lhs_cols as int, rhs_rows as int));
    }
    s
}

/// Returned when a matrix is already fully populated and one attempts to add
/// an additional value.
#[derive(Debug, Clone)]
pub struct CapacityExhaustedError {
    pub error: String,
}

impl CapacityExhaustedError {
    pub fn new(error: String) -> (e: Self)
        ensures
            e.error == error,
    {
        CapacityExhaustedError { error }
    }

    /// The human-readable message.
    pub fn message(&self) -> (s: &str)
        ensures
            s@ == self.error@,
    {
        self.error.as_str()
    }
}

/// The programmatic reason a multiplication was rejected.
#[derive(Debug, Clone, PartialEq, Eq, Structural)]
pub enum MatrixError {
    /// The left operand's column count differs from the right operand's row
    /// count.
    RowToColMismatch,
    /// An operand is not fully populated.
    NotPopulated,
    /// A product or a running sum fell outside the cell value range.
    Overflow,
}

/// Returned when two matrices cannot be multiplied.
#[derive(Debug, Clone)]
pub struct IncompatibleMatrixError {
    pub error_str: String,
    pub error: MatrixError,
}

impl IncompatibleMatrixError {
    pub fn new(error_str: String, error: MatrixError) -> (e: Self)
        ensures
            e.error_str == error_str,
            e.error == error,
    {
        IncompatibleMatrixError { error_str, error }
    }

    /// The human-readable message.
    pub fn message(&self) -> (s: &str)
        ensures
            s@ == self.error_str@,
    {
        self.error_str.as_str()
    }
}

} // verus!

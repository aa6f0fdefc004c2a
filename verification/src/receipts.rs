//! Recording that a message was delivered to a recipient.
//!
//! The receipt is inserted; when a receipt for the message and recipient
//! exists already, or the insert changed an unexpected number of rows, the
//! existing receipt is updated instead.  Any other database error gives up.

use vstd::prelude::*;

verus! {

/// The outcome of inserting a delivery receipt.
#[derive(Clone, Copy, Debug, PartialEq, Eq, Structural)]
pub enum ReceiptInsert {
    /// The insert succeeded and changed this many rows.
    Inserted(usize),
    /// A receipt for the message and recipient exists already.
    UniqueViolation,
    /// Any other database error.
    Failed,
}

/// What follows the insert.
#[derive(Clone, Copy, Debug, PartialEq, Eq, Structural)]
pub enum ReceiptStep {
    /// Done: fetch the message and its session.
    Fetch,
    /// Update the existing receipt, then fetch the message and its session.
    UpdateThenFetch,
    /// Give up: no message is reported.
    Abort,
}

/// The step after inserting a receipt: one inserted row is done, an
/// existing receipt or an unexpected row count is updated, any other
/// error gives up.
pub fn receipt_step(insert: ReceiptInsert) -> (res: ReceiptStep)
    ensures
        res == match insert {
            ReceiptInsert::Inserted(n) => if n == 1 {
                ReceiptStep::Fetch
            } else {
                ReceiptStep::UpdateThenFetch
            },
            ReceiptInsert::UniqueViolation => ReceiptStep::UpdateThenFetch,
            ReceiptInsert::Failed => ReceiptStep::Abort,
        },
{
    match insert {
        ReceiptInsert::Inserted(n) => if n == 1 {
            ReceiptStep::Fetch
        } else {
            ReceiptStep::UpdateThenFetch
        },
        ReceiptInsert::UniqueViolation => ReceiptStep::UpdateThenFetch,
        ReceiptInsert::Failed => ReceiptStep::Abort,
    }
}

} // verus!

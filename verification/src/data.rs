//! The exec-level transaction record and the library's error type.

use vstd::prelude::*;
use crate::model::RowModel;

verus! {

/// One transaction as read from or written to the store.  `amount` is a
/// signed amount in minor units (for example cents), so sums are exact.
#[derive(Debug)]
pub struct Budget {
    pub id: i64,
    pub desc: String,
    pub date: String,
    pub amount: i64,
}

impl View for Budget {
    type V = RowModel;

    open spec fn view(&self) -> RowModel {
        RowModel {
            id: self.id as int,
            desc: self.desc@,
            date: self.date@,
            amount: self.amount as int,
        }
    }
}

/// Why an operation failed.  Deletes of what is absent are no errors; reads
/// of an absent budget yield empty results, so no variant stands for them.
#[derive(Debug)]
pub enum LedgerError {
    /// The budget name does not fold to a valid stored name.
    InvalidName,
    /// The transaction id lies outside the range the store assigns.
    InvalidId,
    /// The storage engine failed; the underlying error is kept.
    Storage(rusqlite::Error),
}

impl LedgerError {
    /// A human-readable description, for the caller to print.
    pub fn message(&self) -> String {
        match self {
            LedgerError::InvalidName => "invalid budget name: use letters, digits and underscores, starting with a letter".to_owned(),
            LedgerError::InvalidId => "invalid transaction id: ids start at 1".to_owned(),
            LedgerError::Storage(e) => storage_message(e),
        }
    }
}

/// Relies on the `Display` impl of `rusqlite::Error` for the wording.
#[verifier::external_body]
fn storage_message(e: &rusqlite::Error) -> String {
    format!("storage error: {}", e)
}

} // verus!

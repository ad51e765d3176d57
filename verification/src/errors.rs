//! Error taxonomy of the ledger.

use vstd::prelude::*;

verus! {

/// Rejection of a proposed transaction's text fields.
#[derive(Debug, Copy, Clone, PartialEq, Eq, Structural)]
pub enum TransactionError {
    InvalidDescription,
}

/// Rejection of a balance update by the domain rules.
#[derive(Debug, Copy, Clone, PartialEq, Eq, Structural)]
pub enum AccountError {
    InsufficientCredit,
}

/// Failures surfaced by the ledger store and the ledger service.
#[derive(Debug, Copy, Clone, PartialEq, Eq, Structural)]
pub enum LedgerError {
    /// The proposed transaction is malformed; rejected before any lock is taken.
    InvalidTransaction,
    /// The update would leave `balance + credit_limit` negative; no state changed.
    InsufficientCredit,
    /// The per-account lock was not acquired within the retry budget.
    LockAcquisitionFailed,
    /// The account id was never provisioned.
    NotFound,
    /// A persisted record decoded to an unknown tag or to fields that no
    /// accepted transaction can carry; the read fails rather than substitute
    /// default data.
    CorruptRecord,
    /// The backing store is unreachable. The in-memory store never raises
    /// this; it stands in the taxonomy for backends that can lose their store.
    BackendUnavailable,
}

} // verus!

//! Error kinds for the distribution engine.
//!
//! Every error aborts the triggering operation entirely: an operation that
//! returns one of these leaves both the contract state and the ledger
//! unchanged, as each operation's contract states.

use vstd::prelude::*;

verus! {

/// The ways an operation on the distribution contract can fail.
#[derive(Clone, Copy, PartialEq, Eq, Structural, Debug)]
pub enum Error {
    /// A second call to `initialize`.
    AlreadyInitialized,
    /// A non-administrator invoked an admin-only operation.
    NotAuthorized,
    /// The participant already has a deposit record.
    DuplicateDeposit,
    /// `attended` was called for an unregistered participant.
    UnknownParticipant,
    /// `distribute` was called with zero attended participants.
    NoEligibleParticipants,
    /// Counter or balance arithmetic would overflow its integer range.
    ArithmeticOverflow,
    /// A ledger transfer could not be performed (insufficient balance or an
    /// invalid account pair); the whole call is aborted.
    LedgerOperationFailed,
}

} // verus!

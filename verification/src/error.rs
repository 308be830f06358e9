//! Why an operation on the ledger was refused.

use vstd::prelude::*;

verus! {

/// The conditions under which the ledger refuses an operation. A refused
/// operation leaves the ledger exactly as it was.
#[derive(Clone, Copy, Debug, PartialEq, Eq, Structural)]
pub enum LedgerError {
    /// The id names no request.
    NotFound,
    /// The request is not in the status that the transition starts from.
    InvalidTransition,
    /// The caller is neither the contract's own account nor the owner.
    Unauthorized,
    /// The deposit attached to the call is below [`crate::MIN_DEPOSIT`].
    InsufficientDeposit,
    /// The instance already holds a ledger.
    AlreadyInitialized,
}

impl LedgerError {
    /// A short description of the condition.
    pub fn message(&self) -> (text: &'static str)
        ensures
            text@ == match *self {
                LedgerError::NotFound => "Request not found"@,
                LedgerError::InvalidTransition => "Request is not in the required status"@,
                LedgerError::Unauthorized => "Only relayer can provide responses"@,
                LedgerError::InsufficientDeposit => "Attached deposit is below the minimum"@,
                LedgerError::AlreadyInitialized => "The contract has already been initialized"@,
            },
    {
        match self {
            LedgerError::NotFound => "Request not found",
            LedgerError::InvalidTransition => "Request is not in the required status",
            LedgerError::Unauthorized => "Only relayer can provide responses",
            LedgerError::InsufficientDeposit => "Attached deposit is below the minimum",
            LedgerError::AlreadyInitialized => "The contract has already been initialized",
        }
    }
}

} // verus!

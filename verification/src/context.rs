//! What an operation is told about the call that invokes it.

use vstd::prelude::*;

verus! {

/// The smallest deposit, in indivisible units, that a new request must carry.
pub const MIN_DEPOSIT: u128 = 1;

/// The facts of one call, as the host reports them: who calls, which account
/// the ledger itself runs under, what was paid, and when.
#[derive(Debug)]
pub struct CallContext {
    /// The account that signed the call.
    pub caller: String,
    /// The account under which the ledger itself is deployed.
    pub contract_account: String,
    /// The deposit attached to the call.
    pub attached_deposit: u128,
    /// The time of the call.
    pub timestamp: u64,
    /// The height of the block that holds the call.
    pub block_height: u64,
}

/// The mathematical content of a [`CallContext`].
pub struct ContextView {
    pub caller: Seq<char>,
    pub contract_account: Seq<char>,
    pub attached_deposit: u128,
    pub timestamp: u64,
    pub block_height: u64,
}

impl View for CallContext {
    type V = ContextView;

    open spec fn view(&self) -> ContextView {
        ContextView {
            caller: self.caller@,
            contract_account: self.contract_account@,
            attached_deposit: self.attached_deposit,
            timestamp: self.timestamp,
            block_height: self.block_height,
        }
    }
}

} // verus!

//! The contract's failure taxonomy.

use vstd::prelude::*;

verus! {

/// Every way an invocation of the contract can fail.
///
/// `SlotLocked` is the one business-rule rejection; the others signal a
/// malformed transaction, an unrecognized call shape or a missing table.
#[derive(Debug, Clone, Copy, PartialEq, Eq, Structural)]
pub enum ContractError {
    /// The call index lies outside the call batch.
    CallIndexOutOfRange,
    /// A payload, a call body or a stored value failed to decode.
    DecodeFailed,
    /// The opcode byte selects no known function.
    UnsupportedFunction,
    /// The derived slot is already locked and permanently immutable.
    SlotLocked,
    /// The entries table does not exist; the contract was never initialized.
    DbNotFound,
}

} // verus!

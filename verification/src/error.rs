//! Errors returned to the host. Every failed operation leaves the ledger
//! exactly as it was; the host discards the whole operation on any error.

use vstd::prelude::*;

verus! {

/// Why an operation was rejected.
#[derive(Clone, Copy, Debug, PartialEq, Eq, Structural)]
pub enum ContractError {
    /// Zero or missing amount, empty funds, or an undecodable hook message.
    InvalidInput,
    /// No native deposit record exists for the requested (owner, denom).
    NoDepositFound,
    /// No fungible deposit record exists for the requested (owner,
    /// contract).
    NoFungibleDeposit,
    /// No non-fungible record exists for the requested (contract, token id).
    NoNonFungibleDeposit,
    /// A fungible withdrawal came before the record's unlock height.
    LockNotExpired,
    /// A balance or count would exceed its type's range.
    ArithmeticOverflow,
    /// A balance or count would fall below zero.
    ArithmeticUnderflow,
    /// A non-fungible withdrawal came from someone other than the recorded
    /// owner while the owner check is enforced.
    Unauthorized,
}

} // verus!

//! Messages exchanged with the host: operations in, value-mover
//! instructions and query answers out.

use vstd::prelude::*;
use crate::state::{Deposits, Cw20Deposits, Cw721Deposits};

verus! {

/// An instruction to the value mover, issued as the result of a
/// withdrawal; the host executes it after the operation commits.
#[derive(Debug)]
pub enum MoverMsg {
    /// Send native units to an address.
    SendNative { to_address: String, denom: String, amount: u128 },
    /// Tell a fungible-token contract to transfer out of the ledger's
    /// custody.
    SendFungible { contract: String, recipient: String, amount: u128 },
    /// Tell a non-fungible-token contract to transfer a token out of the
    /// ledger's custody.
    SendNonFungible { contract: String, recipient: String, token_id: String },
}

/// The embedded order of a fungible-token transfer notification.
#[derive(Clone, Copy, Debug, PartialEq, Eq, Structural)]
pub enum Cw20HookMsg {
    Deposit,
}

/// The embedded order of a non-fungible-token transfer notification.
#[derive(Clone, Copy, Debug, PartialEq, Eq, Structural)]
pub enum Cw721HookMsg {
    Deposit,
}

/// A fungible-token transfer notification: the token contract calls in
/// after moving `amount` from `sender` into the ledger's custody. `msg` is
/// the decoded embedded hook; `None` stands for one that did not decode.
pub struct Cw20ReceiveMsg {
    pub sender: String,
    pub amount: u128,
    pub msg: Option<Cw20HookMsg>,
}

/// A non-fungible-token transfer notification.
pub struct Cw721ReceiveMsg {
    pub sender: String,
    pub token_id: String,
    pub msg: Option<Cw721HookMsg>,
}

/// An operation delivered by the host.
pub enum ExecuteMsg {
    /// Deposit the attached native funds for the caller.
    Deposit {},
    /// Withdraw native units.
    Withdraw { amount: u128, denom: String },
    /// A fungible-token contract hands over deposited tokens.
    Receive(Cw20ReceiveMsg),
    /// A non-fungible-token contract hands over a deposited token.
    ReceiveNft(Cw721ReceiveMsg),
    /// Withdraw fungible tokens of the given token contract.
    WithdrawCw20 { address: String, amount: u128 },
    /// Withdraw a non-fungible token.
    WithdrawNft { contract_addr: String, token_id: String },
}

/// A read-only question delivered by the host.
pub enum QueryMsg {
    /// Native deposits of an owner.
    Deposits { address: String },
    /// Fungible deposits of an owner.
    Cw20Deposits { address: String },
    /// Non-fungible holdings on a token contract.
    Cw721DepositsByContract { contract_addr: String },
    /// Non-fungible holdings of an owner.
    Cw721DepositsByOwner { address: String },
}

/// Native deposits of one owner, ascending by denom.
pub struct DepositResponse {
    pub deposits: Vec<Deposits>,
}

/// Fungible deposits of one owner, ascending by token contract.
pub struct Cw20DepositResponse {
    pub deposits: Vec<Cw20Deposits>,
}

/// Non-fungible holdings, ascending by key.
pub struct Cw721DepositResponse {
    pub deposits: Vec<Cw721Deposits>,
}

/// The answer to a query.
pub enum QueryAnswer {
    Deposits(DepositResponse),
    Cw20Deposits(Cw20DepositResponse),
    Cw721Deposits(Cw721DepositResponse),
}

} // verus!

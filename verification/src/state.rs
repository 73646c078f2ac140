//! Record types of the deposit ledger, and the aggregate that owns the
//! stores.
//!
//! Every record is created on first deposit for its key and mutated in place
//! by later deposits and partial withdrawals. Native and fungible records
//! are never removed — a zero balance is a valid resting state — while a
//! non-fungible record is deleted when its asset is withdrawn.

use vstd::prelude::*;
use crate::store::StoreMap;
use crate::snapshot::SnapshotU64;
use crate::index::NonFungibleStore;

verus! {

/// A quantity of a native denomination.
pub struct Coin {
    pub denom: String,
    pub amount: u128,
}

impl Clone for Coin {
    fn clone(&self) -> (r: Self)
        ensures
            r == *self,
    {
        Coin { denom: self.denom.clone(), amount: self.amount }
    }
}

/// A native deposit record, keyed by (owner, denom).
pub struct Deposits {
    /// Net deposit events: incremented per deposit, decremented per
    /// withdrawal.
    pub count: i32,
    pub owner: String,
    pub coins: Coin,
}

impl Clone for Deposits {
    fn clone(&self) -> (r: Self)
        ensures
            r == *self,
    {
        Deposits { count: self.count, owner: self.owner.clone(), coins: self.coins.clone() }
    }
}

/// When a time lock opens: at a given height, or never.
#[derive(Clone, Copy, Debug, PartialEq, Eq, Structural)]
pub enum Expiration {
    AtHeight(u64),
    Never,
}

/// Whether a lock has opened by the given height.
pub open spec fn spec_expired(e: Expiration, height: u64) -> bool {
    match e {
        Expiration::AtHeight(h) => height >= h,
        Expiration::Never => false,
    }
}

/// Whether a lock has opened by the given height.
pub fn is_expired(e: Expiration, height: u64) -> (r: bool)
    ensures
        r == spec_expired(e, height),
{
    match e {
        Expiration::AtHeight(h) => height >= h,
        Expiration::Never => false,
    }
}

/// A fungible-token deposit record, keyed by (owner, token contract).
pub struct Cw20Deposits {
    /// Deposit events counted in, withdrawal events counted out.
    pub count: u64,
    pub owner: String,
    pub contract: String,
    /// Cumulative balance held in custody.
    pub amount: u128,
    /// The lock: withdrawal is permitted only at or past this height. It is
    /// refreshed on every deposit.
    pub unlock_height: Expiration,
}

impl Clone for Cw20Deposits {
    fn clone(&self) -> (r: Self)
        ensures
            r == *self,
    {
        Cw20Deposits {
            count: self.count,
            owner: self.owner.clone(),
            contract: self.contract.clone(),
            amount: self.amount,
            unlock_height: self.unlock_height,
        }
    }
}

/// A non-fungible holding, keyed by (token contract, token id). Exactly one
/// record exists per key while the asset is held.
pub struct Cw721Deposits {
    pub owner: String,
    pub contract: String,
    pub token_id: String,
}

impl Clone for Cw721Deposits {
    fn clone(&self) -> (r: Self)
        ensures
            r == *self,
    {
        Cw721Deposits {
            owner: self.owner.clone(),
            contract: self.contract.clone(),
            token_id: self.token_id.clone(),
        }
    }
}

/// The deposit ledger: the three sub-ledgers and the snapshotted total of
/// active fungible deposit events.
pub struct Deposit {
    /// Native deposits, keyed (owner, denom).
    pub deposits: StoreMap<Deposits>,
    /// Running count of active fungible deposit events, snapshotted per
    /// height.
    pub total_cw20_deposits: SnapshotU64,
    /// Fungible deposits, keyed (owner, token contract).
    pub cw20_deposits: StoreMap<Cw20Deposits>,
    /// Non-fungible holdings, keyed (contract, token id), with an owner
    /// index and a height-versioned changelog.
    pub cw721_deposits: NonFungibleStore,
    /// Whether a non-fungible withdrawal must come from the recorded owner.
    pub enforce_nft_owner: bool,
}

impl Deposit {
    /// All stores are well-formed, and every record carries its own key.
    pub open spec fn wf(self) -> bool {
        &&& self.deposits.wf()
        &&& self.total_cw20_deposits.wf()
        &&& self.cw20_deposits.wf()
        &&& self.cw721_deposits.wf()
        &&& forall|a: Seq<char>, b: Seq<char>|
            #[trigger] self.deposits.spec_get(a, b) matches Some(d) ==> d.owner@ == a
                && d.coins.denom@ == b
        &&& forall|a: Seq<char>, b: Seq<char>|
            #[trigger] self.cw20_deposits.spec_get(a, b) matches Some(d) ==> d.owner@ == a
                && d.contract@ == b
    }

    /// No height below this may be supplied to a mutating operation; the
    /// host delivers heights monotonically.
    pub open spec fn seen_height(self) -> u64 {
        if self.total_cw20_deposits.latest() >= self.cw721_deposits.seen_height() {
            self.total_cw20_deposits.latest()
        } else {
            self.cw721_deposits.seen_height()
        }
    }

    /// An empty ledger that lets anyone withdraw a held non-fungible asset,
    /// as custody is by contract identity.
    pub fn new() -> (r: Self)
        ensures
            r.wf(),
            r.deposits.entries@.len() == 0,
            r.cw20_deposits.entries@.len() == 0,
            r.cw721_deposits.primary.entries@.len() == 0,
            r.total_cw20_deposits.current is None,
            r.total_cw20_deposits.log@.len() == 0,
            r.cw721_deposits.log@.len() == 0,
            !r.enforce_nft_owner,
            r.seen_height() == 0,
    {
        Deposit {
            deposits: StoreMap::new(),
            total_cw20_deposits: SnapshotU64::new(),
            cw20_deposits: StoreMap::new(),
            cw721_deposits: NonFungibleStore::new(),
            enforce_nft_owner: false,
        }
    }
}

impl Default for Deposit {
    /// Same ledger as `new`.
    fn default() -> (r: Self)
        ensures
            r.wf(),
            r.deposits.entries@.len() == 0,
            r.cw20_deposits.entries@.len() == 0,
            r.cw721_deposits.primary.entries@.len() == 0,
            r.total_cw20_deposits.current is None,
            r.total_cw20_deposits.log@.len() == 0,
            r.cw721_deposits.log@.len() == 0,
            !r.enforce_nft_owner,
            r.seen_height() == 0,
    {
        Deposit::new()
    }
}

} // verus!

//! The deposit ledger's operations.
//!
//! Each operation is one atomic step: it validates before it mutates, so a
//! rejected operation leaves the ledger exactly as it was. Time locks are
//! judged purely by comparing a stored height against the height supplied
//! with the call.

use vstd::prelude::*;
use crate::error::ContractError;
use crate::msg::{
    MoverMsg, Cw20HookMsg, Cw721HookMsg, Cw20ReceiveMsg, Cw721ReceiveMsg, ExecuteMsg, QueryMsg,
    DepositResponse, Cw20DepositResponse, Cw721DepositResponse, QueryAnswer,
};
use crate::state::{
    Coin, Deposits, Cw20Deposits, Cw721Deposits, Deposit, Expiration, spec_expired, is_expired,
};

verus! {

/// Heights a fungible deposit stays locked after each deposit.
pub const LOCK_PERIOD: u64 = 20;

/// Whether a native deposit of `amount` fits the record's ranges.
pub open spec fn native_can_add(
    pre: Deposit,
    owner: Seq<char>,
    denom: Seq<char>,
    amount: u128,
) -> bool {
    match pre.deposits.spec_get(owner, denom) {
        Some(d) => d.coins.amount + amount <= u128::MAX && d.count + 1 <= i32::MAX,
        None => true,
    }
}

/// The native sub-ledger after a deposit: the record of (owner, denom) has
/// grown by `amount` with one more event counted — created with count 1
/// when absent — and nothing else changed.
pub open spec fn native_deposited(
    pre: Deposit,
    post: Deposit,
    owner: Seq<char>,
    denom: Seq<char>,
    amount: u128,
) -> bool {
    &&& (match pre.deposits.spec_get(owner, denom) {
        Some(d) => post.deposits.spec_get(owner, denom) matches Some(nd) && nd.count == d.count
            + 1 && nd.owner@ == d.owner@ && nd.coins.denom@ == d.coins.denom@ && nd.coins.amount
            == d.coins.amount + amount,
        None => post.deposits.spec_get(owner, denom) matches Some(nd) && nd.count == 1
            && nd.owner@ == owner && nd.coins.denom@ == denom && nd.coins.amount == amount,
    })
    &&& forall|a: Seq<char>, b: Seq<char>|
        !(a == owner && b == denom) ==> #[trigger] post.deposits.spec_get(a, b)
            == pre.deposits.spec_get(a, b)
    &&& post.cw20_deposits == pre.cw20_deposits
    &&& post.cw721_deposits == pre.cw721_deposits
    &&& post.total_cw20_deposits == pre.total_cw20_deposits
    &&& post.enforce_nft_owner == pre.enforce_nft_owner
}

/// Whether a native withdrawal of `amount` is covered: the record exists,
/// holds at least `amount`, and its event count can still be decremented.
pub open spec fn native_can_sub(
    pre: Deposit,
    owner: Seq<char>,
    denom: Seq<char>,
    amount: u128,
) -> bool {
    pre.deposits.spec_get(owner, denom) matches Some(d) && amount <= d.coins.amount && d.count - 1
        >= i32::MIN
}

/// The native sub-ledger after a withdrawal: the record has shrunk by
/// `amount` with one event counted out, and nothing else changed.
pub open spec fn native_withdrawn(
    pre: Deposit,
    post: Deposit,
    owner: Seq<char>,
    denom: Seq<char>,
    amount: u128,
) -> bool {
    &&& (pre.deposits.spec_get(owner, denom) matches Some(d) && (post.deposits.spec_get(
        owner,
        denom,
    ) matches Some(nd) && nd.count == d.count - 1 && nd.owner@ == d.owner@ && nd.coins.denom@
        == d.coins.denom@ && nd.coins.amount == d.coins.amount - amount))
    &&& forall|a: Seq<char>, b: Seq<char>|
        !(a == owner && b == denom) ==> #[trigger] post.deposits.spec_get(a, b)
            == pre.deposits.spec_get(a, b)
    &&& post.cw20_deposits == pre.cw20_deposits
    &&& post.cw721_deposits == pre.cw721_deposits
    &&& post.total_cw20_deposits == pre.total_cw20_deposits
    &&& post.enforce_nft_owner == pre.enforce_nft_owner
}

/// The running total of active fungible deposit events; zero before any.
pub open spec fn total_of(pre: Deposit) -> int {
    match pre.total_cw20_deposits.current {
        Some(t) => t as int,
        None => 0,
    }
}

/// Whether a fungible deposit fits every range it touches: the refreshed
/// unlock height, the record's balance and count, and the global total.
pub open spec fn fungible_can_add(
    pre: Deposit,
    owner: Seq<char>,
    contract: Seq<char>,
    amount: u128,
    height: u64,
) -> bool {
    &&& height + LOCK_PERIOD <= u64::MAX
    &&& (match pre.cw20_deposits.spec_get(owner, contract) {
        Some(d) => d.amount + amount <= u128::MAX && d.count + 1 <= u64::MAX,
        None => true,
    })
    &&& total_of(pre) + 1 <= u64::MAX
}

/// The fungible sub-ledger after a deposit: the record has grown by
/// `amount` with one more event, its lock is refreshed to `height`
/// plus the lock period, the global total is one higher and snapshotted at
/// `height`, and nothing else changed.
pub open spec fn fungible_deposited(
    pre: Deposit,
    post: Deposit,
    owner: Seq<char>,
    contract: Seq<char>,
    amount: u128,
    height: u64,
) -> bool {
    &&& (match pre.cw20_deposits.spec_get(owner, contract) {
        Some(d) => post.cw20_deposits.spec_get(owner, contract) matches Some(nd) && nd.count
            == d.count + 1 && nd.owner@ == d.owner@ && nd.contract@ == d.contract@ && nd.amount
            == d.amount + amount && nd.unlock_height == Expiration::AtHeight(
            (height + LOCK_PERIOD) as u64,
        ),
        None => post.cw20_deposits.spec_get(owner, contract) matches Some(nd) && nd.count == 1
            && nd.owner@ == owner && nd.contract@ == contract && nd.amount == amount
            && nd.unlock_height == Expiration::AtHeight((height + LOCK_PERIOD) as u64),
    })
    &&& forall|a: Seq<char>, b: Seq<char>|
        !(a == owner && b == contract) ==> #[trigger] post.cw20_deposits.spec_get(a, b)
            == pre.cw20_deposits.spec_get(a, b)
    &&& post.deposits == pre.deposits
    &&& post.cw721_deposits == pre.cw721_deposits
    &&& post.enforce_nft_owner == pre.enforce_nft_owner
    &&& post.total_cw20_deposits.current == Some(((total_of(pre) + 1) as u64))
    &&& post.total_cw20_deposits.hist@ == pre.total_cw20_deposits.hist@.push(
        (height, Some((total_of(pre) + 1) as u64)),
    )
}

/// Whether a fungible withdrawal is permitted and covered: the record
/// exists, its lock has expired at `height`, and the balance, count and
/// global total can all come down.
pub open spec fn fungible_can_sub(
    pre: Deposit,
    owner: Seq<char>,
    contract: Seq<char>,
    amount: u128,
    height: u64,
) -> bool {
    &&& pre.cw20_deposits.spec_get(owner, contract) matches Some(d) && spec_expired(
        d.unlock_height,
        height,
    ) && amount <= d.amount && d.count >= 1
    &&& total_of(pre) >= 1
}

/// The fungible sub-ledger after a withdrawal: the record has shrunk by
/// `amount` with one event counted out and its lock untouched, the global
/// total is one lower and snapshotted at `height`, and nothing else
/// changed.
pub open spec fn fungible_withdrawn(
    pre: Deposit,
    post: Deposit,
    owner: Seq<char>,
    contract: Seq<char>,
    amount: u128,
    height: u64,
) -> bool {
    &&& (pre.cw20_deposits.spec_get(owner, contract) matches Some(d) && (
    post.cw20_deposits.spec_get(owner, contract) matches Some(nd) && nd.count == d.count - 1
        && nd.owner@ == d.owner@ && nd.contract@ == d.contract@ && nd.amount == d.amount - amount
        && nd.unlock_height == d.unlock_height))
    &&& forall|a: Seq<char>, b: Seq<char>|
        !(a == owner && b == contract) ==> #[trigger] post.cw20_deposits.spec_get(a, b)
            == pre.cw20_deposits.spec_get(a, b)
    &&& post.deposits == pre.deposits
    &&& post.cw721_deposits == pre.cw721_deposits
    &&& post.enforce_nft_owner == pre.enforce_nft_owner
    &&& post.total_cw20_deposits.current == Some(((total_of(pre) - 1) as u64))
    &&& post.total_cw20_deposits.hist@ == pre.total_cw20_deposits.hist@.push(
        (height, Some((total_of(pre) - 1) as u64)),
    )
}

/// The non-fungible sub-ledger after a deposit: the key is held by `owner`
/// — overwriting any previous record for the same key — the mutation is
/// recorded against `height` in the changelog when it is the first one
/// there, and nothing else changed.
pub open spec fn nft_deposited(
    pre: Deposit,
    post: Deposit,
    owner: Seq<char>,
    contract: Seq<char>,
    token_id: Seq<char>,
    height: u64,
) -> bool {
    &&& post.cw721_deposits.holding(contract, token_id) == Some(owner)
    &&& forall|a: Seq<char>, b: Seq<char>|
        !(a == contract && b == token_id) ==> #[trigger] post.cw721_deposits.primary.spec_get(
            a,
            b,
        ) == pre.cw721_deposits.primary.spec_get(a, b)
    &&& post.deposits == pre.deposits
    &&& post.cw20_deposits == pre.cw20_deposits
    &&& post.total_cw20_deposits == pre.total_cw20_deposits
    &&& post.enforce_nft_owner == pre.enforce_nft_owner
    &&& (pre.cw721_deposits.spec_log_has(contract, token_id, height)
        ==> post.cw721_deposits.log@ == pre.cw721_deposits.log@)
    &&& (!pre.cw721_deposits.spec_log_has(contract, token_id, height)
        ==> post.cw721_deposits.log@.len() == pre.cw721_deposits.log@.len() + 1
        && (forall|j: int|
            0 <= j < pre.cw721_deposits.log@.len()
                ==> #[trigger] post.cw721_deposits.log@.index(j) == pre.cw721_deposits.log@.index(
                j,
            ))
        && post.cw721_deposits.log@.last().contract@ == contract
        && post.cw721_deposits.log@.last().token_id@ == token_id
        && post.cw721_deposits.log@.last().height == height
        && post.cw721_deposits.log@.last().old == pre.cw721_deposits.primary.spec_get(
            contract,
            token_id,
        ))
}

/// Whether a non-fungible withdrawal is permitted: the record exists and,
/// when the owner check is enforced, names the withdrawer.
pub open spec fn nft_can_withdraw(
    pre: Deposit,
    sender: Seq<char>,
    contract: Seq<char>,
    token_id: Seq<char>,
) -> bool {
    &&& pre.cw721_deposits.holding(contract, token_id) is Some
    &&& (pre.enforce_nft_owner ==> pre.cw721_deposits.holding(contract, token_id) == Some(sender))
}

/// The non-fungible sub-ledger after a withdrawal: the record is gone from
/// the primary store and from the owner index, the removal is recorded
/// against `height` in the changelog when it is the first mutation there,
/// and nothing else changed.
pub open spec fn nft_withdrawn(
    pre: Deposit,
    post: Deposit,
    contract: Seq<char>,
    token_id: Seq<char>,
    height: u64,
) -> bool {
    &&& post.cw721_deposits.holding(contract, token_id) is None
    &&& forall|o2: Seq<char>|
        !(#[trigger] post.cw721_deposits.owner_idx.contains(o2, contract, token_id))
    &&& forall|a: Seq<char>, b: Seq<char>|
        !(a == contract && b == token_id) ==> #[trigger] post.cw721_deposits.primary.spec_get(
            a,
            b,
        ) == pre.cw721_deposits.primary.spec_get(a, b)
    &&& post.deposits == pre.deposits
    &&& post.cw20_deposits == pre.cw20_deposits
    &&& post.total_cw20_deposits == pre.total_cw20_deposits
    &&& post.enforce_nft_owner == pre.enforce_nft_owner
    &&& (pre.cw721_deposits.spec_log_has(contract, token_id, height)
        ==> post.cw721_deposits.log@ == pre.cw721_deposits.log@)
    &&& (!pre.cw721_deposits.spec_log_has(contract, token_id, height)
        ==> post.cw721_deposits.log@.len() == pre.cw721_deposits.log@.len() + 1
        && (forall|j: int|
            0 <= j < pre.cw721_deposits.log@.len()
                ==> #[trigger] post.cw721_deposits.log@.index(j) == pre.cw721_deposits.log@.index(
                j,
            ))
        && post.cw721_deposits.log@.last().contract@ == contract
        && post.cw721_deposits.log@.last().token_id@ == token_id
        && post.cw721_deposits.log@.last().height == height
        && post.cw721_deposits.log@.last().old == pre.cw721_deposits.primary.spec_get(
            contract,
            token_id,
        ))
}

/// An exact listing of one owner's native deposits: every listed record is
/// the stored one, every stored one is listed, ascending by denom.
pub open spec fn lists_native(pre: Deposit, owner: Seq<char>, out: Seq<Deposits>) -> bool {
    &&& forall|i: int|
        0 <= i < out.len() ==> (#[trigger] out.index(i)).owner@ == owner && pre.deposits.spec_get(
            owner,
            out.index(i).coins.denom@,
        ) == Some(out.index(i))
    &&& forall|b: Seq<char>|
        #[trigger] pre.deposits.spec_get(owner, b) is Some ==> exists|i: int|
            0 <= i < out.len() && (#[trigger] out.index(i)).coins.denom@ == b
    &&& forall|i: int, j: int|
        0 <= i < j < out.len() ==> crate::keys::lex_lt(
            (#[trigger] out.index(i)).coins.denom@,
            (#[trigger] out.index(j)).coins.denom@,
        )
}

/// An exact listing of one owner's fungible deposits, ascending by token
/// contract.
pub open spec fn lists_fungible(pre: Deposit, owner: Seq<char>, out: Seq<Cw20Deposits>) -> bool {
    &&& forall|i: int|
        0 <= i < out.len() ==> (#[trigger] out.index(i)).owner@ == owner
            && pre.cw20_deposits.spec_get(owner, out.index(i).contract@) == Some(out.index(i))
    &&& forall|b: Seq<char>|
        #[trigger] pre.cw20_deposits.spec_get(owner, b) is Some ==> exists|i: int|
            0 <= i < out.len() && (#[trigger] out.index(i)).contract@ == b
    &&& forall|i: int, j: int|
        0 <= i < j < out.len() ==> crate::keys::lex_lt(
            (#[trigger] out.index(i)).contract@,
            (#[trigger] out.index(j)).contract@,
        )
}

/// An exact listing of the holdings on one token contract, ascending by
/// token id.
pub open spec fn lists_nft_by_contract(
    pre: Deposit,
    contract: Seq<char>,
    out: Seq<Cw721Deposits>,
) -> bool {
    &&& forall|i: int|
        0 <= i < out.len() ==> (#[trigger] out.index(i)).contract@ == contract
            && pre.cw721_deposits.primary.spec_get(contract, out.index(i).token_id@) == Some(
            out.index(i),
        )
    &&& forall|b: Seq<char>|
        #[trigger] pre.cw721_deposits.primary.spec_get(contract, b) is Some ==> exists|i: int|
            0 <= i < out.len() && (#[trigger] out.index(i)).token_id@ == b
    &&& forall|i: int, j: int|
        0 <= i < j < out.len() ==> crate::keys::lex_lt(
            (#[trigger] out.index(i)).token_id@,
            (#[trigger] out.index(j)).token_id@,
        )
}

/// An exact listing of one owner's non-fungible holdings, ascending by
/// (contract, token id).
pub open spec fn lists_nft_by_owner(
    pre: Deposit,
    owner: Seq<char>,
    out: Seq<Cw721Deposits>,
) -> bool {
    &&& forall|i: int|
        0 <= i < out.len() ==> (#[trigger] out.index(i)).owner@ == owner
            && pre.cw721_deposits.primary.spec_get(
            out.index(i).contract@,
            out.index(i).token_id@,
        ) == Some(out.index(i))
    &&& forall|a: Seq<char>, b: Seq<char>|
        #[trigger] pre.cw721_deposits.primary.spec_get(a, b) matches Some(d) && d.owner@ == owner
            ==> exists|i: int|
            0 <= i < out.len() && (#[trigger] out.index(i)).contract@ == a && out.index(
                i,
            ).token_id@ == b
    &&& forall|i: int, j: int|
        0 <= i < j < out.len() ==> crate::store::key_lt(
            (#[trigger] out.index(i)).contract@,
            out.index(i).token_id@,
            (#[trigger] out.index(j)).contract@,
            out.index(j).token_id@,
        )
}

impl Deposit {
    /// Deposits the first attached fund for `sender`. Only the first fund
    /// is considered; extras are ignored. Empty funds and a zero amount are
    /// rejected; a balance or count leaving its range is rejected and
    /// changes nothing.
    pub fn execute_deposit(&mut self, sender: &str, funds: &Vec<Coin>) -> (r: Result<
        (),
        ContractError,
    >)
        requires
            old(self).wf(),
        ensures
            final(self).wf(),
            final(self).seen_height() == old(self).seen_height(),
            r is Ok <==> funds@.len() > 0 && funds@[0].amount > 0 && native_can_add(
                *old(self),
                sender@,
                funds@[0].denom@,
                funds@[0].amount,
            ),
            r is Ok ==> native_deposited(
                *old(self),
                *final(self),
                sender@,
                funds@[0].denom@,
                funds@[0].amount,
            ),
            r is Err ==> *final(self) == *old(self),
            r is Err ==> r->Err_0 == (if funds@.len() == 0 || funds@[0].amount == 0 {
                ContractError::InvalidInput
            } else {
                ContractError::ArithmeticOverflow
            }),
    {
        if funds.len() == 0 {
            return Err(ContractError::InvalidInput);
        }
        let d_coins = &funds[0];
        if d_coins.amount == 0 {
            return Err(ContractError::InvalidInput);
        }
        let cur: Option<Deposits> = match self.deposits.get(sender, d_coins.denom.as_str()) {
            Some(d) => Some(d.clone()),
            None => None,
        };
        match cur {
            Some(d) => {
                if d.coins.amount > u128::MAX - d_coins.amount {
                    return Err(ContractError::ArithmeticOverflow);
                }
                if d.count == i32::MAX {
                    return Err(ContractError::ArithmeticOverflow);
                }
                let nd = Deposits {
                    count: d.count + 1,
                    owner: d.owner,
                    coins: Coin { denom: d.coins.denom, amount: d.coins.amount + d_coins.amount },
                };
                self.deposits.set(sender, d_coins.denom.as_str(), nd);
            },
            None => {
                let nd = Deposits {
                    count: 1,
                    owner: sender.to_owned(),
                    coins: Coin { denom: d_coins.denom.clone(), amount: d_coins.amount },
                };
                self.deposits.set(sender, d_coins.denom.as_str(), nd);
            },
        }
        proof {
            assert forall|a: Seq<char>, b: Seq<char>|
                #[trigger] self.deposits.spec_get(a, b) is Some implies (self.deposits.spec_get(
                a,
                b,
            )->Some_0).owner@ == a && (self.deposits.spec_get(a, b)->Some_0).coins.denom@ == b by {
                if !(a == sender@ && b == d_coins.denom@) {
                    assert(self.deposits.spec_get(a, b) == old(self).deposits.spec_get(a, b));
                }
            }
        }
        Ok(())
    }

    /// Withdraws `amount` of `denom` for `sender` and instructs the value
    /// mover to send it. A missing record, a shortfall, or an exhausted
    /// count is rejected and changes nothing.
    pub fn execute_withdraw(&mut self, sender: &str, amount: u128, denom: &str) -> (r: Result<
        MoverMsg,
        ContractError,
    >)
        requires
            old(self).wf(),
        ensures
            final(self).wf(),
            final(self).seen_height() == old(self).seen_height(),
            r is Ok <==> native_can_sub(*old(self), sender@, denom@, amount),
            r is Ok ==> native_withdrawn(*old(self), *final(self), sender@, denom@, amount),
            r is Ok ==> (r->Ok_0 matches MoverMsg::SendNative { to_address, denom: d2, amount: a2 }
                && to_address@ == sender@ && d2@ == denom@ && a2 == amount),
            r is Err ==> *final(self) == *old(self),
            r is Err ==> r->Err_0 == (if old(self).deposits.spec_get(sender@, denom@) is None {
                ContractError::NoDepositFound
            } else {
                ContractError::ArithmeticUnderflow
            }),
    {
        let cur: Option<Deposits> = match self.deposits.get(sender, denom) {
            Some(d) => Some(d.clone()),
            None => None,
        };
        let d = match cur {
            Some(d) => d,
            None => {
                return Err(ContractError::NoDepositFound);
            },
        };
        if amount > d.coins.amount {
            return Err(ContractError::ArithmeticUnderflow);
        }
        if d.count == i32::MIN {
            return Err(ContractError::ArithmeticUnderflow);
        }
        let nd = Deposits {
            count: d.count - 1,
            owner: d.owner,
            coins: Coin { denom: d.coins.denom, amount: d.coins.amount - amount },
        };
        self.deposits.set(sender, denom, nd);
        proof {
            assert forall|a: Seq<char>, b: Seq<char>|
                #[trigger] self.deposits.spec_get(a, b) is Some implies (self.deposits.spec_get(
                a,
                b,
            )->Some_0).owner@ == a && (self.deposits.spec_get(a, b)->Some_0).coins.denom@ == b by {
                if !(a == sender@ && b == denom@) {
                    assert(self.deposits.spec_get(a, b) == old(self).deposits.spec_get(a, b));
                }
            }
        }
        Ok(
            MoverMsg::SendNative {
                to_address: sender.to_owned(),
                denom: denom.to_owned(),
                amount,
            },
        )
    }

    /// Credits a fungible deposit of `amount` on `contract` to `owner` at
    /// `height`, refreshing the time lock to `height` plus the lock period
    /// — a second deposit before the first lock expires pushes the unlock
    /// further out — and counts the event into the snapshotted total. Any
    /// range overflow is rejected and changes nothing.
    pub fn execute_cw20_deposit(
        &mut self,
        height: u64,
        owner: &str,
        contract: &str,
        amount: u128,
    ) -> (r: Result<(), ContractError>)
        requires
            old(self).wf(),
            height >= old(self).seen_height(),
        ensures
            final(self).wf(),
            r is Ok <==> fungible_can_add(*old(self), owner@, contract@, amount, height),
            r is Ok ==> fungible_deposited(
                *old(self),
                *final(self),
                owner@,
                contract@,
                amount,
                height,
            ),
            r is Ok ==> final(self).seen_height() == height,
            r is Err ==> *final(self) == *old(self),
            r is Err ==> r->Err_0 == ContractError::ArithmeticOverflow,
    {
        if height > u64::MAX - LOCK_PERIOD {
            return Err(ContractError::ArithmeticOverflow);
        }
        let expiration = Expiration::AtHeight(height + LOCK_PERIOD);
        let tot = match self.total_cw20_deposits.get_current() {
            Some(t) => t,
            None => 0,
        };
        if tot == u64::MAX {
            return Err(ContractError::ArithmeticOverflow);
        }
        let cur: Option<Cw20Deposits> = match self.cw20_deposits.get(owner, contract) {
            Some(d) => Some(d.clone()),
            None => None,
        };
        match cur {
            Some(d) => {
                if d.amount > u128::MAX - amount {
                    return Err(ContractError::ArithmeticOverflow);
                }
                if d.count == u64::MAX {
                    return Err(ContractError::ArithmeticOverflow);
                }
                let nd = Cw20Deposits {
                    count: d.count + 1,
                    owner: d.owner,
                    contract: d.contract,
                    amount: d.amount + amount,
                    unlock_height: expiration,
                };
                self.cw20_deposits.set(owner, contract, nd);
            },
            None => {
                let nd = Cw20Deposits {
                    count: 1,
                    owner: owner.to_owned(),
                    contract: contract.to_owned(),
                    amount,
                    unlock_height: expiration,
                };
                self.cw20_deposits.set(owner, contract, nd);
            },
        }
        self.total_cw20_deposits.update(height, tot + 1);
        proof {
            assert forall|a: Seq<char>, b: Seq<char>|
                #[trigger] self.cw20_deposits.spec_get(a, b) is Some implies (
            self.cw20_deposits.spec_get(a, b)->Some_0).owner@ == a && (self.cw20_deposits.spec_get(
                a,
                b,
            )->Some_0).contract@ == b by {
                if !(a == owner@ && b == contract@) {
                    assert(self.cw20_deposits.spec_get(a, b) == old(self).cw20_deposits.spec_get(
                        a,
                        b,
                    ));
                }
            }
        }
        Ok(())
    }

    /// Withdraws `amount` of the fungible token `contract` for `sender`,
    /// permitted only at or past the record's unlock height, counts the
    /// event out of the snapshotted total, and instructs the value mover.
    /// A missing record, an unexpired lock, a shortfall, or an exhausted
    /// count is rejected and changes nothing.
    pub fn execute_cw20_withdraw(
        &mut self,
        height: u64,
        sender: &str,
        contract: &str,
        amount: u128,
    ) -> (r: Result<MoverMsg, ContractError>)
        requires
            old(self).wf(),
            height >= old(self).seen_height(),
        ensures
            final(self).wf(),
            r is Ok <==> fungible_can_sub(*old(self), sender@, contract@, amount, height),
            r is Ok ==> fungible_withdrawn(
                *old(self),
                *final(self),
                sender@,
                contract@,
                amount,
                height,
            ),
            r is Ok ==> (r->Ok_0 matches MoverMsg::SendFungible {
                contract: c2,
                recipient,
                amount: a2,
            } && c2@ == contract@ && recipient@ == sender@ && a2 == amount),
            r is Ok ==> final(self).seen_height() == height,
            r is Err ==> *final(self) == *old(self),
            r is Err ==> r->Err_0 == (if old(self).cw20_deposits.spec_get(sender@, contract@)
                is None {
                ContractError::NoFungibleDeposit
            } else if !spec_expired(
                (old(self).cw20_deposits.spec_get(sender@, contract@)->Some_0).unlock_height,
                height,
            ) {
                ContractError::LockNotExpired
            } else {
                ContractError::ArithmeticUnderflow
            }),
    {
        let cur: Option<Cw20Deposits> = match self.cw20_deposits.get(sender, contract) {
            Some(d) => Some(d.clone()),
            None => None,
        };
        let d = match cur {
            Some(d) => d,
            None => {
                return Err(ContractError::NoFungibleDeposit);
            },
        };
        if !is_expired(d.unlock_height, height) {
            return Err(ContractError::LockNotExpired);
        }
        if amount > d.amount {
            return Err(ContractError::ArithmeticUnderflow);
        }
        if d.count == 0 {
            return Err(ContractError::ArithmeticUnderflow);
        }
        let tot = match self.total_cw20_deposits.get_current() {
            Some(t) => t,
            None => 0,
        };
        if tot == 0 {
            return Err(ContractError::ArithmeticUnderflow);
        }
        let nd = Cw20Deposits {
            count: d.count - 1,
            owner: d.owner,
            contract: d.contract,
            amount: d.amount - amount,
            unlock_height: d.unlock_height,
        };
        self.cw20_deposits.set(sender, contract, nd);
        self.total_cw20_deposits.update(height, tot - 1);
        proof {
            assert forall|a: Seq<char>, b: Seq<char>|
                #[trigger] self.cw20_deposits.spec_get(a, b) is Some implies (
            self.cw20_deposits.spec_get(a, b)->Some_0).owner@ == a && (self.cw20_deposits.spec_get(
                a,
                b,
            )->Some_0).contract@ == b by {
                if !(a == sender@ && b == contract@) {
                    assert(self.cw20_deposits.spec_get(a, b) == old(self).cw20_deposits.spec_get(
                        a,
                        b,
                    ));
                }
            }
        }
        Ok(
            MoverMsg::SendFungible {
                contract: contract.to_owned(),
                recipient: sender.to_owned(),
                amount,
            },
        )
    }

    /// Records the holding of `token_id` on `contract` by `owner` at
    /// `height`. Re-depositing an already-held key overwrites its record;
    /// no duplicate-detection error is raised.
    pub fn execute_cw721_deposit(
        &mut self,
        height: u64,
        owner: &str,
        contract: &str,
        token_id: &str,
    ) -> (r: Result<(), ContractError>)
        requires
            old(self).wf(),
            height >= old(self).seen_height(),
        ensures
            final(self).wf(),
            r is Ok,
            nft_deposited(*old(self), *final(self), owner@, contract@, token_id@, height),
            final(self).seen_height() == height,
    {
        self.cw721_deposits.save(contract, token_id, owner, height);
        Ok(())
    }

    /// Releases the token `token_id` held on `contract` to `sender` at
    /// `height` and instructs the value mover. A missing record is
    /// rejected; when the owner check is enforced, so is a withdrawer other
    /// than the recorded owner. Rejection changes nothing.
    pub fn execute_cw721_withdraw(
        &mut self,
        height: u64,
        sender: &str,
        contract: &str,
        token_id: &str,
    ) -> (r: Result<MoverMsg, ContractError>)
        requires
            old(self).wf(),
            height >= old(self).seen_height(),
        ensures
            final(self).wf(),
            r is Ok <==> nft_can_withdraw(*old(self), sender@, contract@, token_id@),
            r is Ok ==> nft_withdrawn(*old(self), *final(self), contract@, token_id@, height),
            r is Ok ==> (r->Ok_0 matches MoverMsg::SendNonFungible {
                contract: c2,
                recipient,
                token_id: t2,
            } && c2@ == contract@ && recipient@ == sender@ && t2@ == token_id@),
            r is Ok ==> final(self).seen_height() == height,
            r is Err ==> *final(self) == *old(self),
            r is Err ==> r->Err_0 == (if old(self).cw721_deposits.holding(contract@, token_id@)
                is None {
                ContractError::NoNonFungibleDeposit
            } else {
                ContractError::Unauthorized
            }),
    {
        let held: Option<Cw721Deposits> = match self.cw721_deposits.primary.get(
            contract,
            token_id,
        ) {
            Some(d) => Some(d.clone()),
            None => None,
        };
        let d = match held {
            Some(d) => d,
            None => {
                return Err(ContractError::NoNonFungibleDeposit);
            },
        };
        if self.enforce_nft_owner && !crate::keys::str_eq(d.owner.as_str(), sender) {
            return Err(ContractError::Unauthorized);
        }
        let removed = self.cw721_deposits.remove(contract, token_id, height);
        proof {
            assert(removed is Some);
        }
        Ok(
            MoverMsg::SendNonFungible {
                contract: contract.to_owned(),
                recipient: sender.to_owned(),
                token_id: token_id.to_owned(),
            },
        )
    }

    /// All native deposits of one owner, ascending by denom.
    pub fn query_deposits(&self, address: &str) -> (r: DepositResponse)
        requires
            self.wf(),
        ensures
            lists_native(*self, address@, r.deposits@),
    {
        let (lo, hi) = self.deposits.scan_prefix(address);
        let mut out: Vec<Deposits> = Vec::new();
        let mut i: usize = lo;
        while i < hi
            invariant
                lo <= i <= hi <= self.deposits.entries@.len(),
                self.wf(),
                out@.len() == i - lo,
                forall|x: int|
                    lo <= x < hi ==> (#[trigger] self.deposits.entries@.index(x)).k1@ == address@,
                forall|x: int|
                    0 <= x < out@.len() ==> #[trigger] out@.index(x) == self.deposits.entries@.index(
                        lo + x,
                    ).v,
            decreases hi - i,
        {
            let e = self.deposits.entry_at(i);
            out.push(e.v.clone());
            i = i + 1;
        }
        proof {
            assert forall|x: int| 0 <= x < out@.len() implies (#[trigger] out@.index(x)).owner@
                == address@ && self.deposits.spec_get(address@, out@.index(x).coins.denom@)
                == Some(out@.index(x)) by {
                self.deposits.lemma_entry_found(lo + x);
            }
            assert forall|b: Seq<char>| #[trigger] self.deposits.spec_get(address@, b) is Some
                implies exists|i2: int|
                0 <= i2 < out@.len() && (#[trigger] out@.index(i2)).coins.denom@ == b by {
                self.deposits.lemma_found_entry(address@, b);
                let w = choose|w: int|
                    0 <= w < self.deposits.entries@.len()
                        && (#[trigger] self.deposits.entries@.index(w)).k1@ == address@
                        && self.deposits.entries@.index(w).k2@ == b && self.deposits.spec_get(
                        address@,
                        b,
                    ) == Some(self.deposits.entries@.index(w).v);
                assert(lo <= w < hi);
                self.deposits.lemma_entry_found(w);
                assert(out@.index(w - lo).coins.denom@ == b);
            }
            assert forall|i2: int, j2: int| 0 <= i2 < j2 < out@.len() implies crate::keys::lex_lt(
                (#[trigger] out@.index(i2)).coins.denom@,
                (#[trigger] out@.index(j2)).coins.denom@,
            ) by {
                let ei = self.deposits.entries@.index(lo + i2);
                let ej = self.deposits.entries@.index(lo + j2);
                assert(crate::store::key_lt(ei.k1@, ei.k2@, ej.k1@, ej.k2@));
                crate::keys::lemma_lex_trichotomy(ei.k1@, ej.k1@);
                self.deposits.lemma_entry_found(lo + i2);
                self.deposits.lemma_entry_found(lo + j2);
            }
        }
        DepositResponse { deposits: out }
    }

    /// All fungible deposits of one owner, ascending by token contract.
    pub fn query_cw20_deposits(&self, address: &str) -> (r: Cw20DepositResponse)
        requires
            self.wf(),
        ensures
            lists_fungible(*self, address@, r.deposits@),
    {
        let (lo, hi) = self.cw20_deposits.scan_prefix(address);
        let mut out: Vec<Cw20Deposits> = Vec::new();
        let mut i: usize = lo;
        while i < hi
            invariant
                lo <= i <= hi <= self.cw20_deposits.entries@.len(),
                self.wf(),
                out@.len() == i - lo,
                forall|x: int|
                    lo <= x < hi ==> (#[trigger] self.cw20_deposits.entries@.index(x)).k1@
                        == address@,
                forall|x: int|
                    0 <= x < out@.len() ==> #[trigger] out@.index(x)
                        == self.cw20_deposits.entries@.index(lo + x).v,
            decreases hi - i,
        {
            let e = self.cw20_deposits.entry_at(i);
            out.push(e.v.clone());
            i = i + 1;
        }
        proof {
            assert forall|x: int| 0 <= x < out@.len() implies (#[trigger] out@.index(x)).owner@
                == address@ && self.cw20_deposits.spec_get(address@, out@.index(x).contract@)
                == Some(out@.index(x)) by {
                self.cw20_deposits.lemma_entry_found(lo + x);
            }
            assert forall|b: Seq<char>| #[trigger] self.cw20_deposits.spec_get(address@, b)
                is Some implies exists|i2: int|
                0 <= i2 < out@.len() && (#[trigger] out@.index(i2)).contract@ == b by {
                self.cw20_deposits.lemma_found_entry(address@, b);
                let w = choose|w: int|
                    0 <= w < self.cw20_deposits.entries@.len()
                        && (#[trigger] self.cw20_deposits.entries@.index(w)).k1@ == address@
                        && self.cw20_deposits.entries@.index(w).k2@ == b
                        && self.cw20_deposits.spec_get(address@, b) == Some(
                        self.cw20_deposits.entries@.index(w).v,
                    );
                assert(lo <= w < hi);
                self.cw20_deposits.lemma_entry_found(w);
                assert(out@.index(w - lo).contract@ == b);
            }
            assert forall|i2: int, j2: int| 0 <= i2 < j2 < out@.len() implies crate::keys::lex_lt(
                (#[trigger] out@.index(i2)).contract@,
                (#[trigger] out@.index(j2)).contract@,
            ) by {
                let ei = self.cw20_deposits.entries@.index(lo + i2);
                let ej = self.cw20_deposits.entries@.index(lo + j2);
                assert(crate::store::key_lt(ei.k1@, ei.k2@, ej.k1@, ej.k2@));
                crate::keys::lemma_lex_trichotomy(ei.k1@, ej.k1@);
                self.cw20_deposits.lemma_entry_found(lo + i2);
                self.cw20_deposits.lemma_entry_found(lo + j2);
            }
        }
        Cw20DepositResponse { deposits: out }
    }

    /// All holdings on one token contract, ascending by token id.
    pub fn query_cw721_by_contract(&self, contract: &str) -> (r: Cw721DepositResponse)
        requires
            self.wf(),
        ensures
            lists_nft_by_contract(*self, contract@, r.deposits@),
    {
        Cw721DepositResponse { deposits: self.cw721_deposits.list_by_contract(contract) }
    }

    /// All holdings of one owner, ascending by (contract, token id).
    pub fn query_cw721_by_owner(&self, address: &str) -> (r: Cw721DepositResponse)
        requires
            self.wf(),
        ensures
            lists_nft_by_owner(*self, address@, r.deposits@),
    {
        Cw721DepositResponse { deposits: self.cw721_deposits.list_by_owner(address) }
    }

    /// The changelog of the fungible total: (height, prior value) pairs,
    /// ascending by height.
    pub fn query_total_cw20_deposits_changelog(&self) -> (r: Vec<(u64, Option<u64>)>)
        ensures
            r@ == self.total_cw20_deposits.log_view(),
    {
        self.total_cw20_deposits.changelog()
    }

    /// Routes one host-delivered operation to its handler. `sender` is the
    /// caller's identity and `funds` the natively attached value; `height`
    /// is the height the host delivers the call at.
    pub fn execute(
        &mut self,
        height: u64,
        sender: &str,
        funds: &Vec<Coin>,
        msg: ExecuteMsg,
    ) -> (r: Result<Option<MoverMsg>, ContractError>)
        requires
            old(self).wf(),
            height >= old(self).seen_height(),
        ensures
            final(self).wf(),
            final(self).seen_height() <= height,
            r is Err ==> *final(self) == *old(self),
            match msg {
                ExecuteMsg::Deposit {} => {
                    &&& (r is Ok <==> funds@.len() > 0 && funds@[0].amount > 0 && native_can_add(
                        *old(self),
                        sender@,
                        funds@[0].denom@,
                        funds@[0].amount,
                    ))
                    &&& (r is Ok ==> native_deposited(
                        *old(self),
                        *final(self),
                        sender@,
                        funds@[0].denom@,
                        funds@[0].amount,
                    ) && r->Ok_0 is None)
                    &&& (r is Err ==> r->Err_0 == (if funds@.len() == 0 || funds@[0].amount == 0 {
                        ContractError::InvalidInput
                    } else {
                        ContractError::ArithmeticOverflow
                    }))
                },
                ExecuteMsg::Withdraw { amount, denom } => {
                    &&& (r is Ok <==> native_can_sub(*old(self), sender@, denom@, amount))
                    &&& (r is Ok ==> native_withdrawn(
                        *old(self),
                        *final(self),
                        sender@,
                        denom@,
                        amount,
                    ) && (r->Ok_0 matches Some(m) && (m matches MoverMsg::SendNative {
                        to_address,
                        denom: d2,
                        amount: a2,
                    } && to_address@ == sender@ && d2@ == denom@ && a2 == amount)))
                    &&& (r is Err ==> r->Err_0 == (if old(self).deposits.spec_get(
                        sender@,
                        denom@,
                    ) is None {
                        ContractError::NoDepositFound
                    } else {
                        ContractError::ArithmeticUnderflow
                    }))
                },
                ExecuteMsg::Receive(rm) => {
                    &&& (rm.msg is None ==> r is Err && r->Err_0
                        == ContractError::InvalidInput)
                    &&& (rm.msg is Some ==> {
                        &&& (r is Ok <==> fungible_can_add(
                            *old(self),
                            rm.sender@,
                            sender@,
                            rm.amount,
                            height,
                        ))
                        &&& (r is Ok ==> fungible_deposited(
                            *old(self),
                            *final(self),
                            rm.sender@,
                            sender@,
                            rm.amount,
                            height,
                        ) && r->Ok_0 is None && final(self).seen_height() == height)
                        &&& (r is Err ==> r->Err_0 == ContractError::ArithmeticOverflow)
                    })
                },
                ExecuteMsg::ReceiveNft(rm) => {
                    &&& (rm.msg is None ==> r is Err && r->Err_0
                        == ContractError::InvalidInput)
                    &&& (rm.msg is Some ==> r is Ok && nft_deposited(
                        *old(self),
                        *final(self),
                        rm.sender@,
                        sender@,
                        rm.token_id@,
                        height,
                    ) && r->Ok_0 is None && final(self).seen_height() == height)
                },
                ExecuteMsg::WithdrawCw20 { address, amount } => {
                    &&& (r is Ok <==> fungible_can_sub(
                        *old(self),
                        sender@,
                        address@,
                        amount,
                        height,
                    ))
                    &&& (r is Ok ==> fungible_withdrawn(
                        *old(self),
                        *final(self),
                        sender@,
                        address@,
                        amount,
                        height,
                    ) && (r->Ok_0 matches Some(m) && (m matches MoverMsg::SendFungible {
                        contract: c2,
                        recipient,
                        amount: a2,
                    } && c2@ == address@ && recipient@ == sender@ && a2 == amount)))
                    &&& (r is Ok ==> final(self).seen_height() == height)
                    &&& (r is Err ==> r->Err_0 == (if old(self).cw20_deposits.spec_get(
                        sender@,
                        address@,
                    ) is None {
                        ContractError::NoFungibleDeposit
                    } else if !spec_expired(
                        (old(self).cw20_deposits.spec_get(sender@, address@)->Some_0).unlock_height,
                        height,
                    ) {
                        ContractError::LockNotExpired
                    } else {
                        ContractError::ArithmeticUnderflow
                    }))
                },
                ExecuteMsg::WithdrawNft { contract_addr, token_id } => {
                    &&& (r is Ok <==> nft_can_withdraw(
                        *old(self),
                        sender@,
                        contract_addr@,
                        token_id@,
                    ))
                    &&& (r is Ok ==> nft_withdrawn(
                        *old(self),
                        *final(self),
                        contract_addr@,
                        token_id@,
                        height,
                    ) && (r->Ok_0 matches Some(m) && (m matches MoverMsg::SendNonFungible {
                        contract: c2,
                        recipient,
                        token_id: t2,
                    } && c2@ == contract_addr@ && recipient@ == sender@ && t2@ == token_id@)))
                    &&& (r is Ok ==> final(self).seen_height() == height)
                    &&& (r is Err ==> r->Err_0 == (if old(self).cw721_deposits.holding(
                        contract_addr@,
                        token_id@,
                    ) is None {
                        ContractError::NoNonFungibleDeposit
                    } else {
                        ContractError::Unauthorized
                    }))
                },
            },
    {
        match msg {
            ExecuteMsg::Deposit {} => {
                match self.execute_deposit(sender, funds) {
                    Ok(()) => Ok(None),
                    Err(e) => Err(e),
                }
            },
            ExecuteMsg::Withdraw { amount, denom } => {
                match self.execute_withdraw(sender, amount, denom.as_str()) {
                    Ok(m) => Ok(Some(m)),
                    Err(e) => Err(e),
                }
            },
            ExecuteMsg::Receive(rm) => receive_cw20(self, height, sender, rm),
            ExecuteMsg::ReceiveNft(rm) => receive_cw721(self, height, sender, rm),
            ExecuteMsg::WithdrawCw20 { address, amount } => {
                match self.execute_cw20_withdraw(height, sender, address.as_str(), amount) {
                    Ok(m) => Ok(Some(m)),
                    Err(e) => Err(e),
                }
            },
            ExecuteMsg::WithdrawNft { contract_addr, token_id } => {
                match self.execute_cw721_withdraw(
                    height,
                    sender,
                    contract_addr.as_str(),
                    token_id.as_str(),
                ) {
                    Ok(m) => Ok(Some(m)),
                    Err(e) => Err(e),
                }
            },
        }
    }

    /// Answers one host-delivered question; never mutates state.
    pub fn query(&self, msg: QueryMsg) -> (r: QueryAnswer)
        requires
            self.wf(),
        ensures
            match msg {
                QueryMsg::Deposits { address } => r matches QueryAnswer::Deposits(resp)
                    && lists_native(*self, address@, resp.deposits@),
                QueryMsg::Cw20Deposits { address } => r matches QueryAnswer::Cw20Deposits(resp)
                    && lists_fungible(*self, address@, resp.deposits@),
                QueryMsg::Cw721DepositsByContract { contract_addr } => r matches
                    QueryAnswer::Cw721Deposits(resp) && lists_nft_by_contract(
                    *self,
                    contract_addr@,
                    resp.deposits@,
                ),
                QueryMsg::Cw721DepositsByOwner { address } => r matches QueryAnswer::Cw721Deposits(
                    resp,
                ) && lists_nft_by_owner(*self, address@, resp.deposits@),
            },
    {
        match msg {
            QueryMsg::Deposits { address } => {
                QueryAnswer::Deposits(self.query_deposits(address.as_str()))
            },
            QueryMsg::Cw20Deposits { address } => {
                QueryAnswer::Cw20Deposits(self.query_cw20_deposits(address.as_str()))
            },
            QueryMsg::Cw721DepositsByContract { contract_addr } => {
                QueryAnswer::Cw721Deposits(self.query_cw721_by_contract(contract_addr.as_str()))
            },
            QueryMsg::Cw721DepositsByOwner { address } => {
                QueryAnswer::Cw721Deposits(self.query_cw721_by_owner(address.as_str()))
            },
        }
    }
}

/// Handles a fungible-token transfer notification: a deposit order from
/// `cw20_msg.sender`, arriving through the token contract that is calling
/// (`token_contract`). Any other or undecodable embedded order is rejected.
pub fn receive_cw20(
    deposit: &mut Deposit,
    height: u64,
    token_contract: &str,
    cw20_msg: Cw20ReceiveMsg,
) -> (r: Result<Option<MoverMsg>, ContractError>)
    requires
        old(deposit).wf(),
        height >= old(deposit).seen_height(),
    ensures
        final(deposit).wf(),
        final(deposit).seen_height() <= height,
        r is Err ==> *final(deposit) == *old(deposit),
        cw20_msg.msg is None ==> r is Err && r->Err_0 == ContractError::InvalidInput,
        cw20_msg.msg is Some ==> {
            &&& (r is Ok <==> fungible_can_add(
                *old(deposit),
                cw20_msg.sender@,
                token_contract@,
                cw20_msg.amount,
                height,
            ))
            &&& (r is Ok ==> fungible_deposited(
                *old(deposit),
                *final(deposit),
                cw20_msg.sender@,
                token_contract@,
                cw20_msg.amount,
                height,
            ) && r->Ok_0 is None && final(deposit).seen_height() == height)
            &&& (r is Err ==> r->Err_0 == ContractError::ArithmeticOverflow)
        },
{
    match cw20_msg.msg {
        Some(Cw20HookMsg::Deposit) => {
            match deposit.execute_cw20_deposit(
                height,
                cw20_msg.sender.as_str(),
                token_contract,
                cw20_msg.amount,
            ) {
                Ok(()) => Ok(None),
                Err(e) => Err(e),
            }
        },
        _ => Err(ContractError::InvalidInput),
    }
}

/// Handles a non-fungible-token transfer notification: a deposit order
/// from `cw721_msg.sender`, arriving through the token contract that is
/// calling. Any other or undecodable embedded order is rejected.
pub fn receive_cw721(
    deposit: &mut Deposit,
    height: u64,
    token_contract: &str,
    cw721_msg: Cw721ReceiveMsg,
) -> (r: Result<Option<MoverMsg>, ContractError>)
    requires
        old(deposit).wf(),
        height >= old(deposit).seen_height(),
    ensures
        final(deposit).wf(),
        final(deposit).seen_height() <= height,
        r is Err ==> *final(deposit) == *old(deposit),
        cw721_msg.msg is None ==> r is Err && r->Err_0 == ContractError::InvalidInput,
        cw721_msg.msg is Some ==> r is Ok && nft_deposited(
            *old(deposit),
            *final(deposit),
            cw721_msg.sender@,
            token_contract@,
            cw721_msg.token_id@,
            height,
        ) && r->Ok_0 is None && final(deposit).seen_height() == height,
{
    match cw721_msg.msg {
        Some(Cw721HookMsg::Deposit) => {
            match deposit.execute_cw721_deposit(
                height,
                cw721_msg.sender.as_str(),
                token_contract,
                cw721_msg.token_id.as_str(),
            ) {
                Ok(()) => Ok(None),
                Err(e) => Err(e),
            }
        },
        _ => Err(ContractError::InvalidInput),
    }
}

} // verus!

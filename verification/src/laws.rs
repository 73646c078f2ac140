//! Ledger-wide laws: properties that relate several operations, proved
//! from the operations' own contracts.

use vstd::prelude::*;
use crate::contract::{
    native_deposited, fungible_deposited, nft_deposited, nft_withdrawn, lists_nft_by_contract,
    LOCK_PERIOD,
};
use crate::snapshot::replay;
use crate::state::{Deposit, Cw721Deposits, Expiration};
use crate::keys::lemma_lex_trichotomy;

verus! {

/// Accumulation: depositing into the same (owner, denom) twice, amounts
/// `a` then `b`, starting from no record, leaves one record with balance
/// `a + b` and two counted events.
pub proof fn lemma_native_accumulation(
    s0: Deposit,
    s1: Deposit,
    s2: Deposit,
    owner: Seq<char>,
    denom: Seq<char>,
    a: u128,
    b: u128,
)
    requires
        s0.deposits.spec_get(owner, denom) is None,
        native_deposited(s0, s1, owner, denom, a),
        native_deposited(s1, s2, owner, denom, b),
    ensures
        s2.deposits.spec_get(owner, denom) matches Some(d) && d.coins.amount == a + b && d.count
            == 2,
{
}

/// Accumulation: depositing the same fungible (owner, contract) twice,
/// amounts `a` then `b`, starting from no record, leaves one record with
/// balance `a + b` and two counted events.
pub proof fn lemma_fungible_accumulation(
    s0: Deposit,
    s1: Deposit,
    s2: Deposit,
    owner: Seq<char>,
    contract: Seq<char>,
    a: u128,
    b: u128,
    h1: u64,
    h2: u64,
)
    requires
        s0.cw20_deposits.spec_get(owner, contract) is None,
        fungible_deposited(s0, s1, owner, contract, a, h1),
        fungible_deposited(s1, s2, owner, contract, b, h2),
    ensures
        s2.cw20_deposits.spec_get(owner, contract) matches Some(d) && d.amount == a + b && d.count
            == 2,
{
}

/// Lock monotonicity: a fungible deposit at height `h` and another at
/// `h + 5` leave the unlock at `h + 5` plus the lock period — the later
/// deposit pushes the lock out; it never keeps the earlier, shorter one.
pub proof fn lemma_lock_monotonicity(
    s0: Deposit,
    s1: Deposit,
    s2: Deposit,
    owner: Seq<char>,
    contract: Seq<char>,
    a: u128,
    b: u128,
    h: u64,
)
    requires
        h + 5 + LOCK_PERIOD <= u64::MAX,
        fungible_deposited(s0, s1, owner, contract, a, h),
        fungible_deposited(s1, s2, owner, contract, b, (h + 5) as u64),
    ensures
        s2.cw20_deposits.spec_get(owner, contract) matches Some(d) && d.unlock_height
            == Expiration::AtHeight((h + 5 + LOCK_PERIOD) as u64),
{
}

/// Non-fungible exclusivity: right after a deposit of (contract, token),
/// the listing of that contract carries exactly one record for the token,
/// and it names the depositing owner.
pub proof fn lemma_nft_exclusivity(
    s0: Deposit,
    s1: Deposit,
    owner: Seq<char>,
    contract: Seq<char>,
    token: Seq<char>,
    height: u64,
    out: Seq<Cw721Deposits>,
)
    requires
        nft_deposited(s0, s1, owner, contract, token, height),
        lists_nft_by_contract(s1, contract, out),
    ensures
        exists|i: int|
            0 <= i < out.len() && (#[trigger] out.index(i)).token_id@ == token && out.index(
                i,
            ).owner@ == owner,
        forall|i: int, j: int|
            0 <= i < out.len() && 0 <= j < out.len() && (#[trigger] out.index(i)).token_id@
                == token && (#[trigger] out.index(j)).token_id@ == token ==> i == j,
{
    assert(s1.cw721_deposits.primary.spec_get(contract, token) is Some);
    let w = choose|i: int|
        0 <= i < out.len() && (#[trigger] out.index(i)).token_id@ == token;
    assert(s1.cw721_deposits.primary.spec_get(contract, out.index(w).token_id@) == Some(
        out.index(w),
    ));
    assert(out.index(w).owner@ == owner);
    assert forall|i: int, j: int|
        0 <= i < out.len() && 0 <= j < out.len() && (#[trigger] out.index(i)).token_id@ == token
            && (#[trigger] out.index(j)).token_id@ == token implies i == j by {
        if i < j {
            lemma_lex_trichotomy(out.index(i).token_id@, out.index(j).token_id@);
        }
        if j < i {
            lemma_lex_trichotomy(out.index(j).token_id@, out.index(i).token_id@);
        }
    }
}

/// Non-fungible exclusivity, after the withdrawal: the record is gone from
/// the primary store and from the owner index, and no listing of the
/// contract carries the token any more.
pub proof fn lemma_nft_withdraw_clears(
    s1: Deposit,
    s2: Deposit,
    contract: Seq<char>,
    token: Seq<char>,
    height: u64,
    out: Seq<Cw721Deposits>,
)
    requires
        nft_withdrawn(s1, s2, contract, token, height),
        lists_nft_by_contract(s2, contract, out),
    ensures
        s2.cw721_deposits.primary.spec_get(contract, token) is None,
        forall|o: Seq<char>| !(#[trigger] s2.cw721_deposits.owner_idx.contains(o, contract, token)),
        forall|i: int| 0 <= i < out.len() ==> (#[trigger] out.index(i)).token_id@ != token,
{
    assert forall|i: int| 0 <= i < out.len() implies (#[trigger] out.index(i)).token_id@
        != token by {
        if out.index(i).token_id@ == token {
            assert(s2.cw721_deposits.primary.spec_get(contract, token) == Some(out.index(i)));
        }
    }
}

/// Changelog consistency: the changelog of the fungible total together
/// with its current value are exactly what replaying every recorded
/// mutation from the unset state produces — replaying the transitions in
/// height order reconstructs the counter.
pub proof fn lemma_changelog_replay(s: Deposit)
    requires
        s.wf(),
    ensures
        (s.total_cw20_deposits.log_view(), s.total_cw20_deposits.current) == replay(
            s.total_cw20_deposits.hist@,
            s.total_cw20_deposits.hist@.len() as int,
        ),
{
}

} // verus!

use deposit_ledger::contract::LOCK_PERIOD;
use deposit_ledger::error::ContractError;
use deposit_ledger::msg::{
    Cw20HookMsg, Cw20ReceiveMsg, Cw721HookMsg, Cw721ReceiveMsg, ExecuteMsg, MoverMsg, QueryAnswer,
    QueryMsg,
};
use deposit_ledger::state::{Coin, Deposit, Expiration};

const USER: &str = "juno10c3slrqx3369mfsr9670au22zvq082jaej8ve4";

fn coin(amount: u128, denom: &str) -> Coin {
    Coin { denom: denom.to_string(), amount }
}

#[test]
fn deposit_native() {
    let mut contract = Deposit::new();
    let funds = vec![coin(1000, "denom")];
    contract
        .execute(1, USER, &funds, ExecuteMsg::Deposit {})
        .unwrap();

    let resp = contract.query_deposits(USER);
    assert_eq!(resp.deposits.len(), 1);
    assert_eq!(resp.deposits[0].coins.amount, 1000);
    assert_eq!(resp.deposits[0].coins.denom, "denom");
    assert_eq!(resp.deposits[0].count, 1);
    assert_eq!(resp.deposits[0].owner, USER);
}

#[test]
fn deposit_cw20() {
    let mut contract = Deposit::new();
    let cw20_contract = "cw20token";
    let msg = ExecuteMsg::Receive(Cw20ReceiveMsg {
        sender: USER.to_string(),
        amount: 500,
        msg: Some(Cw20HookMsg::Deposit),
    });
    contract.execute(1, cw20_contract, &vec![], msg).unwrap();

    let resp = contract.query_cw20_deposits(USER);
    assert_eq!(resp.deposits.len(), 1);
    assert_eq!(resp.deposits[0].amount, 500);
    assert_eq!(resp.deposits[0].count, 1);
    assert_eq!(resp.deposits[0].contract, cw20_contract);
}

#[test]
fn deposit_cw20_and_withdraw_after_expiration_has_passed() {
    let mut contract = Deposit::new();
    let cw20_contract = "cw20token";
    let height: u64 = 12345;
    let msg = ExecuteMsg::Receive(Cw20ReceiveMsg {
        sender: USER.to_string(),
        amount: 500,
        msg: Some(Cw20HookMsg::Deposit),
    });
    contract.execute(height, cw20_contract, &vec![], msg).unwrap();

    let withdraw = ExecuteMsg::WithdrawCw20 {
        address: cw20_contract.to_string(),
        amount: 500,
    };
    let moved = contract
        .execute(height + 20, USER, &vec![], withdraw)
        .unwrap();
    assert!(matches!(
        moved,
        Some(MoverMsg::SendFungible { ref contract, ref recipient, amount: 500 })
            if contract == "cw20token" && recipient == USER
    ));
    let resp = contract.query_cw20_deposits(USER);
    assert_eq!(resp.deposits[0].amount, 0);
}

#[test]
fn mint_then_deposit_nft_then_withdraw_nft_back_to_owner() {
    let mut contract = Deposit::new();
    let nft_contract = "nft";
    let msg = ExecuteMsg::ReceiveNft(Cw721ReceiveMsg {
        sender: USER.to_string(),
        token_id: "0".to_string(),
        msg: Some(Cw721HookMsg::Deposit),
    });
    contract.execute(1, nft_contract, &vec![], msg).unwrap();

    let held = contract.query_cw721_by_contract(nft_contract);
    assert_eq!(held.deposits.len(), 1);
    assert_eq!(held.deposits[0].owner, USER);
    assert_eq!(held.deposits[0].token_id, "0");

    let withdraw = ExecuteMsg::WithdrawNft {
        contract_addr: nft_contract.to_string(),
        token_id: "0".to_string(),
    };
    let moved = contract.execute(2, USER, &vec![], withdraw).unwrap();
    assert!(matches!(
        moved,
        Some(MoverMsg::SendNonFungible { ref contract, ref recipient, ref token_id })
            if contract == "nft" && recipient == USER && token_id == "0"
    ));
    let held = contract.query_cw721_by_contract(nft_contract);
    assert_eq!(held.deposits.len(), 0);
    let by_owner = contract.query_cw721_by_owner(USER);
    assert_eq!(by_owner.deposits.len(), 0);
}

#[test]
fn native_accumulation() {
    let mut d = Deposit::new();
    d.execute_deposit("alice", &vec![coin(7, "u")]).unwrap();
    d.execute_deposit("alice", &vec![coin(5, "u")]).unwrap();
    let resp = d.query_deposits("alice");
    assert_eq!(resp.deposits.len(), 1);
    assert_eq!(resp.deposits[0].coins.amount, 12);
    assert_eq!(resp.deposits[0].count, 2);
}

#[test]
fn fungible_accumulation() {
    let mut d = Deposit::new();
    d.execute_cw20_deposit(3, "alice", "tok", 7).unwrap();
    d.execute_cw20_deposit(4, "alice", "tok", 5).unwrap();
    let resp = d.query_cw20_deposits("alice");
    assert_eq!(resp.deposits.len(), 1);
    assert_eq!(resp.deposits[0].amount, 12);
    assert_eq!(resp.deposits[0].count, 2);
}

#[test]
fn lock_monotonicity() {
    let mut d = Deposit::new();
    let h: u64 = 100;
    d.execute_cw20_deposit(h, "alice", "tok", 10).unwrap();
    d.execute_cw20_deposit(h + 5, "alice", "tok", 10).unwrap();
    let resp = d.query_cw20_deposits("alice");
    assert_eq!(
        resp.deposits[0].unlock_height,
        Expiration::AtHeight(h + 5 + LOCK_PERIOD)
    );
    // the refreshed lock holds: one height short of it still fails
    let before = d.execute_cw20_withdraw(h + 5 + LOCK_PERIOD - 1, "alice", "tok", 20);
    assert_eq!(before.unwrap_err(), ContractError::LockNotExpired);
    assert!(d.execute_cw20_withdraw(h + 5 + LOCK_PERIOD, "alice", "tok", 20).is_ok());
}

#[test]
fn lock_enforcement() {
    let mut d = Deposit::new();
    let h: u64 = 50;
    d.execute_cw20_deposit(h, "alice", "tok", 300).unwrap();
    assert_eq!(d.total_cw20_deposits.get_current(), Some(1));

    let early = d.execute_cw20_withdraw(h + LOCK_PERIOD - 1, "alice", "tok", 100);
    assert_eq!(early.unwrap_err(), ContractError::LockNotExpired);
    assert_eq!(d.query_cw20_deposits("alice").deposits[0].amount, 300);
    assert_eq!(d.total_cw20_deposits.get_current(), Some(1));

    d.execute_cw20_withdraw(h + LOCK_PERIOD, "alice", "tok", 100).unwrap();
    assert_eq!(d.query_cw20_deposits("alice").deposits[0].amount, 200);
    assert_eq!(d.total_cw20_deposits.get_current(), Some(0));
}

#[test]
fn nft_exclusivity() {
    let mut d = Deposit::new();
    d.execute_cw721_deposit(1, "alice", "c", "t").unwrap();

    let by_contract = d.query_cw721_by_contract("c");
    assert_eq!(by_contract.deposits.len(), 1);
    assert_eq!(by_contract.deposits[0].owner, "alice");
    assert_eq!(by_contract.deposits[0].token_id, "t");

    let by_owner = d.query_cw721_by_owner("alice");
    assert_eq!(by_owner.deposits.len(), 1);

    d.execute_cw721_withdraw(2, "alice", "c", "t").unwrap();
    assert_eq!(d.query_cw721_by_contract("c").deposits.len(), 0);
    assert_eq!(d.query_cw721_by_owner("alice").deposits.len(), 0);
}

#[test]
fn changelog_replay() {
    let mut d = Deposit::new();
    d.execute_cw20_deposit(1, "a", "t", 10).unwrap();
    d.execute_cw20_deposit(1, "b", "t", 10).unwrap();
    d.execute_cw20_deposit(2, "a", "t", 10).unwrap();
    d.execute_cw20_withdraw(25, "a", "t", 5).unwrap();

    let log = d.query_total_cw20_deposits_changelog();
    assert_eq!(log, vec![(1, None), (2, Some(2)), (25, Some(3))]);
    assert_eq!(d.total_cw20_deposits.get_current(), Some(2));

    // replay: each recorded prior value, then the current value, chains
    // exactly through the transitions in height order
    let mut value: Option<u64> = None;
    for i in 0..log.len() {
        assert_eq!(log[i].1, value);
        value = if i + 1 < log.len() { log[i + 1].1 } else { d.total_cw20_deposits.get_current() };
    }
    assert_eq!(value, Some(2));

    // the reconstruction agrees with every recorded height
    assert_eq!(d.total_cw20_deposits.load_at(1), None);
    assert_eq!(d.total_cw20_deposits.load_at(2), Some(2));
    assert_eq!(d.total_cw20_deposits.load_at(25), Some(3));
    assert_eq!(d.total_cw20_deposits.load_at(26), Some(2));

    // a range query clips the changelog to the asked heights
    assert_eq!(d.total_cw20_deposits.changelog_range(2, 26), vec![(2, Some(2)), (25, Some(3))]);
    assert_eq!(d.total_cw20_deposits.changelog_range(0, 2), vec![(1, None)]);
    assert_eq!(d.total_cw20_deposits.changelog_range(3, 25), vec![]);
}

#[test]
fn underflow_safety() {
    let mut d = Deposit::new();
    d.execute_deposit("alice", &vec![coin(100, "u")]).unwrap();
    let r = d.execute_withdraw("alice", 200, "u");
    assert_eq!(r.unwrap_err(), ContractError::ArithmeticUnderflow);
    assert_eq!(d.query_deposits("alice").deposits[0].coins.amount, 100);

    d.execute_cw20_deposit(1, "alice", "tok", 100).unwrap();
    let r = d.execute_cw20_withdraw(1 + LOCK_PERIOD, "alice", "tok", 200);
    assert_eq!(r.unwrap_err(), ContractError::ArithmeticUnderflow);
    assert_eq!(d.query_cw20_deposits("alice").deposits[0].amount, 100);
}

#[test]
fn native_deposit_withdraw_scenario() {
    let mut d = Deposit::new();
    d.execute_deposit("alice", &vec![coin(1000, "u")]).unwrap();
    let resp = d.query_deposits("alice");
    assert_eq!(resp.deposits[0].coins.amount, 1000);
    assert_eq!(resp.deposits[0].count, 1);

    d.execute_deposit("alice", &vec![coin(500, "u")]).unwrap();
    let resp = d.query_deposits("alice");
    assert_eq!(resp.deposits[0].coins.amount, 1500);
    assert_eq!(resp.deposits[0].count, 2);

    let moved = d.execute_withdraw("alice", 1500, "u").unwrap();
    let resp = d.query_deposits("alice");
    assert_eq!(resp.deposits[0].coins.amount, 0);
    assert_eq!(resp.deposits[0].count, 1);
    assert!(matches!(
        moved,
        MoverMsg::SendNative { ref to_address, ref denom, amount: 1500 }
            if to_address == "alice" && denom == "u"
    ));
}

#[test]
fn query_dispatch() {
    let mut d = Deposit::new();
    d.execute_deposit("alice", &vec![coin(10, "u")]).unwrap();
    d.execute_cw20_deposit(1, "alice", "tok", 20).unwrap();
    d.execute_cw721_deposit(2, "alice", "c", "t").unwrap();

    match d.query(QueryMsg::Deposits { address: "alice".to_string() }) {
        QueryAnswer::Deposits(resp) => assert_eq!(resp.deposits[0].coins.amount, 10),
        _ => panic!("wrong answer kind"),
    }
    match d.query(QueryMsg::Cw20Deposits { address: "alice".to_string() }) {
        QueryAnswer::Cw20Deposits(resp) => assert_eq!(resp.deposits[0].amount, 20),
        _ => panic!("wrong answer kind"),
    }
    match d.query(QueryMsg::Cw721DepositsByContract { contract_addr: "c".to_string() }) {
        QueryAnswer::Cw721Deposits(resp) => assert_eq!(resp.deposits[0].token_id, "t"),
        _ => panic!("wrong answer kind"),
    }
    match d.query(QueryMsg::Cw721DepositsByOwner { address: "alice".to_string() }) {
        QueryAnswer::Cw721Deposits(resp) => assert_eq!(resp.deposits.len(), 1),
        _ => panic!("wrong answer kind"),
    }
}

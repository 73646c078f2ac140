use deposit_ledger::error::ContractError;
use deposit_ledger::msg::{Cw20ReceiveMsg, Cw721ReceiveMsg, ExecuteMsg};
use deposit_ledger::state::{Coin, Deposit, Expiration, is_expired};

fn coin(amount: u128, denom: &str) -> Coin {
    Coin { denom: denom.to_string(), amount }
}

#[test]
fn invalid_input_cases() {
    let mut d = Deposit::new();
    let r = d.execute_deposit("alice", &vec![]);
    assert_eq!(r.unwrap_err(), ContractError::InvalidInput);

    let r = d.execute_deposit("alice", &vec![coin(0, "u")]);
    assert_eq!(r.unwrap_err(), ContractError::InvalidInput);

    let bad_hook = ExecuteMsg::Receive(Cw20ReceiveMsg {
        sender: "alice".to_string(),
        amount: 5,
        msg: None,
    });
    let r = d.execute(1, "tok", &vec![], bad_hook);
    assert_eq!(r.unwrap_err(), ContractError::InvalidInput);

    let bad_hook = ExecuteMsg::ReceiveNft(Cw721ReceiveMsg {
        sender: "alice".to_string(),
        token_id: "t".to_string(),
        msg: None,
    });
    let r = d.execute(1, "c", &vec![], bad_hook);
    assert_eq!(r.unwrap_err(), ContractError::InvalidInput);
}

#[test]
fn missing_record_errors() {
    let mut d = Deposit::new();
    let r = d.execute_withdraw("alice", 5, "u");
    assert_eq!(r.unwrap_err(), ContractError::NoDepositFound);

    let r = d.execute_cw20_withdraw(1, "alice", "tok", 5);
    assert_eq!(r.unwrap_err(), ContractError::NoFungibleDeposit);

    let r = d.execute_cw721_withdraw(1, "alice", "c", "t");
    assert_eq!(r.unwrap_err(), ContractError::NoNonFungibleDeposit);
}

#[test]
fn unauthorized_nft_withdraw() {
    let mut d = Deposit::new();
    d.enforce_nft_owner = true;
    d.execute_cw721_deposit(1, "alice", "c", "t").unwrap();
    let r = d.execute_cw721_withdraw(2, "mallory", "c", "t");
    assert_eq!(r.unwrap_err(), ContractError::Unauthorized);
    assert_eq!(d.query_cw721_by_owner("alice").deposits.len(), 1);
    assert!(d.execute_cw721_withdraw(2, "alice", "c", "t").is_ok());
}

#[test]
fn overflow_errors() {
    let mut d = Deposit::new();
    d.execute_deposit("alice", &vec![coin(u128::MAX, "u")]).unwrap();
    let r = d.execute_deposit("alice", &vec![coin(1, "u")]);
    assert_eq!(r.unwrap_err(), ContractError::ArithmeticOverflow);
    assert_eq!(d.query_deposits("alice").deposits[0].coins.amount, u128::MAX);
    assert_eq!(d.query_deposits("alice").deposits[0].count, 1);

    // the refreshed unlock height must fit
    let r = d.execute_cw20_deposit(u64::MAX, "alice", "tok", 5);
    assert_eq!(r.unwrap_err(), ContractError::ArithmeticOverflow);
}

#[test]
fn scan_order_native() {
    let mut d = Deposit::new();
    d.execute_deposit("alice", &vec![coin(2, "b")]).unwrap();
    d.execute_deposit("alice", &vec![coin(1, "a")]).unwrap();
    d.execute_deposit("alice", &vec![coin(3, "c")]).unwrap();
    d.execute_deposit("bob", &vec![coin(9, "a")]).unwrap();

    let resp = d.query_deposits("alice");
    let denoms: Vec<&str> = resp.deposits.iter().map(|r| r.coins.denom.as_str()).collect();
    assert_eq!(denoms, vec!["a", "b", "c"]);
    let amounts: Vec<u128> = resp.deposits.iter().map(|r| r.coins.amount).collect();
    assert_eq!(amounts, vec![1, 2, 3]);
    assert_eq!(d.query_deposits("bob").deposits.len(), 1);
    assert_eq!(d.query_deposits("carol").deposits.len(), 0);
}

#[test]
fn scan_order_nft_by_owner() {
    let mut d = Deposit::new();
    d.execute_cw721_deposit(1, "alice", "c2", "t1").unwrap();
    d.execute_cw721_deposit(2, "alice", "c1", "t9").unwrap();
    d.execute_cw721_deposit(3, "alice", "c1", "t2").unwrap();
    d.execute_cw721_deposit(4, "bob", "c1", "t5").unwrap();

    let resp = d.query_cw721_by_owner("alice");
    let keys: Vec<(&str, &str)> = resp
        .deposits
        .iter()
        .map(|r| (r.contract.as_str(), r.token_id.as_str()))
        .collect();
    assert_eq!(keys, vec![("c1", "t2"), ("c1", "t9"), ("c2", "t1")]);

    let resp = d.query_cw721_by_contract("c1");
    let tokens: Vec<&str> = resp.deposits.iter().map(|r| r.token_id.as_str()).collect();
    assert_eq!(tokens, vec!["t2", "t5", "t9"]);
}

#[test]
fn nft_redeposit_relocates_owner_index() {
    let mut d = Deposit::new();
    d.execute_cw721_deposit(1, "alice", "c", "t").unwrap();
    // a re-deposit of the same key is permitted and overwrites the record
    d.execute_cw721_deposit(2, "bob", "c", "t").unwrap();

    assert_eq!(d.query_cw721_by_owner("alice").deposits.len(), 0);
    let resp = d.query_cw721_by_owner("bob");
    assert_eq!(resp.deposits.len(), 1);
    assert_eq!(resp.deposits[0].owner, "bob");
    assert_eq!(d.query_cw721_by_contract("c").deposits.len(), 1);
}

#[test]
fn nft_changelog_reconstruction() {
    let mut d = Deposit::new();
    d.execute_cw721_deposit(5, "alice", "c", "t").unwrap();
    d.execute_cw721_withdraw(8, "alice", "c", "t").unwrap();

    // before the first mutation the key was unheld
    assert!(d.cw721_deposits.load_at("c", "t", 5).is_none());
    // between deposit and removal it was alice's
    let held = d.cw721_deposits.load_at("c", "t", 6).unwrap();
    assert_eq!(held.owner, "alice");
    let held = d.cw721_deposits.load_at("c", "t", 8).unwrap();
    assert_eq!(held.owner, "alice");
    // after the removal it is unheld again
    assert!(d.cw721_deposits.load_at("c", "t", 9).is_none());
}

#[test]
fn expiration_rules() {
    assert!(!is_expired(Expiration::AtHeight(5), 4));
    assert!(is_expired(Expiration::AtHeight(5), 5));
    assert!(is_expired(Expiration::AtHeight(5), 6));
    assert!(!is_expired(Expiration::Never, u64::MAX));
}

#[test]
fn default_ledger_is_empty() {
    let d = Deposit::default();
    assert_eq!(d.query_deposits("anyone").deposits.len(), 0);
    assert_eq!(d.total_cw20_deposits.get_current(), None);
    assert_eq!(d.query_total_cw20_deposits_changelog().len(), 0);
    assert!(!d.enforce_nft_owner);
}

#[test]
fn fungible_count_underflow() {
    let mut d = Deposit::new();
    d.execute_cw20_deposit(1, "alice", "tok", 100).unwrap();
    d.execute_cw20_withdraw(21, "alice", "tok", 0).unwrap();
    // count is exhausted before the balance: a further withdrawal of the
    // remaining balance cannot count an event out
    let r = d.execute_cw20_withdraw(21, "alice", "tok", 50);
    assert_eq!(r.unwrap_err(), ContractError::ArithmeticUnderflow);
    assert_eq!(d.query_cw20_deposits("alice").deposits[0].amount, 100);
}

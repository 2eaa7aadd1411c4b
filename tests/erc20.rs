use ownership_ledger::erc20::Erc20;

const CALLER: u64 = 1;

#[test]
fn new_works() {
    let erc20 = Erc20::new(CALLER, 666);
    assert_eq!(erc20.total_supply(), 666);
}

#[test]
fn approve_works() {
    let mut erc20 = Erc20::new(CALLER, 888);
    let account: u64 = 0;
    assert_eq!(erc20.approve(CALLER, account, 889), false);
    assert_eq!(erc20.approve(CALLER, account, 666), true);
    assert_eq!(erc20.approval(CALLER, account), 666);
}

#[test]
fn transfer_moves_balance() {
    let mut erc20 = Erc20::new(CALLER, 100);
    assert_eq!(erc20.balance_of(CALLER), 100);
    assert_eq!(erc20.balance_of(5), 0);
    assert!(erc20.transfer(CALLER, 5, 30));
    assert_eq!(erc20.balance_of(CALLER), 70);
    assert_eq!(erc20.balance_of_or_zero(5), 30);
    assert!(!erc20.transfer(5, CALLER, 31));
    assert_eq!(erc20.balance_of(5), 30);
    assert!(erc20.transfer(5, 5, 30));
    assert_eq!(erc20.balance_of(5), 30);
    assert_eq!(erc20.total_supply(), 100);
}

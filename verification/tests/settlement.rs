use distribution::contract::Distribution;
use distribution::errors::Error;
use distribution::ledger::Ledger;

/// Three participants hold 1000 each on the ledger; the contract owns
/// account 900 and is initialized with administrator 7 and token 42.
fn setup() -> (Distribution, Ledger) {
    let mut ledger = Ledger::new();
    assert!(ledger.mint(1, 1000).is_ok());
    assert!(ledger.mint(2, 1000).is_ok());
    assert!(ledger.mint(3, 1000).is_ok());
    let mut contract = Distribution::new(900);
    assert!(contract.initialize(7, 42).is_ok());
    (contract, ledger)
}

#[test]
fn test_distribute() {
    let (mut contract, mut ledger) = setup();

    assert!(contract.deposit(&mut ledger, 1, 1000).is_ok());
    assert!(contract.deposit(&mut ledger, 2, 1000).is_ok());
    assert!(contract.deposit(&mut ledger, 3, 1000).is_ok());

    assert_eq!(ledger.balance(900), 3000);
    assert_eq!(ledger.balance(1), 0);
    assert_eq!(ledger.balance(2), 0);

    assert!(contract.attended(7, 1).is_ok());
    assert!(contract.attended(7, 2).is_ok());
    assert!(contract.distribute(&mut ledger, 7).is_ok());

    assert_eq!(ledger.balance(900), 0);
    assert_eq!(ledger.balance(1), 1500);
    assert_eq!(ledger.balance(2), 1500);
    assert_eq!(ledger.balance(3), 0);
}

#[test]
fn test_refund() {
    let (mut contract, mut ledger) = setup();

    assert!(contract.deposit(&mut ledger, 1, 1000).is_ok());
    assert!(contract.deposit(&mut ledger, 2, 1000).is_ok());
    assert!(contract.deposit(&mut ledger, 3, 1000).is_ok());

    assert_eq!(ledger.balance(900), 3000);
    assert_eq!(ledger.balance(1), 0);
    assert_eq!(ledger.balance(2), 0);

    assert!(contract.refund(&mut ledger, 7).is_ok());

    assert_eq!(ledger.balance(900), 0);
    assert_eq!(ledger.balance(1), 1000);
    assert_eq!(ledger.balance(2), 1000);
    assert_eq!(ledger.balance(3), 1000);
}

#[test]
fn distribute_without_attendance_fails() {
    let (mut contract, mut ledger) = setup();

    assert!(contract.deposit(&mut ledger, 1, 1000).is_ok());
    assert!(contract.deposit(&mut ledger, 2, 1000).is_ok());
    assert!(contract.deposit(&mut ledger, 3, 1000).is_ok());

    assert_eq!(
        contract.distribute(&mut ledger, 7),
        Err(Error::NoEligibleParticipants)
    );
    assert_eq!(ledger.balance(900), 3000);
    assert_eq!(ledger.balance(1), 0);
    assert_eq!(ledger.balance(2), 0);
    assert_eq!(ledger.balance(3), 0);
}

#[test]
fn distribute_leaves_remainder_in_pool() {
    let (mut contract, mut ledger) = setup();

    assert!(contract.deposit(&mut ledger, 1, 3).is_ok());
    assert!(contract.deposit(&mut ledger, 2, 3).is_ok());
    assert!(contract.deposit(&mut ledger, 3, 4).is_ok());
    assert_eq!(ledger.balance(900), 10);

    assert!(contract.attended(7, 1).is_ok());
    assert!(contract.attended(7, 2).is_ok());
    assert!(contract.attended(7, 3).is_ok());
    assert!(contract.distribute(&mut ledger, 7).is_ok());

    // share = floor(10 / 3) = 3; remainder 1 stays in the pool
    assert_eq!(ledger.balance(1), 1000);
    assert_eq!(ledger.balance(2), 1000);
    assert_eq!(ledger.balance(3), 999);
    assert_eq!(ledger.balance(900), 1);
}

#[test]
fn refund_ignores_attendance() {
    let (mut contract, mut ledger) = setup();

    assert!(contract.deposit(&mut ledger, 1, 5).is_ok());
    assert!(contract.deposit(&mut ledger, 2, 7).is_ok());
    assert!(contract.attended(7, 1).is_ok());

    assert!(contract.refund(&mut ledger, 7).is_ok());

    assert_eq!(ledger.balance(1), 1000);
    assert_eq!(ledger.balance(2), 1000);
    assert_eq!(ledger.balance(900), 0);
}

#[test]
fn refund_after_distribute_fails() {
    let (mut contract, mut ledger) = setup();

    assert!(contract.deposit(&mut ledger, 1, 1000).is_ok());
    assert!(contract.deposit(&mut ledger, 2, 1000).is_ok());
    assert!(contract.attended(7, 1).is_ok());
    assert!(contract.distribute(&mut ledger, 7).is_ok());
    assert_eq!(ledger.balance(1), 2000);
    assert_eq!(ledger.balance(900), 0);

    // The pool can no longer cover the recorded deposits, so the whole
    // refund is rejected and no balance moves.
    assert_eq!(
        contract.refund(&mut ledger, 7),
        Err(Error::LedgerOperationFailed)
    );
    assert_eq!(ledger.balance(1), 2000);
    assert_eq!(ledger.balance(2), 0);
    assert_eq!(ledger.balance(900), 0);
}

#[test]
fn settlement_requires_admin() {
    let (mut contract, mut ledger) = setup();

    assert!(contract.deposit(&mut ledger, 1, 1000).is_ok());
    assert!(contract.attended(7, 1).is_ok());

    assert_eq!(
        contract.distribute(&mut ledger, 8),
        Err(Error::NotAuthorized)
    );
    assert_eq!(contract.refund(&mut ledger, 8), Err(Error::NotAuthorized));
    assert_eq!(ledger.balance(900), 1000);
    assert_eq!(ledger.balance(1), 0);
}

use distribution::contract::{DataKey, Distribution};
use distribution::errors::Error;
use distribution::ledger::Ledger;

#[test]
fn initialize_twice_fails() {
    let mut contract = Distribution::new(900);
    assert!(!contract.has_administrator());
    assert!(!contract.has(DataKey::Admin));
    assert!(!contract.has(DataKey::Token));

    assert!(contract.initialize(7, 42).is_ok());
    assert!(contract.has_administrator());
    assert!(contract.has(DataKey::Admin));
    assert!(contract.has(DataKey::Token));
    assert_eq!(contract.get_token(), 42);

    // The second call fails and leaves administrator and token untouched.
    assert_eq!(contract.initialize(8, 43), Err(Error::AlreadyInitialized));
    assert_eq!(contract.get_token(), 42);
    assert!(contract.check_admin(7).is_ok());
    assert_eq!(contract.check_admin(8), Err(Error::NotAuthorized));
}

#[test]
fn duplicate_deposit_fails() {
    let mut ledger = Ledger::new();
    assert!(ledger.mint(1, 1000).is_ok());
    let mut contract = Distribution::new(900);
    assert!(contract.initialize(7, 42).is_ok());

    assert!(contract.deposit(&mut ledger, 1, 500).is_ok());
    assert_eq!(
        contract.deposit(&mut ledger, 1, 1),
        Err(Error::DuplicateDeposit)
    );

    let records = contract.get_depositors();
    assert_eq!(records.len(), 1);
    assert_eq!(records[0].0, 1);
    assert_eq!(records[0].1.deposit, 500);
    assert!(!records[0].1.attended);
    assert_eq!(ledger.balance(900), 500);
    assert_eq!(ledger.balance(1), 500);
}

#[test]
fn deposit_without_funds_fails() {
    let mut ledger = Ledger::new();
    assert!(ledger.mint(1, 1000).is_ok());
    let mut contract = Distribution::new(900);
    assert!(contract.initialize(7, 42).is_ok());

    assert_eq!(
        contract.deposit(&mut ledger, 1, 1001),
        Err(Error::LedgerOperationFailed)
    );
    assert_eq!(contract.get_depositors().len(), 0);
    assert!(!contract.has(DataKey::Depositors));
    assert_eq!(ledger.balance(1), 1000);
    assert_eq!(ledger.balance(900), 0);
}

#[test]
fn deposit_sum_overflow_fails() {
    let mut ledger = Ledger::new();
    assert!(ledger.mint(1, u64::MAX).is_ok());
    let mut contract = Distribution::new(900);
    assert!(contract.initialize(7, 42).is_ok());

    assert!(contract.deposit(&mut ledger, 1, u64::MAX).is_ok());
    assert!(contract.attended(7, 1).is_ok());
    assert!(contract.distribute(&mut ledger, 7).is_ok());
    assert_eq!(ledger.balance(1), u64::MAX);

    // Hand the funds to a fresh participant; the recorded deposit total
    // would overflow a u64, so the deposit is rejected whole.
    assert!(ledger.transfer(1, 2, u64::MAX).is_ok());
    assert_eq!(
        contract.deposit(&mut ledger, 2, u64::MAX),
        Err(Error::ArithmeticOverflow)
    );
    assert_eq!(contract.get_depositors().len(), 1);
    assert_eq!(ledger.balance(2), u64::MAX);
}

#[test]
fn attended_unknown_participant_fails() {
    let mut ledger = Ledger::new();
    assert!(ledger.mint(1, 1000).is_ok());
    let mut contract = Distribution::new(900);
    assert!(contract.initialize(7, 42).is_ok());
    assert!(contract.deposit(&mut ledger, 1, 100).is_ok());

    assert_eq!(contract.attended(7, 5), Err(Error::UnknownParticipant));
    assert_eq!(contract.get_attended(), 0);
}

#[test]
fn attended_requires_admin() {
    let mut ledger = Ledger::new();
    assert!(ledger.mint(1, 1000).is_ok());
    let mut contract = Distribution::new(900);
    assert!(contract.initialize(7, 42).is_ok());
    assert!(contract.deposit(&mut ledger, 1, 100).is_ok());

    assert_eq!(contract.attended(8, 1), Err(Error::NotAuthorized));
    assert_eq!(contract.get_attended(), 0);
}

#[test]
fn repeated_attended_keeps_counter_exact() {
    let mut ledger = Ledger::new();
    assert!(ledger.mint(1, 1000).is_ok());
    assert!(ledger.mint(2, 1000).is_ok());
    let mut contract = Distribution::new(900);
    assert!(contract.initialize(7, 42).is_ok());
    assert!(contract.deposit(&mut ledger, 1, 600).is_ok());
    assert!(contract.deposit(&mut ledger, 2, 600).is_ok());
    assert!(!contract.has(DataKey::Attended));

    assert!(contract.attended(7, 1).is_ok());
    assert!(contract.attended(7, 1).is_ok());
    assert!(contract.attended(7, 1).is_ok());
    // The flag is idempotent and the counter only counts the transition.
    assert_eq!(contract.get_attended(), 1);
    assert!(contract.has(DataKey::Attended));

    // With one eligible participant the whole pool goes to participant 1.
    assert!(contract.distribute(&mut ledger, 7).is_ok());
    assert_eq!(ledger.balance(1), 1600);
    assert_eq!(ledger.balance(2), 400);
    assert_eq!(ledger.balance(900), 0);
}

#[test]
fn deposit_of_zero_is_rejected() {
    let mut ledger = Ledger::new();
    assert!(ledger.mint(1, 1000).is_ok());
    let mut contract = Distribution::new(900);
    assert!(contract.initialize(7, 42).is_ok());

    // Only a positive amount is a valid transferable quantity; nothing is
    // recorded and no value moves.
    assert_eq!(
        contract.deposit(&mut ledger, 1, 0),
        Err(Error::LedgerOperationFailed)
    );
    assert_eq!(contract.get_depositors().len(), 0);
    assert_eq!(ledger.balance(1), 1000);
    assert_eq!(ledger.balance(900), 0);
}

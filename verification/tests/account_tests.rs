use ledger::Account;
use ledger::AccountTester;
use ledger::Amount;
use ledger::Transaction;
use ledger::TransactionType;

#[test]
fn transactions_work() {
    let mut at = AccountTester::new();
    let deposit_id = at.deposit(Amount::from_units(1000_5000));
    assert_eq!(at.available(), 1000_5000);

    // dispute the deposited funds
    at.dispute(deposit_id);
    // check that the funds are held
    assert_eq!(at.held(), 1000_5000);
    assert_eq!(at.available(), 0);
    assert_eq!(at.total(), 1000_5000);

    // try to dispute again
    at.dispute(deposit_id);
    // check that nothing happened
    assert_eq!(at.held(), 1000_5000);
    assert_eq!(at.available(), 0);
    assert_eq!(at.total(), 1000_5000);

    // withdraw money we don't have
    at.withdrawal(Amount::from_units(500_0000));
    // ensure nothing happened
    assert_eq!(at.held(), 1000_5000);
    assert_eq!(at.available(), 0);
    assert_eq!(at.total(), 1000_5000);

    // resolve the dispute
    at.resolve(deposit_id);
    // money should no longer be held
    assert_eq!(at.held(), 0);
    assert_eq!(at.available(), 1000_5000);
    assert_eq!(at.total(), 1000_5000);

    // withdraw some money
    let withdraw_id = at.withdrawal(Amount::from_units(20_0000));
    assert_eq!(at.total(), 980_5000);

    // do not allow disputes of withdrawals, since those funds are out of our control
    at.dispute(withdraw_id);
    assert_eq!(at.held(), 0);
    assert_eq!(at.available(), 980_5000);
    assert_eq!(at.total(), 980_5000);

    let deposit2_id = at.deposit(Amount::from_units(5000));

    // fail to chargeback an undisputed deposit
    at.chargeback(deposit2_id);
    assert_eq!(at.held(), 0);
    assert_eq!(at.available(), 981_0000);
    assert_eq!(at.total(), 981_0000);

    // dispute and chargeback a deposit
    at.dispute(deposit2_id);
    assert_eq!(at.held(), 5000);
    at.chargeback(deposit2_id);
    assert_eq!(at.held(), 0);
    assert_eq!(at.available(), 980_5000);
    assert_eq!(at.total(), 980_5000);
    assert!(at.locked());
}

#[test]
fn deposit_credits_available() {
    let mut at = AccountTester::new();
    at.deposit(Amount::from_units(10_0000));
    assert_eq!(at.available(), 10_0000);
    assert_eq!(at.held(), 0);
    assert_eq!(at.total(), 10_0000);
    assert!(!at.locked());
}

#[test]
fn dispute_holds_funds() {
    let mut at = AccountTester::new();
    let id = at.deposit(Amount::from_units(1000_5000));
    at.dispute(id);
    assert_eq!(at.available(), 0);
    assert_eq!(at.held(), 1000_5000);
    assert_eq!(at.total(), 1000_5000);
}

#[test]
fn resolve_releases_funds_and_withdrawal_is_not_disputable() {
    let mut at = AccountTester::new();
    let id = at.deposit(Amount::from_units(1000_5000));
    at.dispute(id);
    at.resolve(id);
    assert_eq!(at.available(), 1000_5000);
    assert_eq!(at.held(), 0);
    assert_eq!(at.total(), 1000_5000);

    let wid = at.withdrawal(Amount::from_units(20_0000));
    assert_eq!(at.available(), 980_5000);

    at.dispute(wid);
    assert_eq!(at.held(), 0);
    assert_eq!(at.available(), 980_5000);
}

#[test]
fn chargeback_removes_funds_and_locks() {
    let mut at = AccountTester::new();
    let id = at.deposit(Amount::from_units(5000));
    let before_dispute = at.available();
    at.dispute(id);
    at.chargeback(id);
    assert_eq!(at.held(), 0);
    assert_eq!(at.available(), before_dispute - 5000);
    assert!(at.locked());

    // a locked account ignores everything that follows
    at.deposit(Amount::from_units(100_0000));
    assert_eq!(at.available(), before_dispute - 5000);
    assert_eq!(at.held(), 0);
    assert!(at.locked());
}

#[test]
fn locked_account_ignores_all_kinds() {
    let mut at = AccountTester::new();
    let id = at.deposit(Amount::from_units(10_0000));
    let keep = at.deposit(Amount::from_units(3_0000));
    at.dispute(id);
    at.chargeback(id);
    assert!(at.locked());
    let available = at.available();
    let held = at.held();

    at.deposit(Amount::from_units(50_0000));
    at.withdrawal(Amount::from_units(1_0000));
    at.dispute(keep);
    at.resolve(keep);
    at.chargeback(keep);
    assert_eq!(at.available(), available);
    assert_eq!(at.held(), held);
    assert!(at.locked());
}

#[test]
fn dispute_of_unknown_id_is_noop() {
    let mut at = AccountTester::new();
    at.deposit(Amount::from_units(10_0000));
    at.dispute(999);
    assert_eq!(at.available(), 10_0000);
    assert_eq!(at.held(), 0);
}

#[test]
fn dispute_of_disputed_id_is_noop() {
    let mut at = AccountTester::new();
    let id = at.deposit(Amount::from_units(10_0000));
    at.dispute(id);
    at.dispute(id);
    assert_eq!(at.available(), 0);
    assert_eq!(at.held(), 10_0000);
}

#[test]
fn resolve_of_undisputed_id_is_noop() {
    let mut at = AccountTester::new();
    let id = at.deposit(Amount::from_units(10_0000));
    at.resolve(id);
    at.resolve(77);
    assert_eq!(at.available(), 10_0000);
    assert_eq!(at.held(), 0);
}

#[test]
fn chargeback_of_undisputed_id_is_noop_and_does_not_lock() {
    let mut at = AccountTester::new();
    let id = at.deposit(Amount::from_units(10_0000));
    at.chargeback(id);
    at.chargeback(77);
    assert_eq!(at.available(), 10_0000);
    assert_eq!(at.held(), 0);
    assert!(!at.locked());
}

#[test]
fn total_is_available_plus_held() {
    let mut at = AccountTester::new();
    let id = at.deposit(Amount::from_units(12_3456));
    assert_eq!(at.total(), at.available() + at.held());
    at.dispute(id);
    assert_eq!(at.total(), at.available() + at.held());
    at.withdrawal(Amount::from_units(1));
    assert_eq!(at.total(), at.available() + at.held());
    at.chargeback(id);
    assert_eq!(at.total(), at.available() + at.held());
}

#[test]
fn account_consume_directly() {
    let mut a = Account::new();
    a.consume(Transaction {
        ty: TransactionType::Deposit,
        client: 0,
        id: 1,
        amount: Some(Amount::from_units(7_0000)),
    });
    assert_eq!(a.available, 7_0000);
    assert_eq!(a.held, 0);
    assert_eq!(a.total(), 7_0000);
    a.consume(Transaction {
        ty: TransactionType::Withdrawal,
        client: 0,
        id: 2,
        amount: Some(Amount::from_units(2_0000)),
    });
    assert_eq!(a.available, 5_0000);
    assert_eq!(a.total(), 5_0000);
    assert!(!a.locked);
}

#[test]
fn amount_from_parts() {
    assert_eq!(Amount::from_parts(1000, 5000), Some(Amount::from_units(1000_5000)));
    assert_eq!(Amount::from_parts(0, 1), Some(Amount::from_units(1)));
    assert_eq!(Amount::from_parts(u64::MAX, 0), None);
}

use rinha_ledger::account::Account;
use rinha_ledger::errors::AccountError;
use rinha_ledger::transaction::Transaction;
use rinha_ledger::transaction::TransactionKind;
use rinha_ledger::transaction::TransactionDescription;

#[test]
fn failure_more_funds() {
    let account = Account::generate(1_000, 10_000);
    assert_eq!(account.balance, 1_000);

    let with_new_transaction = account
        .add_transaction(&Transaction::generate(-1000, "xxx", 1))
        .unwrap();
    assert_eq!(with_new_transaction.balance, 0);

    let with_new_transaction = with_new_transaction
        .add_transaction(&Transaction::generate(-10_000, "xxx", 2))
        .unwrap();
    assert_eq!(with_new_transaction.balance, -10_000);

    let with_new_transaction =
        with_new_transaction.add_transaction(&Transaction::generate(-1, "xxx", 3));
    match with_new_transaction {
        Err(AccountError::InsufficientCredit) => {}
        _ => unreachable!(),
    }
}

#[test]
fn generate_derives_kind_from_sign() {
    let debit = Transaction::generate(-5, "abc", 7);
    assert_eq!(debit.kind, TransactionKind::Debit);
    assert_eq!(debit.amount, -5);
    assert_eq!(debit.created_at, 7);

    let credit = Transaction::generate(5, "abc", 8);
    assert_eq!(credit.kind, TransactionKind::Credit);
}

#[test]
fn description_length_is_validated() {
    assert!(TransactionDescription::new("").is_err());
    assert!(TransactionDescription::new("12345678901").is_err());
    assert!(TransactionDescription::new("1").is_ok());
    assert!(TransactionDescription::new("1234567890").is_ok());
    assert!(TransactionDescription::new("a\u{0}b").is_err());
}

#[test]
fn credit_above_limit_is_fine() {
    let account = Account::generate(0, 1_000);
    let after = account
        .add_transaction(&Transaction::generate(2_000_000, "big", 1))
        .unwrap();
    assert_eq!(after.balance, 2_000_000);
    assert_eq!(after.credit_limit, 1_000);
}

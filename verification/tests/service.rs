use rinha_ledger::account::Account;
use rinha_ledger::adapters::TransactionDTO;
use rinha_ledger::errors::LedgerError;
use rinha_ledger::service::LedgerService;
use rinha_ledger::store::LedgerStore;
use rinha_ledger::service::LOCK_TTL_NANOS;

fn seed_service() -> LedgerService<LedgerStore> {
    LedgerService::new(vec![Account::new(1, 1_000), Account::new(2, 80_000)])
}

fn dto(amount: i32, kind: &str, description: &str) -> TransactionDTO {
    TransactionDTO {
        amount,
        kind: kind.to_string(),
        description: description.to_string(),
        created_on: None,
    }
}

#[test]
fn scenario_debit_to_the_limit_then_rejected() {
    let mut service = seed_service();

    let first = service.apply_transaction_at(1, &dto(1000, "d", "abc"), 10, 1).unwrap();
    assert_eq!(first.balance, -1000);
    assert_eq!(first.credit_limit, 1_000);

    let second = service.apply_transaction_at(1, &dto(1, "d", "x"), 20, 2);
    assert!(matches!(second, Err(LedgerError::InsufficientCredit)));

    let (statement, transactions) = service.read_statement_at(1, 30).unwrap();
    assert_eq!(statement.balance, -1000);
    assert_eq!(statement.credit_limit, 1_000);
    assert_eq!(statement.time_of_statement, 30);
    assert_eq!(transactions.len(), 1);
    assert_eq!(transactions[0].amount, -1000);
}

#[test]
fn scenario_zero_amount_rejected_without_taking_a_lock() {
    let mut service = seed_service();
    let r = service.apply_transaction_at(1, &dto(0, "d", "abc"), 10, 1);
    assert!(matches!(r, Err(LedgerError::InvalidTransaction)));
    // no lock was taken or consumed: the account's entry is still free
    assert!(service.locks.entries[0].is_none());
    let (statement, transactions) = service.read_statement_at(1, 20).unwrap();
    assert_eq!(statement.balance, 0);
    assert!(transactions.is_empty());
}

#[test]
fn invalid_proposals_are_rejected() {
    let mut service = seed_service();
    assert!(matches!(
        service.apply_transaction_at(1, &dto(10, "z", "abc"), 1, 1),
        Err(LedgerError::InvalidTransaction)
    ));
    assert!(matches!(
        service.apply_transaction_at(1, &dto(10, "c", ""), 1, 1),
        Err(LedgerError::InvalidTransaction)
    ));
    assert!(matches!(
        service.apply_transaction_at(1, &dto(10, "c", "12345678901"), 1, 1),
        Err(LedgerError::InvalidTransaction)
    ));
    assert!(matches!(
        service.apply_transaction_at(1, &dto(-10, "c", "abc"), 1, 1),
        Err(LedgerError::InvalidTransaction)
    ));
}

#[test]
fn unknown_account_is_not_found() {
    let mut service = seed_service();
    assert!(matches!(
        service.apply_transaction_at(99, &dto(10, "c", "abc"), 1, 1),
        Err(LedgerError::NotFound)
    ));
    assert!(matches!(service.read_statement_at(99, 1), Err(LedgerError::NotFound)));
}

#[test]
fn held_lock_fails_acquisition() {
    let mut service = seed_service();
    // another holder took the lock and has not released it
    assert!(service.locks.try_acquire(1, 777, 0, LOCK_TTL_NANOS));
    let r = service.apply_transaction_at(1, &dto(10, "c", "abc"), 1, 888);
    assert!(matches!(r, Err(LedgerError::LockAcquisitionFailed)));
    // once the stale hold lapses, the account is usable again
    let r = service.apply_transaction_at(1, &dto(10, "c", "abc"), LOCK_TTL_NANOS, 888);
    assert_eq!(r.unwrap().balance, 10);
}

#[test]
fn debit_tag_negates_the_amount() {
    let mut service = seed_service();
    let r = service.apply_transaction_at(2, &dto(150, "d", "pix"), 5, 1).unwrap();
    assert_eq!(r.balance, -150);
    let r = service.apply_transaction_at(2, &dto(600, "c", "pix"), 6, 2).unwrap();
    assert_eq!(r.balance, 450);
    let (_, transactions) = service.read_statement_at(2, 7).unwrap();
    assert_eq!(transactions.len(), 2);
    assert_eq!(transactions[0].amount, 600);
    assert_eq!(transactions[1].amount, -150);
}

#[test]
fn wall_clock_paths_work() {
    let mut service = seed_service();
    let r = service.apply_transaction(1, &dto(10, "c", "abc")).unwrap();
    assert_eq!(r.balance, 10);
    let (statement, transactions) = service.read_statement(1).unwrap();
    assert_eq!(statement.balance, 10);
    assert_eq!(transactions.len(), 1);
}

#[test]
fn balances_sum_only_accepted_transactions() {
    let mut service = seed_service();
    let mut expected: i64 = 0;
    let mut ts: i128 = 0;
    for (amount, kind) in [
        (500, "d"),
        (400, "d"),
        (400, "d"), // rejected: would pass -1000
        (1000, "c"),
        (2000, "d"), // rejected
        (100, "c"),
    ] {
        ts += 1;
        let signed: i64 = if kind == "d" { -(amount as i64) } else { amount as i64 };
        let r = service.apply_transaction_at(1, &dto(amount, kind, "run"), ts, ts as u64);
        match r {
            Ok(resp) => {
                expected += signed;
                assert_eq!(resp.balance as i64, expected);
            }
            Err(LedgerError::InsufficientCredit) => {
                assert!(expected + signed < -1000);
            }
            Err(e) => panic!("unexpected error {:?}", e),
        }
    }
    let (statement, _) = service.read_statement_at(1, 100).unwrap();
    assert_eq!(statement.balance as i64, expected);
    assert!(statement.balance >= -1000);
}

use rinha_ledger::account::Account;
use rinha_ledger::errors::LedgerError;
use rinha_ledger::lock::LockGuard;
use rinha_ledger::store::LedgerStore;
use rinha_ledger::transaction::Transaction;

fn get_pool() -> LedgerStore {
    let mut res = LedgerStore::init_pool(5);
    let accounts = vec![
        Account::new(1, 100_000),
        Account::new(2, 80_000),
        Account::new(3, 1_000_000),
        Account::new(4, 10_000_000),
        Account::new(5, 500_000),
    ];
    res.setup_db(&accounts);
    res
}

#[test]
fn success_get_pool() {
    get_pool();
}

#[test]
fn success_get_account() {
    let pool = get_pool();

    let (acc, _trans) = pool.get_acc_and_transactions(3).unwrap();
    assert_eq!(acc.id, 3);
    assert_eq!(acc.balance, 0);
    assert_eq!(acc.credit_limit, 1_000_000);
}

#[test]
fn success_save_transaction() {
    let mut pool = get_pool();

    let account = Account::new(1, 100_000);
    let tr_1 = Transaction::generate(100, "xxx", 1);
    let tr_2 = Transaction::generate(250, "xxx", 2);
    pool.add_transaction(&account, &tr_1);
    pool.add_transaction(&account, &tr_2);
}

#[test]
fn success_get_transactions() {
    let mut pool = get_pool();

    let account = Account::new(1, 100_000);
    let tr_1 = Transaction::generate(100, "xxx", 1);
    let acc_after_transaction = account.add_transaction(&tr_1).unwrap();
    pool.add_transaction(&acc_after_transaction, &tr_1);

    let (account, _) = pool.get_acc_and_transactions(1).unwrap();
    assert_eq!(account.balance, 100);
    assert_eq!(account.credit_limit, 100_000);

    let tr_2 = Transaction::generate(-50_100, "vem de pix", 2);
    let acc_after_transaction = account.add_transaction(&tr_2).unwrap();
    pool.add_transaction(&acc_after_transaction, &tr_2);

    let (account, trans) = pool.get_acc_and_transactions(1).unwrap();
    assert_eq!(account.balance, -50_000);
    assert_eq!(account.credit_limit, 100_000);
    assert_eq!(trans.first(), Some(tr_2).as_ref());
    assert_eq!(trans.get(1), Some(tr_1).as_ref());
}

#[test]
fn apply_not_found_for_unknown_account() {
    let mut pool = get_pool();
    let guard = LockGuard { account_id: 99 };
    let t = Transaction::generate(100, "xxx", 1);
    assert!(matches!(pool.apply(99, &t, &guard), Err(LedgerError::NotFound)));
    assert!(matches!(pool.read_account(0), Err(LedgerError::NotFound)));
    assert!(matches!(pool.read_history(6), Err(LedgerError::NotFound)));
}

#[test]
fn history_caps_at_ten_and_evicts_oldest() {
    let mut pool = get_pool();
    let guard = LockGuard { account_id: 1 };
    for ts in 1..=11i128 {
        let t = Transaction::generate(10, "xxx", ts);
        pool.apply(1, &t, &guard).unwrap();
    }
    let history = pool.read_history(1).unwrap();
    assert_eq!(history.len(), 10);
    // newest first: timestamps 11 down to 2; the oldest (1) was evicted
    for (i, t) in history.iter().enumerate() {
        assert_eq!(t.created_at, 11 - i as i128);
    }
    let (acc, _) = pool.get_acc_and_transactions(1).unwrap();
    assert_eq!(acc.balance, 110);
}

#[test]
fn eviction_replaces_oldest_not_first_slot() {
    // write timestamps out of order so that the oldest entry is not in the
    // first slot, then check that eviction removes the true oldest
    let mut pool = get_pool();
    let guard = LockGuard { account_id: 2 };
    let timestamps: [i128; 10] = [20, 5, 30, 40, 50, 60, 70, 80, 90, 100];
    for ts in timestamps {
        let t = Transaction::generate(1, "xxx", ts);
        pool.apply(2, &t, &guard).unwrap();
    }
    let t = Transaction::generate(1, "new", 200);
    pool.apply(2, &t, &guard).unwrap();
    let history = pool.read_history(2).unwrap();
    assert_eq!(history.len(), 10);
    assert!(history.iter().all(|t| t.created_at != 5));
    assert_eq!(history.first().unwrap().created_at, 200);
    assert_eq!(history.last().unwrap().created_at, 20);
}

#[test]
fn equal_timestamps_read_in_storage_order() {
    let mut pool = get_pool();
    let guard = LockGuard { account_id: 1 };
    let first_tied = Transaction::generate(1, "one", 5);
    let second_tied = Transaction::generate(2, "two", 5);
    let newest = Transaction::generate(3, "three", 9);
    pool.apply(1, &first_tied, &guard).unwrap();
    pool.apply(1, &second_tied, &guard).unwrap();
    pool.apply(1, &newest, &guard).unwrap();

    let history = pool.read_history(1).unwrap();
    assert_eq!(history.len(), 3);
    assert_eq!(history[0].amount, 3);
    // the tied pair keeps its storage order
    assert_eq!(history[1].amount, 1);
    assert_eq!(history[2].amount, 2);

    // a restartable snapshot: reading again gives the same sequence
    let again = pool.read_history(1).unwrap();
    assert_eq!(history, again);
}

#[test]
fn insufficient_credit_changes_nothing() {
    let mut pool = get_pool();
    let guard = LockGuard { account_id: 1 };
    let t = Transaction::generate(-100_001, "xxx", 1);
    assert!(matches!(pool.apply(1, &t, &guard), Err(LedgerError::InsufficientCredit)));
    let (acc, trans) = pool.get_acc_and_transactions(1).unwrap();
    assert_eq!(acc.balance, 0);
    assert!(trans.is_empty());
}

use rinha_ledger::account::Account;
use rinha_ledger::adapters::TransactionDTO;
use rinha_ledger::cache::AccountCache;
use rinha_ledger::errors::LedgerError;
use rinha_ledger::lock::LockGuard;
use rinha_ledger::lock::TokenLockTable;
use rinha_ledger::repositories::LedgerRepository;
use rinha_ledger::service::LedgerService;
use rinha_ledger::transaction::Transaction;

fn seed_cache() -> AccountCache {
    AccountCache::new(vec![Account::new(1, 1_000), Account::new(2, 80_000)])
}

#[test]
fn cache_reads_seeded_accounts() {
    let cache = seed_cache();
    let acc = cache.read_account(2).unwrap();
    assert_eq!(acc.id, 2);
    assert_eq!(acc.balance, 0);
    assert_eq!(acc.credit_limit, 80_000);
    assert!(matches!(cache.read_account(3), Err(LedgerError::NotFound)));
    assert!(cache.read_history(1).unwrap().is_empty());
}

#[test]
fn cache_applies_and_lists_newest_first() {
    let mut cache = seed_cache();
    let guard = LockGuard { account_id: 1 };
    cache.apply(1, &Transaction::generate(100, "xxx", 1), &guard).unwrap();
    cache.apply(1, &Transaction::generate(-600, "pix", 2), &guard).unwrap();
    let acc = cache.read_account(1).unwrap();
    assert_eq!(acc.balance, -500);
    let history = cache.read_history(1).unwrap();
    assert_eq!(history.len(), 2);
    assert_eq!(history[0].amount, -600);
    assert_eq!(history[1].amount, 100);
}

#[test]
fn cache_honours_the_credit_limit() {
    let mut cache = seed_cache();
    let guard = LockGuard { account_id: 1 };
    let r = cache.apply(1, &Transaction::generate(-1_001, "xxx", 1), &guard);
    assert!(matches!(r, Err(LedgerError::InsufficientCredit)));
    assert_eq!(cache.read_account(1).unwrap().balance, 0);
    assert!(cache.read_history(1).unwrap().is_empty());
}

#[test]
fn service_runs_over_the_cache_backend() {
    let seeds = vec![Account::new(1, 1_000)];
    let mut service = LedgerService {
        store: AccountCache::new(seeds),
        locks: TokenLockTable::new(1),
    };
    let proposed = TransactionDTO {
        amount: 1000,
        kind: "d".to_string(),
        description: "abc".to_string(),
        created_on: None,
    };
    let resp = service.apply_transaction_at(1, &proposed, 10, 1).unwrap();
    assert_eq!(resp.balance, -1000);
    let second = TransactionDTO {
        amount: 1,
        kind: "d".to_string(),
        description: "x".to_string(),
        created_on: None,
    };
    assert!(matches!(
        service.apply_transaction_at(1, &second, 20, 2),
        Err(LedgerError::InsufficientCredit)
    ));
    let (statement, transactions) = service.read_statement_at(1, 30).unwrap();
    assert_eq!(statement.balance, -1000);
    assert_eq!(transactions.len(), 1);
}

#[test]
fn cache_evicts_the_oldest_at_capacity() {
    let mut cache = seed_cache();
    let guard = LockGuard { account_id: 2 };
    for ts in 1..=11i128 {
        cache.apply(2, &Transaction::generate(10, "xxx", ts), &guard).unwrap();
    }
    let history = cache.read_history(2).unwrap();
    assert_eq!(history.len(), 10);
    for (i, t) in history.iter().enumerate() {
        assert_eq!(t.created_at, 11 - i as i128);
    }
}

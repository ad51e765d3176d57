use rinha_ledger::lock::SpinLockTable;
use rinha_ledger::lock::TokenLockTable;

#[test]
fn token_lock_mutual_exclusion() {
    let mut locks = TokenLockTable::new(2);
    assert!(locks.try_acquire(1, 111, 0, 1000));
    // held and unexpired: every further attempt fails, whatever the token
    assert!(!locks.try_acquire(1, 222, 500, 1000));
    assert!(!locks.try_acquire(1, 111, 999, 1000));
    // a different account is unaffected
    assert!(locks.try_acquire(2, 333, 0, 1000));
}

#[test]
fn token_lock_expires() {
    let mut locks = TokenLockTable::new(1);
    assert!(locks.try_acquire(1, 111, 0, 1000));
    // at or past the deadline the entry has lapsed and can be re-acquired
    assert!(locks.try_acquire(1, 222, 1000, 1000));
}

#[test]
fn release_by_wrong_token_is_a_noop() {
    let mut locks = TokenLockTable::new(1);
    assert!(locks.try_acquire(1, 111, 0, 1000));
    // a stranger's token cannot release the holder's lock
    assert!(!locks.release(1, 222));
    assert!(!locks.try_acquire(1, 222, 1, 1000));
    // the holder's own token can
    assert!(locks.release(1, 111));
    assert!(locks.try_acquire(1, 222, 2, 1000));
}

#[test]
fn release_without_holder_is_a_noop() {
    let mut locks = TokenLockTable::new(1);
    assert!(!locks.release(1, 111));
}

#[test]
fn many_contenders_one_holder() {
    // N contenders race for one account: exactly one acquisition succeeds
    // until the holder releases, and then again exactly one
    let mut locks = TokenLockTable::new(1);
    let mut holders = 0;
    for token in 0..100u64 {
        if locks.try_acquire(1, token, 0, 1_000_000) {
            holders += 1;
        }
    }
    assert_eq!(holders, 1);
    assert!(locks.release(1, 0));
    let mut holders_after = 0;
    for token in 100..200u64 {
        if locks.try_acquire(1, token, 1, 1_000_000) {
            holders_after += 1;
        }
    }
    assert_eq!(holders_after, 1);

    let mut spin = SpinLockTable::new(1);
    let mut guards = Vec::new();
    for _ in 0..100 {
        if let Some(g) = spin.try_acquire(1) {
            guards.push(g);
        }
    }
    assert_eq!(guards.len(), 1);
}

#[test]
fn spin_lock_mutual_exclusion() {
    let mut locks = SpinLockTable::new(2);
    let guard = locks.try_acquire(1).unwrap();
    assert_eq!(guard.account_id, 1);
    assert!(locks.try_acquire(1).is_none());
    let other = locks.try_acquire(2).unwrap();
    locks.release(guard);
    locks.release(other);
    assert!(locks.try_acquire(1).is_some());
}

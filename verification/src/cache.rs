//! An account cache: a read-optimized mirror of account state and the recent
//! history, held as plain values rather than encoded records.
//!
//! It implements the same repository contract as the byte-region store, so
//! the ledger service logic runs unchanged against either backend. At runtime
//! a mirror like this sits in front of a durability source of truth and is
//! populated on write; reads off it may be transiently stale, which the
//! read-only statement path accepts.

use vstd::prelude::*;
use crate::account::Account;
use crate::errors::LedgerError;
use crate::lock::LockGuard;
use crate::repositories::HISTORY_CAPACITY;
use crate::repositories::LedgerRepository;
use crate::store::first_oldest_idx;
use crate::store::sort_newest_first_vec;
use crate::transaction::Transaction;
use crate::transaction::TransactionView;
use crate::transaction::views_of;
use vstd::pervasive::VecAdditionalExecFns;

verus! {

/// Copies of the transactions, carrying the same mathematical content.
fn copy_transactions(source: &Vec<Transaction>) -> (r: Vec<Transaction>)
    ensures
        r@.len() == source@.len(),
        forall|j: int| 0 <= j < r@.len() ==> (#[trigger] r@[j])@ == source@[j]@,
        views_of(r@) == views_of(source@),
{
    let mut r: Vec<Transaction> = Vec::new();
    let mut k: usize = 0;
    while k < source.len()
        invariant
            k <= source@.len(),
            r@.len() == k,
            forall|j: int| 0 <= j < k ==> (#[trigger] r@[j])@ == source@[j]@,
        decreases source@.len() - k,
    {
        r.push(source[k].duplicate());
        k = k + 1;
    }
    assert(views_of(r@) =~= views_of(source@));
    r
}

/// The in-memory mirror: one account record and one bounded history per
/// provisioned account, indexed by account id (1-based).
pub struct AccountCache {
    pub accounts: Vec<Account>,
    pub histories: Vec<Vec<Transaction>>,
}

impl AccountCache {
    /// A mirror seeded with the provisioned accounts and empty histories.
    pub fn new(accounts: Vec<Account>) -> (c: AccountCache)
        requires
            forall|i: int|
                0 <= i < accounts@.len() ==> (#[trigger] accounts@[i]).wf() && accounts@[i].id == i
                    + 1,
        ensures
            c.inv(),
            c.n_provisioned() == accounts@.len(),
            forall|id: int|
                1 <= id <= accounts@.len() ==> #[trigger] c.account_view(id) == accounts@[id - 1]
                    && c.history_view(id).len() == 0,
    {
        let n = accounts.len();
        let mut histories: Vec<Vec<Transaction>> = Vec::new();
        let mut i: usize = 0;
        while i < n
            invariant
                i <= n,
                histories@.len() == i,
                forall|j: int| 0 <= j < i ==> (#[trigger] histories@[j])@.len() == 0,
            decreases n - i,
        {
            histories.push(Vec::new());
            i = i + 1;
        }
        AccountCache { accounts, histories }
    }
}

impl LedgerRepository for AccountCache {
    open spec fn inv(&self) -> bool {
        &&& self.accounts@.len() == self.histories@.len()
        &&& forall|i: int|
            0 <= i < self.accounts@.len() ==> (#[trigger] self.accounts@[i]).wf()
                && self.accounts@[i].id == i + 1
        &&& forall|i: int|
            0 <= i < self.histories@.len() ==> (#[trigger] self.histories@[i])@.len()
                <= HISTORY_CAPACITY
        &&& forall|i: int, k: int|
            0 <= i < self.histories@.len() && 0 <= k < self.histories@[i]@.len() ==> (
            #[trigger] self.histories@[i]@[k]).wf()
    }

    open spec fn n_provisioned(&self) -> int {
        self.accounts@.len() as int
    }

    open spec fn account_view(&self, account_id: int) -> Account {
        self.accounts@[account_id - 1]
    }

    open spec fn history_view(&self, account_id: int) -> Seq<TransactionView> {
        views_of(self.histories@[account_id - 1]@)
    }

    fn read_account(&self, account_id: i32) -> (r: Result<Account, LedgerError>) {
        if account_id < 1 || account_id as usize > self.accounts.len() {
            return Err(LedgerError::NotFound);
        }
        Ok(self.accounts[(account_id - 1) as usize])
    }

    fn read_history(&self, account_id: i32) -> (r: Result<Vec<Transaction>, LedgerError>) {
        if account_id < 1 || account_id as usize > self.accounts.len() {
            return Err(LedgerError::NotFound);
        }
        let snapshot = copy_transactions(&self.histories[(account_id - 1) as usize]);
        Ok(sort_newest_first_vec(snapshot))
    }

    fn apply(&mut self, account_id: i32, transaction: &Transaction, guard: &LockGuard) -> (r:
        Result<Account, LedgerError>) {
        if account_id < 1 || account_id as usize > self.accounts.len() {
            return Err(LedgerError::NotFound);
        }
        let idx = (account_id - 1) as usize;
        let current = self.accounts[idx];
        let updated = match current.add_transaction(transaction) {
            Ok(a) => a,
            Err(_) => {
                return Err(LedgerError::InsufficientCredit);
            },
        };
        let mut h = copy_transactions(&self.histories[idx]);
        let ghost h0 = views_of(self.histories@[idx as int]@);
        if h.len() < HISTORY_CAPACITY {
            h.push(transaction.duplicate());
            proof {
                assert(views_of(h@) =~= h0.push(transaction@));
            }
        } else {
            let mut best: usize = 0;
            let mut m: usize = 1;
            while m < h.len()
                invariant
                    1 <= m <= h@.len(),
                    0 <= best < m,
                    h@.len() == HISTORY_CAPACITY,
                    views_of(h@) == h0,
                    h0.len() == HISTORY_CAPACITY,
                    best == first_oldest_idx(h0.subrange(0, m as int)),
                decreases h@.len() - m,
            {
                proof {
                    assert(h0.subrange(0, m as int + 1).drop_last() =~= h0.subrange(0, m as int));
                    assert(h0.subrange(0, m as int + 1)[m as int] == h0[m as int]);
                    assert(h@[m as int]@ == h0[m as int]);
                    assert(h@[best as int]@ == h0[best as int]);
                }
                if h[m].created_at < h[best].created_at {
                    best = m;
                }
                m = m + 1;
            }
            proof {
                assert(h0.subrange(0, HISTORY_CAPACITY as int) =~= h0);
            }
            h.set(best, transaction.duplicate());
            proof {
                assert(views_of(h@) =~= h0.update(first_oldest_idx(h0), transaction@));
            }
        }
        self.accounts.set(idx, updated);
        self.histories.set(idx, h);
        proof {
            assert forall|other: int|
                1 <= other <= self.accounts@.len() && other != account_id implies #[trigger] self.account_view(
                other,
            ) == old(self).account_view(other) by {}
            assert forall|other: int|
                1 <= other <= self.accounts@.len() && other != account_id implies #[trigger] self.history_view(
                other,
            ) == old(self).history_view(other) by {}
            assert(self.inv());
        }
        Ok(updated)
    }
}

} // verus!

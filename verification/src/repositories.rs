//! The repository contracts: what any ledger-store backend must do, and the
//! offset arithmetic that locates each account's records in a byte-region
//! backend.

use vstd::prelude::*;
use core::ops::Range;
use crate::account::Account;
use crate::codec::ACCOUNT_RECORD_SIZE;
use crate::codec::TRANSACTION_RECORD_SIZE;
use crate::errors::LedgerError;
use crate::lock::LockGuard;
use crate::store::LedgerStore;
use crate::store::first_oldest_idx;
use crate::store::spec_hist_step;
use crate::store::spec_sort_newest_first;
use crate::store::sorted_newest_first;
use crate::transaction::Transaction;
use crate::transaction::TransactionView;
use crate::transaction::views_of;

verus! {

/// Capacity of the per-account history: exactly the most recent accepted
/// transactions up to this many are retained; older ones are evicted.
pub const HISTORY_CAPACITY: usize = 10;

/// A record type whose per-account byte region is found by offset arithmetic.
pub trait HasOffsetRange {
    /// Width in bytes of the region one account owns for this record type.
    spec fn region_size() -> int;

    /// The byte range of `user_id`'s region: consecutive disjoint regions of
    /// `region_size` bytes, 1-based.
    fn offset_range(user_id: i32) -> (r: Range<usize>)
        requires
            1 <= user_id,
            user_id * Self::region_size() <= usize::MAX,
        ensures
            r.start == (user_id - 1) * Self::region_size(),
            r.end == user_id * Self::region_size(),
    ;
}

impl HasOffsetRange for Account {
    open spec fn region_size() -> int {
        ACCOUNT_RECORD_SIZE as int
    }

    fn offset_range(user_id: i32) -> (r: Range<usize>) {
        let start = (user_id as usize - 1) * ACCOUNT_RECORD_SIZE;
        start..start + ACCOUNT_RECORD_SIZE
    }
}

/// Whether `account_id` was provisioned in `repo`: accounts are provisioned
/// once, with ids 1 up to the backend's seed count.
pub open spec fn repo_provisioned<R: LedgerRepository>(repo: R, account_id: int) -> bool {
    1 <= account_id <= repo.n_provisioned()
}

/// The ledger-store contract, identical across backends: authoritative
/// account state, a bounded history of at most [`HISTORY_CAPACITY`] records
/// read newest first, and an `apply` that must be serialized by the
/// account's lock and evicts the oldest record once the history is full.
pub trait LedgerRepository: Sized {
    /// The backend's well-formedness invariant.
    spec fn inv(&self) -> bool;

    /// How many accounts were provisioned at initialization.
    spec fn n_provisioned(&self) -> int;

    /// The stored state of an account.
    spec fn account_view(&self, account_id: int) -> Account;

    /// The stored history of an account, in storage order.
    spec fn history_view(&self, account_id: int) -> Seq<TransactionView>;

    /// The stored account, or `NotFound` for an id never provisioned.
    fn read_account(&self, account_id: i32) -> (r: Result<Account, LedgerError>)
        requires
            self.inv(),
        ensures
            1 <= account_id as int <= self.n_provisioned() ==> r == Ok::<Account, LedgerError>(
                self.account_view(account_id as int),
            ),
            !(1 <= account_id as int <= self.n_provisioned()) ==> r == Err::<Account, LedgerError>(
                LedgerError::NotFound,
            ),
    ;

    /// A restartable snapshot of the account's history, newest first: exactly
    /// the stored records re-sorted by `created_at` descending, with equal
    /// timestamps kept in storage order (insertion order until the history
    /// wraps by eviction). Two snapshots of an unchanged account are equal.
    fn read_history(&self, account_id: i32) -> (r: Result<Vec<Transaction>, LedgerError>)
        requires
            self.inv(),
        ensures
            !(1 <= account_id as int <= self.n_provisioned()) ==> r == Err::<Vec<Transaction>, LedgerError>(
                LedgerError::NotFound,
            ),
            1 <= account_id as int <= self.n_provisioned() ==> (r matches Ok(v) && v@.len()
                == self.history_view(account_id as int).len() && v@.len() <= HISTORY_CAPACITY
                && views_of(v@) == spec_sort_newest_first(self.history_view(account_id as int))
                && views_of(v@).to_multiset() == self.history_view(account_id as int).to_multiset()
                && sorted_newest_first(views_of(v@))),
    ;

    /// Applies a transaction while holding the account's lock: validates the
    /// credit-limit invariant against the current balance; on success
    /// persists the new balance and the record, evicting the oldest (first
    /// match in scan order) when the history is full. On failure nothing
    /// changes.
    fn apply(&mut self, account_id: i32, transaction: &Transaction, guard: &LockGuard) -> (r:
        Result<Account, LedgerError>)
        requires
            old(self).inv(),
            transaction.wf(),
            guard.account_id == account_id,
            1 <= account_id as int <= old(self).n_provisioned() ==> i32::MIN <= old(self).account_view(
                account_id as int,
            ).balance + transaction.amount <= i32::MAX,
        ensures
            final(self).inv(),
            final(self).n_provisioned() == old(self).n_provisioned(),
            !(1 <= account_id as int <= old(self).n_provisioned()) ==> r == Err::<Account, LedgerError>(
                LedgerError::NotFound,
            ) && *final(self) == *old(self),
            1 <= account_id as int <= old(self).n_provisioned() && !old(self).account_view(
                account_id as int,
            ).accepts(transaction.amount as int) ==> r == Err::<Account, LedgerError>(
                LedgerError::InsufficientCredit,
            ) && *final(self) == *old(self),
            1 <= account_id as int <= old(self).n_provisioned() && old(self).account_view(
                account_id as int,
            ).accepts(transaction.amount as int) ==> {
                let pre = old(self).account_view(account_id as int);
                let updated = pre.with_amount(transaction.amount as int);
                &&& r == Ok::<Account, LedgerError>(updated)
                &&& final(self).account_view(account_id as int) == updated
                &&& forall|other: int|
                    1 <= other <= final(self).n_provisioned() && other != account_id
                        ==> #[trigger] final(self).account_view(other) == old(self).account_view(
                        other,
                    )
                &&& forall|other: int|
                    1 <= other <= final(self).n_provisioned() && other != account_id
                        ==> #[trigger] final(self).history_view(other) == old(self).history_view(
                        other,
                    )
                &&& old(self).history_view(account_id as int).len() < HISTORY_CAPACITY ==> final(self).history_view(account_id as int) == old(self).history_view(
                    account_id as int,
                ).push(transaction@)
                &&& old(self).history_view(account_id as int).len() == HISTORY_CAPACITY ==> final(self).history_view(account_id as int) == old(self).history_view(
                    account_id as int,
                ).update(
                    first_oldest_idx(old(self).history_view(account_id as int)),
                    transaction@,
                )
                &&& final(self).history_view(account_id as int) == spec_hist_step(
                    old(self).history_view(account_id as int),
                    transaction@,
                )
            },
    ;
}

impl LedgerRepository for LedgerStore {
    open spec fn inv(&self) -> bool {
        self.wf()
    }

    open spec fn n_provisioned(&self) -> int {
        self.n_accounts as int
    }

    open spec fn account_view(&self, account_id: int) -> Account {
        self.account_at(account_id)
    }

    open spec fn history_view(&self, account_id: int) -> Seq<TransactionView> {
        self.hist(account_id)
    }

    fn read_account(&self, account_id: i32) -> (r: Result<Account, LedgerError>) {
        LedgerStore::read_account(self, account_id)
    }

    fn read_history(&self, account_id: i32) -> (r: Result<Vec<Transaction>, LedgerError>) {
        proof {
            if self.provisioned(account_id as int) {
                self.lemma_hist_len_from_spec(account_id as int, 0);
            }
        }
        LedgerStore::read_history(self, account_id)
    }

    fn apply(&mut self, account_id: i32, transaction: &Transaction, guard: &LockGuard) -> (r:
        Result<Account, LedgerError>) {
        proof {
            if self.provisioned(account_id as int) {
                self.lemma_hist_len_from_spec(account_id as int, 0);
            }
        }
        LedgerStore::apply(self, account_id, transaction, guard)
    }
}

impl HasOffsetRange for Transaction {
    open spec fn region_size() -> int {
        (TRANSACTION_RECORD_SIZE * HISTORY_CAPACITY) as int
    }

    fn offset_range(user_id: i32) -> (r: Range<usize>) {
        proof {
            assert(Self::region_size() == 640);
            assert((user_id - 1) * 640 <= user_id * 640 - 640) by (nonlinear_arith)
                requires
                    1 <= user_id,
            ;
        }
        let start = (user_id as usize - 1) * (TRANSACTION_RECORD_SIZE * HISTORY_CAPACITY);
        start..start + TRANSACTION_RECORD_SIZE * HISTORY_CAPACITY
    }
}

} // verus!

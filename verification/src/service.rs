//! The ledger service: orchestrates the lock manager and the ledger store.
//!
//! The service is written once, against the repository contract, so it runs
//! unchanged over any backend implementing [`LedgerRepository`].
//! `apply_transaction` validates the proposal before taking any lock,
//! acquires the account's token lock, applies the transaction through the
//! store, and releases the lock on every path out. `read_statement` is
//! read-only and takes no lock, accepting a bounded staleness window instead.

use vstd::prelude::*;
use vstd::utf8::encode_utf8;
use crate::account::Account;
use crate::adapters::TransactionDTO;
use crate::adapters::TransactionResponseDTO;
use crate::adapters::spec_dto_signed_amount;
use crate::adapters::spec_dto_valid;
use crate::adapters::spec_is_debit_tag;
use crate::errors::LedgerError;
use crate::lock::LockGuard;
use crate::lock::TokenLockTable;
use crate::repositories::HISTORY_CAPACITY;
use crate::repositories::LedgerRepository;
use crate::repositories::repo_provisioned;
use crate::store::LedgerStore;
use crate::store::first_oldest_idx;
use crate::store::spec_hist_step;
use crate::store::spec_sort_newest_first;
use crate::store::sorted_newest_first;
use crate::transaction::Transaction;
use crate::transaction::TransactionKind;
use crate::transaction::TransactionView;
use crate::transaction::views_of;

verus! {

/// How long an acquired per-account lock lives before it lapses, in
/// nanoseconds. Expiry keeps a crashed holder from blocking its account
/// forever.
pub const LOCK_TTL_NANOS: i128 = 300_000_000;

/// A point-in-time balance view: balance and credit limit as of
/// `time_of_statement` (unix nanoseconds).
#[derive(Debug, Copy, Clone, PartialEq, Eq, Structural)]
pub struct Statement {
    pub balance: i32,
    pub time_of_statement: i128,
    pub credit_limit: u32,
}

/// Relies on `time::OffsetDateTime::now_utc` and `unix_timestamp_nanos`: the
/// current wall-clock time as unix nanoseconds. Every timestamp that type can
/// hold lies within ten thousand years of the epoch, hence the bound; nothing
/// more can be promised of a clock reading.
#[verifier::external_body]
fn now_unix_nanos() -> (r: i128)
    ensures
        -1_000_000_000_000_000_000_000_000 < r < 1_000_000_000_000_000_000_000_000,
{
    time::OffsetDateTime::now_utc().unix_timestamp_nanos()
}

/// Relies on `fastrand::u64`: a fresh random token for the token-guarded
/// lock protocol. Nothing can be promised of a random value.
#[verifier::external_body]
fn random_token() -> u64 {
    fastrand::u64(..)
}

/// The transaction a valid proposal turns into when accepted at time `now`.
pub open spec fn spec_tx_of(dto: TransactionDTO, now: i128) -> TransactionView {
    TransactionView {
        amount: spec_dto_signed_amount(dto) as i32,
        kind: if spec_is_debit_tag(dto.kind@) {
            TransactionKind::Debit
        } else {
            TransactionKind::Credit
        },
        description: encode_utf8(dto.description@),
        created_at: now,
    }
}

/// How a backend changes when transaction `t` is applied to `account_id`:
/// the account's balance moves by the amount, every other account is
/// untouched, and the history gains `t` — appended while below capacity, else
/// in place of the oldest entry (first match in scan order).
pub open spec fn spec_applied<R: LedgerRepository>(
    pre: R,
    post: R,
    account_id: int,
    t: TransactionView,
) -> bool {
    &&& post.account_view(account_id) == pre.account_view(account_id).with_amount(t.amount as int)
    &&& forall|other: int|
        repo_provisioned(post, other) && other != account_id ==> #[trigger] post.account_view(other)
            == pre.account_view(other)
    &&& forall|other: int|
        repo_provisioned(post, other) && other != account_id ==> #[trigger] post.history_view(other)
            == pre.history_view(other)
    &&& pre.history_view(account_id).len() < HISTORY_CAPACITY ==> post.history_view(account_id)
        == pre.history_view(account_id).push(t)
    &&& pre.history_view(account_id).len() == HISTORY_CAPACITY ==> post.history_view(account_id)
        == pre.history_view(account_id).update(first_oldest_idx(pre.history_view(account_id)), t)
    &&& post.history_view(account_id) == spec_hist_step(pre.history_view(account_id), t)
}

/// The ledger service: a backing store and its per-account locks.
pub struct LedgerService<R: LedgerRepository> {
    pub store: R,
    pub locks: TokenLockTable,
}

impl LedgerService<LedgerStore> {
    /// Provisions a fresh byte-region-backed ledger from the seed accounts:
    /// account `i + 1` takes seed record `i`, every history is empty and
    /// every lock free.
    pub fn new(accounts: Vec<Account>) -> (s: LedgerService<LedgerStore>)
        requires
            accounts@.len() * 640 <= usize::MAX,
            forall|i: int|
                0 <= i < accounts@.len() ==> (#[trigger] accounts@[i]).wf() && accounts@[i].id == i
                    + 1,
        ensures
            s.wf(),
            s.store.n_accounts == accounts@.len(),
            forall|id: int|
                s.store.provisioned(id) ==> #[trigger] s.store.account_at(id) == accounts@[id - 1]
                    && s.store.hist_len(id) == 0,
            forall|id: int| s.store.provisioned(id) ==> #[trigger] s.locks.holder(id) is None,
    {
        proof {
            assert(640 == crate::codec::TRANSACTION_RECORD_SIZE * HISTORY_CAPACITY);
        }
        let mut store = LedgerStore::init_pool(accounts.len());
        let ghost store0 = store;
        store.setup_db(&accounts);
        let locks = TokenLockTable::new(accounts.len());
        let s = LedgerService { store, locks };
        proof {
            assert forall|id: int| s.store.provisioned(id) implies #[trigger] s.store.account_at(
                id,
            ) == accounts@[id - 1] && s.store.hist_len(id) == 0 by {
                assert(store0.slots_wf(id));
                assert(s.store.hist(id) == store0.hist(id));
            }
        }
        s
    }
}

impl<R: LedgerRepository> LedgerService<R> {
    /// Service invariant: a well-formed backend with one lock per account.
    pub open spec fn wf(self) -> bool {
        &&& self.store.inv()
        &&& self.locks.n_accounts() == self.store.n_provisioned()
    }

    /// Applies a proposed transaction at time `now` under a caller-supplied
    /// lock token. Validation happens before any lock is taken; a malformed
    /// proposal changes nothing. The lock is released on every path out.
    pub fn apply_transaction_at(
        &mut self,
        account_id: i32,
        proposed: &TransactionDTO,
        now: i128,
        token: u64,
    ) -> (r: Result<TransactionResponseDTO, LedgerError>)
        requires
            old(self).wf(),
            now + LOCK_TTL_NANOS <= i128::MAX,
            spec_dto_valid(*proposed) && repo_provisioned(old(self).store, account_id as int)
                ==> i32::MIN <= old(self).store.account_view(account_id as int).balance
                + spec_dto_signed_amount(*proposed) <= i32::MAX,
        ensures
            final(self).wf(),
            final(self).store.n_provisioned() == old(self).store.n_provisioned(),
            !spec_dto_valid(*proposed) ==> r == Err::<TransactionResponseDTO, LedgerError>(
                LedgerError::InvalidTransaction,
            ) && *final(self) == *old(self),
            spec_dto_valid(*proposed) && !repo_provisioned(old(self).store, account_id as int) ==> r
                == Err::<TransactionResponseDTO, LedgerError>(LedgerError::NotFound)
                && *final(self) == *old(self),
            spec_dto_valid(*proposed) && repo_provisioned(old(self).store, account_id as int) && !old(
                self,
            ).locks.available(account_id as int, now) ==> r == Err::<
                TransactionResponseDTO,
                LedgerError,
            >(LedgerError::LockAcquisitionFailed) && *final(self) == *old(self),
            spec_dto_valid(*proposed) && repo_provisioned(old(self).store, account_id as int) && old(
                self,
            ).locks.available(account_id as int, now) ==> {
                let acc = old(self).store.account_view(account_id as int);
                let amount = spec_dto_signed_amount(*proposed);
                &&& final(self).locks.holder(account_id as int) is None
                &&& forall|other: int|
                    1 <= other <= old(self).locks.n_accounts() && other != account_id
                        ==> #[trigger] final(self).locks.holder(other) == old(self).locks.holder(
                        other,
                    )
                &&& acc.accepts(amount) ==> (r == Ok::<TransactionResponseDTO, LedgerError>(
                    TransactionResponseDTO {
                        credit_limit: acc.credit_limit,
                        balance: (acc.balance + amount) as i32,
                    },
                ) && spec_applied(
                    old(self).store,
                    final(self).store,
                    account_id as int,
                    spec_tx_of(*proposed, now),
                ))
                &&& !acc.accepts(amount) ==> r == Err::<TransactionResponseDTO, LedgerError>(
                    LedgerError::InsufficientCredit,
                ) && final(self).store == old(self).store
            },
    {
        let transaction = match proposed.try_into_transaction(now) {
            Ok(t) => t,
            Err(e) => {
                return Err(e);
            },
        };
        if account_id < 1 || account_id as usize > self.locks.len() {
            return Err(LedgerError::NotFound);
        }
        if !self.locks.try_acquire(account_id, token, now, LOCK_TTL_NANOS) {
            return Err(LedgerError::LockAcquisitionFailed);
        }
        let guard = LockGuard { account_id };
        let result = self.store.apply(account_id, &transaction, &guard);
        let released = self.locks.release(account_id, token);
        proof {
            assert(released);
        }
        match result {
            Ok(updated) => Ok(TransactionResponseDTO::from(updated)),
            Err(e) => Err(e),
        }
    }

    /// Applies a proposed transaction at the current clock reading, with a
    /// fresh random lock token. The exact contract, holding for every value
    /// the clock and the generator return, is `apply_transaction_at`'s.
    pub fn apply_transaction(&mut self, account_id: i32, proposed: &TransactionDTO) -> (r: Result<
        TransactionResponseDTO,
        LedgerError,
    >)
        requires
            old(self).wf(),
            spec_dto_valid(*proposed) && repo_provisioned(old(self).store, account_id as int)
                ==> i32::MIN <= old(self).store.account_view(account_id as int).balance
                + spec_dto_signed_amount(*proposed) <= i32::MAX,
        ensures
            final(self).wf(),
            final(self).store.n_provisioned() == old(self).store.n_provisioned(),
            r == Err::<TransactionResponseDTO, LedgerError>(LedgerError::InvalidTransaction)
                <==> !spec_dto_valid(*proposed),
            r == Err::<TransactionResponseDTO, LedgerError>(LedgerError::NotFound) <==> (
            spec_dto_valid(*proposed) && !repo_provisioned(old(self).store, account_id as int)),
            !spec_dto_valid(*proposed) ==> *final(self) == *old(self),
            spec_dto_valid(*proposed) && !repo_provisioned(old(self).store, account_id as int)
                ==> *final(self) == *old(self),
            // with no current holder, the clock cannot decide: the outcome is
            // owed, whatever time and token the wall-clock calls return
            spec_dto_valid(*proposed) && repo_provisioned(old(self).store, account_id as int)
                && old(self).locks.holder(account_id as int) is None ==> {
                let acc = old(self).store.account_view(account_id as int);
                let amount = spec_dto_signed_amount(*proposed);
                &&& (r is Ok <==> acc.accepts(amount))
                &&& !acc.accepts(amount) ==> r == Err::<TransactionResponseDTO, LedgerError>(
                    LedgerError::InsufficientCredit,
                )
            },
            r matches Ok(resp) ==> ({
                let acc = old(self).store.account_view(account_id as int);
                let amount = spec_dto_signed_amount(*proposed);
                &&& spec_dto_valid(*proposed)
                &&& repo_provisioned(old(self).store, account_id as int)
                &&& acc.accepts(amount)
                &&& resp == (TransactionResponseDTO {
                    credit_limit: acc.credit_limit,
                    balance: (acc.balance + amount) as i32,
                })
                &&& exists|ts: i128|
                    #[trigger] spec_applied(
                        old(self).store,
                        final(self).store,
                        account_id as int,
                        spec_tx_of(*proposed, ts),
                    )
            }),
            r == Err::<TransactionResponseDTO, LedgerError>(LedgerError::InsufficientCredit)
                ==> spec_dto_valid(*proposed) && repo_provisioned(old(self).store, account_id as int)
                && !old(self).store.account_view(account_id as int).accepts(
                spec_dto_signed_amount(*proposed),
            ),
            r == Err::<TransactionResponseDTO, LedgerError>(LedgerError::LockAcquisitionFailed)
                ==> *final(self) == *old(self),
            r is Err ==> final(self).store == old(self).store,
    {
        let now = now_unix_nanos();
        let token = random_token();
        proof {
            if old(self).locks.holder(account_id as int) is None {
                assert(old(self).locks.available(account_id as int, now));
            }
        }
        let r = self.apply_transaction_at(account_id, proposed, now, token);
        proof {
            if r is Ok {
                assert(spec_applied(
                    old(self).store,
                    self.store,
                    account_id as int,
                    spec_tx_of(*proposed, now),
                ));
            }
        }
        r
    }

    /// The account and its history, newest first, stamped `now`. Read-only:
    /// the lock-free fast path, which accepts a bounded staleness window in
    /// exchange for never contending with writers.
    pub fn read_statement_at(&self, account_id: i32, now: i128) -> (r: Result<
        (Statement, Vec<Transaction>),
        LedgerError,
    >)
        requires
            self.wf(),
        ensures
            !repo_provisioned(self.store, account_id as int) ==> r == Err::<
                (Statement, Vec<Transaction>),
                LedgerError,
            >(LedgerError::NotFound),
            repo_provisioned(self.store, account_id as int) ==> (r matches Ok(p) && p.0
                == (Statement {
                balance: self.store.account_view(account_id as int).balance,
                time_of_statement: now,
                credit_limit: self.store.account_view(account_id as int).credit_limit,
            }) && p.1@.len() == self.store.history_view(account_id as int).len() && p.1@.len()
                <= HISTORY_CAPACITY && views_of(p.1@) == spec_sort_newest_first(
                self.store.history_view(account_id as int),
            ) && views_of(p.1@).to_multiset() == self.store.history_view(
                account_id as int,
            ).to_multiset() && sorted_newest_first(views_of(p.1@))),
    {
        let acc = match self.store.read_account(account_id) {
            Ok(acc) => acc,
            Err(e) => {
                return Err(e);
            },
        };
        match self.store.read_history(account_id) {
            Ok(transactions) => Ok(
                (
                    Statement {
                        balance: acc.balance,
                        time_of_statement: now,
                        credit_limit: acc.credit_limit,
                    },
                    transactions,
                ),
            ),
            Err(e) => Err(e),
        }
    }

    /// The statement at the current clock reading. The exact contract,
    /// holding for every value the clock returns, is `read_statement_at`'s.
    pub fn read_statement(&self, account_id: i32) -> (r: Result<
        (Statement, Vec<Transaction>),
        LedgerError,
    >)
        requires
            self.wf(),
        ensures
            !repo_provisioned(self.store, account_id as int) ==> r == Err::<
                (Statement, Vec<Transaction>),
                LedgerError,
            >(LedgerError::NotFound),
            repo_provisioned(self.store, account_id as int) ==> (r matches Ok(p) && p.0.balance
                == self.store.account_view(account_id as int).balance && p.0.credit_limit
                == self.store.account_view(account_id as int).credit_limit && p.1@.len()
                == self.store.history_view(account_id as int).len() && p.1@.len()
                <= HISTORY_CAPACITY && views_of(p.1@) == spec_sort_newest_first(
                self.store.history_view(account_id as int),
            ) && views_of(p.1@).to_multiset() == self.store.history_view(
                account_id as int,
            ).to_multiset() && sorted_newest_first(views_of(p.1@))),
    {
        let now = now_unix_nanos();
        self.read_statement_at(account_id, now)
    }
}

} // verus!

//! Per-account mutual exclusion.
//!
//! Two interchangeable strategies, each a verified state machine over plain
//! values:
//!
//! * [`TokenLockTable`] — the token-guarded protocol of a distributed lock
//!   over a shared cache: acquire is a conditional "set if absent or expired"
//!   of a caller-supplied random token with an expiry deadline, and release
//!   is a compare-and-delete that only the holder's own token can perform.
//!   Expiry is the liveness mechanism: a crashed holder's entry lapses.
//! * [`SpinLockTable`] — one lock word per account, the protocol of a
//!   process-shared spinlock: acquire is a compare-and-swap of the word from
//!   free to held, release stores free. It has no expiry: a crashed holder
//!   leaves the word held forever, a known liveness gap of that strategy.
//!
//! The runtime around these tables (the shared cache round-trips, the shared
//! memory word, blocking waits and wakes) performs each step; what is
//! verified is the protocol: who may acquire, who may release, and that at
//! most one holder exists per account at any instant. Neither strategy
//! promises fairness among waiters, and neither is reentrant.

use vstd::prelude::*;

verus! {

// ---- strategy A: token-guarded lock with expiry ----

/// A held token lock: the holder's random token and the deadline after which
/// the hold lapses.
#[derive(Debug, Copy, Clone, PartialEq, Eq, Structural)]
pub struct TokenLockEntry {
    pub token: u64,
    pub expires_at: i128,
}

/// Whether account `account_id` can be acquired at time `now`: no holder, or
/// the holder's entry has expired.
pub open spec fn spec_token_available(
    table: Seq<Option<TokenLockEntry>>,
    account_id: int,
    now: i128,
) -> bool {
    match table[account_id - 1] {
        None => true,
        Some(e) => e.expires_at <= now,
    }
}

/// Per-account token locks, indexed by account id (1-based).
pub struct TokenLockTable {
    pub entries: Vec<Option<TokenLockEntry>>,
}

impl TokenLockTable {
    pub open spec fn n_accounts(self) -> int {
        self.entries@.len() as int
    }

    pub open spec fn holder(self, account_id: int) -> Option<TokenLockEntry> {
        self.entries@[account_id - 1]
    }

    pub open spec fn available(self, account_id: int, now: i128) -> bool {
        spec_token_available(self.entries@, account_id, now)
    }

    /// How many accounts the table covers.
    pub fn len(&self) -> (n: usize)
        ensures
            n == self.n_accounts(),
    {
        self.entries.len()
    }

    /// A table with no holder on any account.
    pub fn new(n_accounts: usize) -> (t: TokenLockTable)
        ensures
            t.n_accounts() == n_accounts,
            forall|id: int| 1 <= id <= n_accounts ==> t.holder(id) is None,
    {
        let mut entries: Vec<Option<TokenLockEntry>> = Vec::new();
        let mut i: usize = 0;
        while i < n_accounts
            invariant
                i <= n_accounts,
                entries@.len() == i,
                forall|j: int| 0 <= j < i ==> entries@[j] is None,
            decreases n_accounts - i,
        {
            entries.push(None);
            i = i + 1;
        }
        TokenLockTable { entries }
    }

    /// One acquisition attempt by `token` at time `now`: succeeds if and only
    /// if the account has no live holder, and then holds until `now + ttl`.
    /// Retrying and backing off on failure belong to the caller.
    pub fn try_acquire(&mut self, account_id: i32, token: u64, now: i128, ttl: i128) -> (r: bool)
        requires
            1 <= account_id <= old(self).n_accounts(),
            0 <= ttl,
            now + ttl <= i128::MAX,
        ensures
            r == old(self).available(account_id as int, now),
            r ==> final(self).entries@ == old(self).entries@.update(
                account_id - 1,
                Some(TokenLockEntry { token, expires_at: (now + ttl) as i128 }),
            ),
            !r ==> *final(self) == *old(self),
    {
        let idx = (account_id - 1) as usize;
        let available = match &self.entries[idx] {
            None => true,
            Some(e) => e.expires_at <= now,
        };
        if available {
            self.entries.set(idx, Some(TokenLockEntry { token, expires_at: now + ttl }));
        }
        available
    }

    /// Compare-and-delete release: removes the hold if and only if `token`
    /// matches the current holder's token. A release by any other token —
    /// for example by a holder whose own lock expired and was re-acquired —
    /// is a no-op and leaves the current holder intact.
    pub fn release(&mut self, account_id: i32, token: u64) -> (r: bool)
        requires
            1 <= account_id <= old(self).n_accounts(),
        ensures
            r == (old(self).holder(account_id as int) matches Some(e)
                && e.token == token),
            r ==> final(self).entries@ == old(self).entries@.update(account_id - 1, None),
            !r ==> *final(self) == *old(self),
    {
        let idx = (account_id - 1) as usize;
        let held_by_token = match &self.entries[idx] {
            None => false,
            Some(e) => e.token == token,
        };
        if held_by_token {
            self.entries.set(idx, None);
        }
        held_by_token
    }
}

/// At most one holder per account at any instant (token strategy): after a
/// successful acquire by `token` at `now` with expiry `now + ttl`, every
/// acquisition attempt on the same account fails at any time before that
/// expiry, whatever token it presents.
pub proof fn lemma_token_mutual_exclusion(
    table: Seq<Option<TokenLockEntry>>,
    account_id: int,
    token: u64,
    now: i128,
    ttl: i128,
    now2: i128,
)
    requires
        0 <= account_id - 1 < table.len(),
        spec_token_available(table, account_id, now),
        0 <= ttl,
        now + ttl <= i128::MAX,
        now2 < now + ttl,
    ensures
        !spec_token_available(
            table.update(
                account_id - 1,
                Some(TokenLockEntry { token, expires_at: (now + ttl) as i128 }),
            ),
            account_id,
            now2,
        ),
{
}

// ---- strategy B: per-account lock words ----

/// Witness of a held per-account lock. `release` consumes it, so the verified
/// call paths give it back on every exit; forgetting to release is the kind of
/// programmer error that would otherwise need a drop-time assertion to catch.
pub struct LockGuard {
    pub account_id: i32,
}

/// One lock word per account, indexed by account id (1-based): the protocol
/// of a process-shared spinlock at a fixed per-account offset.
pub struct SpinLockTable {
    pub words: Vec<bool>,
}

impl SpinLockTable {
    pub open spec fn n_accounts(self) -> int {
        self.words@.len() as int
    }

    pub open spec fn locked(self, account_id: int) -> bool {
        self.words@[account_id - 1]
    }

    /// A table with every account unlocked.
    pub fn new(n_accounts: usize) -> (t: SpinLockTable)
        ensures
            t.n_accounts() == n_accounts,
            forall|id: int| 1 <= id <= n_accounts ==> !t.locked(id),
    {
        let mut words: Vec<bool> = Vec::new();
        let mut i: usize = 0;
        while i < n_accounts
            invariant
                i <= n_accounts,
                words@.len() == i,
                forall|j: int| 0 <= j < i ==> !words@[j],
            decreases n_accounts - i,
        {
            words.push(false);
            i = i + 1;
        }
        SpinLockTable { words }
    }

    /// Compare-and-swap of the account's lock word: succeeds if and only if
    /// the word was free. On failure the caller blocks or retries; a bounded
    /// retry budget that runs out surfaces as `LockAcquisitionFailed` at the
    /// service.
    pub fn try_acquire(&mut self, account_id: i32) -> (r: Option<LockGuard>)
        requires
            1 <= account_id <= old(self).n_accounts(),
        ensures
            old(self).locked(account_id as int) ==> r is None && *final(self) == *old(self),
            !old(self).locked(account_id as int) ==> (r matches Some(g) && g.account_id
                == account_id && final(self).words@ == old(self).words@.update(account_id - 1, true)),
    {
        let idx = (account_id - 1) as usize;
        if self.words[idx] {
            None
        } else {
            self.words.set(idx, true);
            Some(LockGuard { account_id })
        }
    }

    /// Stores "free" in the guarded account's lock word and consumes the
    /// guard; the runtime counterpart then wakes one waiter.
    pub fn release(&mut self, guard: LockGuard)
        requires
            1 <= guard.account_id <= old(self).n_accounts(),
        ensures
            final(self).words@ == old(self).words@.update(guard.account_id - 1, false),
    {
        let idx = (guard.account_id - 1) as usize;
        self.words.set(idx, false);
    }
}

/// At most one holder per account at any instant (lock-word strategy): after
/// a successful compare-and-swap of a free word, every further attempt on the
/// same account finds the word held and fails, until the holder releases.
pub proof fn lemma_spin_mutual_exclusion(words: Seq<bool>, account_id: int)
    requires
        0 <= account_id - 1 < words.len(),
        !words[account_id - 1],
    ensures
        words.update(account_id - 1, true)[account_id - 1],
{
}

} // verus!

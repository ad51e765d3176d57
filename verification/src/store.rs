//! The ledger store: authoritative account state and the bounded per-account
//! transaction history, persisted as fixed-layout records in two byte
//! regions.
//!
//! This is the byte-region backend: accounts and histories live at fixed
//! offsets computed from the account id (see [`crate::repositories`]), exactly
//! as they would in a memory-mapped or shared-memory segment, and every read
//! and write goes through the binary codec of [`crate::codec`]. All offset
//! arithmetic is bounds-checked here and nothing outside this module touches
//! raw offsets.
//!
//! History slots are written left to right; a slot decoding to the unwritten
//! sentinel ends the written prefix. When all slots are written, a new
//! transaction overwrites the slot holding the oldest `created_at` (the first
//! such slot in scan order), so the store is a bounded, self-evicting ring
//! computed from unordered storage.

use vstd::prelude::*;
use crate::account::Account;
use crate::codec::ACCOUNT_RECORD_SIZE;
use crate::codec::TRANSACTION_RECORD_SIZE;
use crate::codec::SlotContent;
use crate::codec::decode_account;
use crate::codec::encode_account;
use crate::codec::lemma_account_round_trip;
use crate::codec::spec_decode_account;
use crate::codec::spec_decode_slot;
use crate::codec::spec_encode_account;
use crate::errors::LedgerError;
use crate::codec::decode_transaction_slot;
use crate::codec::encode_transaction;
use crate::codec::lemma_transaction_round_trip;
use crate::lock::LockGuard;
use crate::repositories::HISTORY_CAPACITY;
use crate::repositories::HasOffsetRange;
use crate::transaction::Transaction;
use crate::transaction::TransactionView;
use crate::transaction::views_of;
use vstd::pervasive::VecAdditionalExecFns;
use vstd::seq_lib::group_to_multiset_ensures;
use vstd::seq_lib::lemma_multiset_commutative;
use vstd::multiset::Multiset;

verus! {

// ---- byte splicing ----

/// `dst` with `src` written over its bytes starting at `off`.
pub open spec fn spec_splice(dst: Seq<u8>, off: int, src: Seq<u8>) -> Seq<u8>
    recommends
        0 <= off,
        off + src.len() <= dst.len(),
{
    dst.subrange(0, off) + src + dst.subrange(off + src.len(), dst.len() as int)
}

/// Splicing leaves every range disjoint from the written one unchanged.
proof fn lemma_splice_preserves(dst: Seq<u8>, off: int, src: Seq<u8>, a: int, b: int)
    requires
        0 <= off,
        off + src.len() <= dst.len(),
        0 <= a <= b <= dst.len(),
        b <= off || off + src.len() <= a,
    ensures
        spec_splice(dst, off, src).subrange(a, b) == dst.subrange(a, b),
{
    assert(spec_splice(dst, off, src).subrange(a, b) =~= dst.subrange(a, b));
}

/// The written range of a splice reads back as `src`.
proof fn lemma_splice_extract(dst: Seq<u8>, off: int, src: Seq<u8>)
    requires
        0 <= off,
        off + src.len() <= dst.len(),
    ensures
        spec_splice(dst, off, src).len() == dst.len(),
        spec_splice(dst, off, src).subrange(off, off + src.len()) == src,
{
    assert(spec_splice(dst, off, src).subrange(off, off + src.len()) =~= src);
}

/// Overwrites `dst[off .. off + src.len()]` with `src`.
fn write_bytes(dst: &mut Vec<u8>, off: usize, src: &Vec<u8>)
    requires
        off + src@.len() <= old(dst)@.len(),
    ensures
        final(dst)@ == spec_splice(old(dst)@, off as int, src@),
{
    proof {
        assert(dst.len() == dst@.len());
    }
    let mut i: usize = 0;
    while i < src.len()
        invariant
            i <= src@.len(),
            off + src@.len() <= dst@.len(),
            dst@.len() <= usize::MAX,
            dst@.len() == old(dst)@.len(),
            forall|j: int| 0 <= j < dst@.len() && !(off <= j < off + i) ==> dst@[j] == old(
                dst,
            )@[j],
            forall|j: int| off <= j < off + i ==> dst@[j] == src@[j - off],
        decreases src@.len() - i,
    {
        dst.set(off + i, src[i]);
        i = i + 1;
    }
    assert(dst@ =~= spec_splice(old(dst)@, off as int, src@));
}

// ---- eviction policy ----

/// Index of the oldest entry (smallest `created_at`); on ties, the first
/// match in scan order wins.
pub open spec fn first_oldest_idx(s: Seq<TransactionView>) -> int
    decreases s.len(),
{
    if s.len() <= 1 {
        0
    } else {
        let r = first_oldest_idx(s.drop_last());
        if s[s.len() - 1].created_at < s[r].created_at {
            s.len() - 1
        } else {
            r
        }
    }
}

/// `first_oldest_idx` lands on a minimal entry, and on the first one at that.
pub proof fn lemma_first_oldest_idx(s: Seq<TransactionView>)
    requires
        s.len() > 0,
    ensures
        0 <= first_oldest_idx(s) < s.len(),
        forall|j: int|
            0 <= j < s.len() ==> s[first_oldest_idx(s)].created_at <= (#[trigger] s[j]).created_at,
        forall|j: int|
            0 <= j < first_oldest_idx(s) ==> (#[trigger] s[j]).created_at > s[
                first_oldest_idx(s)].created_at,
    decreases s.len(),
{
    if s.len() > 1 {
        lemma_first_oldest_idx(s.drop_last());
        assert(forall|j: int| 0 <= j < s.len() - 1 ==> s[j] == s.drop_last()[j]);
    }
}

/// Index of the newest entry (greatest `created_at`); on ties, the first
/// match in scan order wins.
pub open spec fn first_newest_idx(s: Seq<TransactionView>) -> int
    decreases s.len(),
{
    if s.len() <= 1 {
        0
    } else {
        let r = first_newest_idx(s.drop_last());
        if s[s.len() - 1].created_at > s[r].created_at {
            s.len() - 1
        } else {
            r
        }
    }
}

/// `first_newest_idx` lands on a maximal entry, and on the first one at that.
pub proof fn lemma_first_newest_idx(s: Seq<TransactionView>)
    requires
        s.len() > 0,
    ensures
        0 <= first_newest_idx(s) < s.len(),
        forall|j: int|
            0 <= j < s.len() ==> s[first_newest_idx(s)].created_at >= (#[trigger] s[j]).created_at,
        forall|j: int|
            0 <= j < first_newest_idx(s) ==> (#[trigger] s[j]).created_at < s[
                first_newest_idx(s)].created_at,
    decreases s.len(),
{
    if s.len() > 1 {
        lemma_first_newest_idx(s.drop_last());
        assert(forall|j: int| 0 <= j < s.len() - 1 ==> s[j] == s.drop_last()[j]);
    }
}

/// The read order of a stored history: repeatedly take the first remaining
/// entry with the greatest `created_at`. Entries with equal timestamps thus
/// come out in storage order — insertion order, as long as the history has
/// not yet wrapped around by eviction.
pub open spec fn spec_sort_newest_first(s: Seq<TransactionView>) -> Seq<TransactionView>
    decreases s.len(),
{
    if s.len() == 0 {
        Seq::empty()
    } else {
        let i = first_newest_idx(s);
        if 0 <= i < s.len() {
            seq![s[i]] + spec_sort_newest_first(s.remove(i))
        } else {
            s
        }
    }
}

/// One history step: a new accepted record is appended while the history is
/// below capacity, and otherwise replaces the first oldest entry. This is
/// exactly the change `apply` and `add_transaction` guarantee per accepted
/// transaction.
pub open spec fn spec_hist_step(h: Seq<TransactionView>, t: TransactionView) -> Seq<
    TransactionView,
> {
    if h.len() < HISTORY_CAPACITY {
        h.push(t)
    } else {
        h.update(first_oldest_idx(h), t)
    }
}

/// The stored history after a run of accepted transactions, starting from `h`.
pub open spec fn spec_hist_run(h: Seq<TransactionView>, ts: Seq<TransactionView>) -> Seq<
    TransactionView,
>
    decreases ts.len(),
{
    if ts.len() == 0 {
        h
    } else {
        spec_hist_step(spec_hist_run(h, ts.drop_last()), ts.last())
    }
}

/// The most recent `HISTORY_CAPACITY` entries of a run — all of them while
/// there are fewer.
pub open spec fn spec_recent(ts: Seq<TransactionView>) -> Seq<TransactionView> {
    if ts.len() <= HISTORY_CAPACITY {
        ts
    } else {
        ts.subrange(ts.len() - HISTORY_CAPACITY, ts.len() as int)
    }
}

/// Updating index `idx` turns a sequence's multiset from one holding the old
/// entry into one holding the new.
proof fn lemma_update_multiset(h: Seq<TransactionView>, idx: int, t: TransactionView)
    requires
        0 <= idx < h.len(),
    ensures
        h.update(idx, t).to_multiset() =~= h.to_multiset().remove(h[idx]).insert(t),
{
    broadcast use group_to_multiset_ensures;
    broadcast use vstd::multiset::group_multiset_axioms;

    let head = h.subrange(0, idx);
    let tail = h.subrange(idx + 1, h.len() as int);
    assert(h =~= head + seq![h[idx]] + tail);
    assert(h.update(idx, t) =~= head + seq![t] + tail);
    lemma_multiset_commutative(head + seq![h[idx]], tail);
    lemma_multiset_commutative(head, seq![h[idx]]);
    lemma_multiset_commutative(head + seq![t], tail);
    lemma_multiset_commutative(head, seq![t]);
    lemma_singleton_multiset(h[idx]);
    lemma_singleton_multiset(t);
}

/// The multiset of a one-entry sequence.
proof fn lemma_singleton_multiset(t: TransactionView)
    ensures
        seq![t].to_multiset() =~= Multiset::empty().insert(t),
{
    broadcast use group_to_multiset_ensures;
    broadcast use vstd::multiset::group_multiset_axioms;

    assert(seq![t] =~= Seq::<TransactionView>::empty().push(t));
    assert(Seq::<TransactionView>::empty().push(t).to_multiset()
        =~= Seq::<TransactionView>::empty().to_multiset().insert(t));
    assert forall|x: TransactionView|
        Seq::<TransactionView>::empty().to_multiset().count(x) == 0 by {
        assert(!Seq::<TransactionView>::empty().contains(x));
    }
    assert(Seq::<TransactionView>::empty().to_multiset() =~= Multiset::empty());
}

/// Splitting off the first entry splits the multiset.
proof fn lemma_cons_multiset(x: TransactionView, rest: Seq<TransactionView>)
    ensures
        (seq![x] + rest).to_multiset() =~= rest.to_multiset().insert(x),
{
    broadcast use vstd::multiset::group_multiset_axioms;

    lemma_multiset_commutative(seq![x], rest);
    lemma_singleton_multiset(x);
}

/// Bounded retention law: starting from an empty history, a run of accepted
/// transactions with strictly increasing timestamps retains exactly the most
/// recent `HISTORY_CAPACITY` of them — never more — and every earlier entry,
/// the oldest ones, is gone.
#[verifier::spinoff_prover]
#[verifier::rlimit(50)]
pub proof fn lemma_history_retention(ts: Seq<TransactionView>)
    requires
        forall|i: int, j: int|
            0 <= i < j < ts.len() ==> (#[trigger] ts[i]).created_at < (#[trigger] ts[j]).created_at,
    ensures
        spec_hist_run(Seq::empty(), ts).len() == spec_recent(ts).len(),
        spec_hist_run(Seq::empty(), ts).to_multiset() == spec_recent(ts).to_multiset(),
        forall|j: int|
            0 <= j < ts.len() - HISTORY_CAPACITY ==> spec_hist_run(
                Seq::empty(),
                ts,
            ).to_multiset().count(#[trigger] ts[j]) == 0,
    decreases ts.len(),
{
    broadcast use group_to_multiset_ensures;
    broadcast use vstd::multiset::group_multiset_axioms;

    if ts.len() == 0 {
        assert(spec_hist_run(Seq::empty(), ts).to_multiset() =~= spec_recent(ts).to_multiset());
    } else {
        let prefix = ts.drop_last();
        let t = ts.last();
        let k = ts.len() as int;
        assert(forall|i: int| 0 <= i < prefix.len() ==> prefix[i] == ts[i]);
        lemma_history_retention(prefix);
        let h = spec_hist_run(Seq::empty(), prefix);
        assert(ts =~= prefix.push(t));
        if prefix.len() < HISTORY_CAPACITY {
            // below capacity: the step appends
            assert(spec_hist_run(Seq::empty(), ts) == h.push(t));
            assert(spec_recent(prefix) =~= prefix);
            assert(spec_recent(ts) =~= ts);
            assert(h.push(t).to_multiset() =~= ts.to_multiset());
        } else {
            // at capacity: the step overwrites the first oldest entry, which
            // under strictly increasing timestamps is the oldest retained one
            let idx = first_oldest_idx(h);
            let p0 = prefix.len() - HISTORY_CAPACITY;
            let suffix = spec_recent(prefix);
            lemma_first_oldest_idx(h);
            assert(spec_hist_run(Seq::empty(), ts) == h.update(idx, t));
            let mn = prefix[p0];
            assert(suffix[0] == mn);
            assert(suffix.contains(mn));
            assert(h.to_multiset().count(mn) > 0);
            assert(h.contains(mn));
            let i2 = choose|i2: int| 0 <= i2 < h.len() && h[i2] == mn;
            assert(h[idx].created_at <= mn.created_at);
            assert(h.contains(h[idx]));
            assert(h.to_multiset().count(h[idx]) > 0);
            assert(suffix.to_multiset().count(h[idx]) > 0);
            assert(suffix.contains(h[idx]));
            let j0 = choose|j0: int| 0 <= j0 < suffix.len() && suffix[j0] == h[idx];
            assert(suffix[j0] == prefix[p0 + j0]);
            assert(j0 == 0) by {
                if j0 > 0 {
                    assert(prefix[p0 + j0].created_at > prefix[p0].created_at);
                }
            }
            assert(h[idx] == mn);
            // multiset bookkeeping: out with the oldest, in with the newest
            let rest = prefix.subrange(p0 + 1, prefix.len() as int);
            lemma_update_multiset(h, idx, t);
            assert(suffix =~= seq![mn] + rest);
            lemma_cons_multiset(mn, rest);
            assert(h.to_multiset().remove(mn).insert(t) =~= rest.to_multiset().insert(t));
            assert(spec_recent(ts) =~= rest + seq![t]);
            lemma_multiset_commutative(rest, seq![t]);
            lemma_singleton_multiset(t);
            assert((rest + seq![t]).to_multiset() =~= rest.to_multiset().insert(t));
        }
        // entries older than the retained window are gone
        assert forall|j: int|
            0 <= j < ts.len() - HISTORY_CAPACITY implies spec_hist_run(
            Seq::empty(),
            ts,
        ).to_multiset().count(#[trigger] ts[j]) == 0 by {
            if spec_hist_run(Seq::empty(), ts).to_multiset().count(ts[j]) > 0 {
                assert(spec_recent(ts).contains(ts[j]));
                let i3 = choose|i3: int|
                    0 <= i3 < spec_recent(ts).len() && spec_recent(ts)[i3] == ts[j];
                assert(spec_recent(ts)[i3] == ts[k - HISTORY_CAPACITY + i3]);
                assert(ts[k - HISTORY_CAPACITY + i3].created_at > ts[j].created_at);
            }
        }
    }
}

// ---- the store ----

/// Ordered newest first by `created_at`.
pub open spec fn sorted_newest_first(s: Seq<TransactionView>) -> bool {
    forall|i: int, j: int| 0 <= i < j < s.len() ==> s[i].created_at >= s[j].created_at
}

/// Width in bytes of one account's transaction region.
pub open spec fn region_width() -> int {
    (TRANSACTION_RECORD_SIZE * HISTORY_CAPACITY) as int
}

/// Slot offsets lie within the transaction region of a provisioned account.
proof fn lemma_slot_bounds(id: int, k: int, n: int)
    requires
        1 <= id <= n,
        0 <= k < HISTORY_CAPACITY,
    ensures
        0 <= (id - 1) * region_width() + k * TRANSACTION_RECORD_SIZE,
        (id - 1) * region_width() + (k + 1) * TRANSACTION_RECORD_SIZE <= n * region_width(),
{
    assert((id - 1) * 640 + k * 64 >= 0 && (id - 1) * 640 + (k + 1) * 64 <= n * 640)
        by (nonlinear_arith)
        requires
            1 <= id <= n,
            0 <= k < 10,
    ;
}

/// Distinct history slots occupy disjoint byte ranges.
proof fn lemma_slot_disjoint(id1: int, k1: int, id2: int, k2: int)
    requires
        1 <= id1,
        1 <= id2,
        0 <= k1 < HISTORY_CAPACITY,
        0 <= k2 < HISTORY_CAPACITY,
        id1 != id2 || k1 != k2,
    ensures
        (id1 - 1) * region_width() + (k1 + 1) * TRANSACTION_RECORD_SIZE <= (id2 - 1)
            * region_width() + k2 * TRANSACTION_RECORD_SIZE || (id2 - 1) * region_width() + (k2
            + 1) * TRANSACTION_RECORD_SIZE <= (id1 - 1) * region_width() + k1
            * TRANSACTION_RECORD_SIZE,
{
    assert((id1 - 1) * 640 + (k1 + 1) * 64 <= (id2 - 1) * 640 + k2 * 64 || (id2 - 1) * 640 + (k2
        + 1) * 64 <= (id1 - 1) * 640 + k1 * 64) by (nonlinear_arith)
        requires
            1 <= id1,
            1 <= id2,
            0 <= k1 < 10,
            0 <= k2 < 10,
            id1 != id2 || k1 != k2,
    ;
}

/// Distinct account records occupy disjoint byte ranges.
proof fn lemma_account_disjoint(id1: int, id2: int)
    requires
        1 <= id1,
        1 <= id2,
        id1 != id2,
    ensures
        id1 * ACCOUNT_RECORD_SIZE <= (id2 - 1) * ACCOUNT_RECORD_SIZE || id2 * ACCOUNT_RECORD_SIZE
            <= (id1 - 1) * ACCOUNT_RECORD_SIZE,
{
    assert(id1 * 12 <= (id2 - 1) * 12 || id2 * 12 <= (id1 - 1) * 12) by (nonlinear_arith)
        requires
            1 <= id1,
            1 <= id2,
            id1 != id2,
    ;
}

/// Account record offsets lie within the account region.
proof fn lemma_account_bounds(id: int, n: int)
    requires
        1 <= id <= n,
    ensures
        0 <= (id - 1) * ACCOUNT_RECORD_SIZE,
        id * ACCOUNT_RECORD_SIZE <= n * ACCOUNT_RECORD_SIZE,
{
    assert((id - 1) * 12 >= 0 && id * 12 <= n * 12) by (nonlinear_arith)
        requires
            1 <= id <= n,
    ;
}

/// The byte-region ledger store.
pub struct LedgerStore {
    pub acc_mem: Vec<u8>,
    pub trans_mem: Vec<u8>,
    pub n_accounts: usize,
}

impl LedgerStore {
    /// Whether `account_id` was provisioned at initialization.
    pub open spec fn provisioned(self, account_id: int) -> bool {
        1 <= account_id <= self.n_accounts
    }

    /// The two regions hold exactly one record / one history per account.
    pub open spec fn mem_shape(self) -> bool {
        &&& self.acc_mem@.len() == self.n_accounts * ACCOUNT_RECORD_SIZE
        &&& self.trans_mem@.len() == self.n_accounts * region_width()
    }

    pub open spec fn acc_region(self, account_id: int) -> Seq<u8> {
        self.acc_mem@.subrange(
            (account_id - 1) * ACCOUNT_RECORD_SIZE,
            account_id * ACCOUNT_RECORD_SIZE,
        )
    }

    /// The stored account record, decoded.
    pub open spec fn account_at(self, account_id: int) -> Account {
        spec_decode_account(self.acc_region(account_id))
    }

    pub open spec fn slot_region(self, account_id: int, k: int) -> Seq<u8> {
        self.trans_mem@.subrange(
            (account_id - 1) * region_width() + k * TRANSACTION_RECORD_SIZE,
            (account_id - 1) * region_width() + (k + 1) * TRANSACTION_RECORD_SIZE,
        )
    }

    /// History slot `k` of the account, decoded.
    pub open spec fn slot_at(self, account_id: int, k: int) -> Result<SlotContent, LedgerError> {
        spec_decode_slot(self.slot_region(account_id, k))
    }

    pub open spec fn slot_written(self, account_id: int, k: int) -> bool {
        self.slot_at(account_id, k) matches Ok(SlotContent::Written(_))
    }

    /// The transaction in a written slot.
    pub open spec fn slot_tx(self, account_id: int, k: int) -> TransactionView
        recommends
            self.slot_written(account_id, k),
    {
        match self.slot_at(account_id, k) {
            Ok(SlotContent::Written(t)) => t,
            _ => arbitrary(),
        }
    }

    /// Every slot decodes, and the written ones form a prefix of the slots.
    pub open spec fn slots_wf(self, account_id: int) -> bool {
        &&& forall|k: int|
            0 <= k < HISTORY_CAPACITY ==> (#[trigger] self.slot_at(account_id, k)) is Ok
        &&& forall|k: int|
            1 <= k < HISTORY_CAPACITY && #[trigger] self.slot_written(account_id, k)
                ==> self.slot_written(account_id, k - 1)
    }

    /// Store invariant: regions have their exact shape, every provisioned
    /// account record decodes to a well-formed account carrying its own id,
    /// and every history is a well-formed written prefix.
    pub open spec fn wf(self) -> bool {
        &&& self.mem_shape()
        &&& forall|id: int|
            self.provisioned(id) ==> (#[trigger] self.account_at(id)).wf() && self.account_at(
                id,
            ).id == id
        &&& forall|id: int| self.provisioned(id) ==> #[trigger] self.slots_wf(id)
    }

    /// Number of written history slots, counted from slot `k` on.
    pub open spec fn hist_len_from(self, account_id: int, k: int) -> int
        decreases (if k < 0 {
            0int
        } else {
            HISTORY_CAPACITY - k
        }),
    {
        if k < 0 || k >= HISTORY_CAPACITY {
            HISTORY_CAPACITY as int
        } else if !self.slot_written(account_id, k) {
            k
        } else {
            self.hist_len_from(account_id, k + 1)
        }
    }

    /// Number of written history slots of the account.
    pub open spec fn hist_len(self, account_id: int) -> int {
        self.hist_len_from(account_id, 0)
    }

    /// The stored history in slot order (storage order, not read order).
    pub open spec fn hist(self, account_id: int) -> Seq<TransactionView> {
        Seq::new(self.hist_len(account_id) as nat, |k: int| self.slot_tx(account_id, k))
    }

    /// `hist_len_from(k)` is the first unwritten slot at or after `k`.
    pub proof fn lemma_hist_len_from_spec(self, account_id: int, k: int)
        requires
            0 <= k <= HISTORY_CAPACITY,
        ensures
            k <= self.hist_len_from(account_id, k) <= HISTORY_CAPACITY,
            forall|j: int|
                k <= j < self.hist_len_from(account_id, k) ==> self.slot_written(account_id, j),
            self.hist_len_from(account_id, k) < HISTORY_CAPACITY ==> !self.slot_written(
                account_id,
                self.hist_len_from(account_id, k),
            ),
        decreases HISTORY_CAPACITY - k,
    {
        if k < HISTORY_CAPACITY && self.slot_written(account_id, k) {
            self.lemma_hist_len_from_spec(account_id, k + 1);
        }
    }

    /// If the first `n` slots are written and slot `n` (if any) is not, the
    /// history length is exactly `n`.
    pub proof fn lemma_hist_len_is(self, account_id: int, n: int)
        requires
            0 <= n <= HISTORY_CAPACITY,
            forall|j: int| 0 <= j < n ==> self.slot_written(account_id, j),
            n == HISTORY_CAPACITY || !self.slot_written(account_id, n),
        ensures
            self.hist_len(account_id) == n,
    {
        self.lemma_hist_len_is_from(account_id, 0, n);
    }

    proof fn lemma_hist_len_is_from(self, account_id: int, k: int, n: int)
        requires
            0 <= k <= n <= HISTORY_CAPACITY,
            forall|j: int| k <= j < n ==> self.slot_written(account_id, j),
            n == HISTORY_CAPACITY || !self.slot_written(account_id, n),
        ensures
            self.hist_len_from(account_id, k) == n,
        decreases n - k,
    {
        if k < n {
            self.lemma_hist_len_is_from(account_id, k + 1, n);
        }
    }

    /// Two stores whose ten slots of an account decode alike have the same
    /// history there.
    pub proof fn lemma_hist_congruence_at(self, other: LedgerStore, account_id: int)
        requires
            forall|k: int|
                0 <= k < HISTORY_CAPACITY ==> #[trigger] self.slot_at(account_id, k)
                    == other.slot_at(account_id, k),
        ensures
            self.slots_wf(account_id) == other.slots_wf(account_id),
            self.hist_len(account_id) == other.hist_len(account_id),
            self.hist(account_id) == other.hist(account_id),
    {
        if self.slots_wf(account_id) {
            Self::lemma_slots_wf_transport(self, other, account_id);
        }
        if other.slots_wf(account_id) {
            Self::lemma_slots_wf_transport(other, self, account_id);
        }
        self.lemma_hist_len_from_congruence(other, account_id, 0);
        self.lemma_hist_len_from_spec(account_id, 0);
        assert(self.hist(account_id) =~= other.hist(account_id));
    }

    /// Two stores with the same transaction bytes and account count have the
    /// same slots and histories.
    pub proof fn lemma_hist_congruence(self, other: LedgerStore, account_id: int)
        requires
            self.trans_mem@ == other.trans_mem@,
            self.n_accounts == other.n_accounts,
        ensures
            forall|k: int| self.slot_at(account_id, k) == other.slot_at(account_id, k),
            self.slots_wf(account_id) == other.slots_wf(account_id),
            self.hist_len(account_id) == other.hist_len(account_id),
            self.hist(account_id) == other.hist(account_id),
    {
        assert(forall|k: int| self.slot_region(account_id, k) == other.slot_region(
            account_id,
            k,
        ));
        self.lemma_hist_congruence_at(other, account_id);
    }

    proof fn lemma_slots_wf_transport(a: LedgerStore, b: LedgerStore, account_id: int)
        requires
            forall|k: int|
                0 <= k < HISTORY_CAPACITY ==> #[trigger] a.slot_at(account_id, k) == b.slot_at(
                    account_id,
                    k,
                ),
            a.slots_wf(account_id),
        ensures
            b.slots_wf(account_id),
    {
        assert forall|k: int|
            0 <= k < HISTORY_CAPACITY implies (#[trigger] b.slot_at(account_id, k)) is Ok by {
            assert(a.slot_at(account_id, k) is Ok);
        }
        assert forall|k: int|
            1 <= k < HISTORY_CAPACITY && #[trigger] b.slot_written(account_id, k) implies b.slot_written(
            account_id,
            k - 1,
        ) by {
            assert(a.slot_written(account_id, k));
            assert(a.slot_written(account_id, k - 1));
        }
    }

    proof fn lemma_hist_len_from_congruence(self, other: LedgerStore, account_id: int, k: int)
        requires
            forall|j: int|
                0 <= j < HISTORY_CAPACITY ==> #[trigger] self.slot_at(account_id, j)
                    == other.slot_at(account_id, j),
        ensures
            self.hist_len_from(account_id, k) == other.hist_len_from(account_id, k),
        decreases (if k < 0 {
            0int
        } else {
            HISTORY_CAPACITY - k
        }),
    {
        if 0 <= k < HISTORY_CAPACITY && self.slot_written(account_id, k) {
            self.lemma_hist_len_from_congruence(other, account_id, k + 1);
        }
    }

    /// Every slot at or after the history length is unwritten.
    pub proof fn lemma_unwritten_after(self, account_id: int)
        requires
            self.slots_wf(account_id),
        ensures
            forall|j: int|
                self.hist_len(account_id) <= j < HISTORY_CAPACITY ==> !self.slot_written(
                    account_id,
                    j,
                ),
    {
        self.lemma_hist_len_from_spec(account_id, 0);
        let hl = self.hist_len(account_id);
        assert forall|j: int| hl <= j < HISTORY_CAPACITY implies !self.slot_written(
            account_id,
            j,
        ) by {
            if self.slot_written(account_id, j) {
                self.lemma_written_prefix(account_id, j, hl);
            }
        }
    }

    proof fn lemma_written_prefix(self, account_id: int, j: int, j2: int)
        requires
            self.slots_wf(account_id),
            0 <= j2 <= j < HISTORY_CAPACITY,
            self.slot_written(account_id, j),
        ensures
            self.slot_written(account_id, j2),
        decreases j - j2,
    {
        if j2 < j {
            assert(self.slot_written(account_id, j - 1));
            self.lemma_written_prefix(account_id, j - 1, j2);
        }
    }

    /// Creates zeroed byte regions for `n_accounts` accounts: every account
    /// record awaits provisioning and every history slot is unwritten.
    #[verifier::spinoff_prover]
    pub fn init_pool(n_accounts: usize) -> (s: LedgerStore)
        requires
            n_accounts * (TRANSACTION_RECORD_SIZE * HISTORY_CAPACITY) <= usize::MAX,
        ensures
            s.n_accounts == n_accounts,
            s.mem_shape(),
            forall|id: int|
                s.provisioned(id) ==> #[trigger] s.slots_wf(id) && s.hist_len(id) == 0,
    {
        proof {
            assert(n_accounts * 12 <= n_accounts * 640) by (nonlinear_arith);
        }
        let acc_mem = vec![0u8; n_accounts * ACCOUNT_RECORD_SIZE];
        let trans_mem = vec![0u8; n_accounts * (TRANSACTION_RECORD_SIZE * HISTORY_CAPACITY)];
        let s = LedgerStore { acc_mem, trans_mem, n_accounts };
        proof {
            assert forall|id: int| s.provisioned(id) implies #[trigger] s.slots_wf(id)
                && s.hist_len(id) == 0 by {
                assert forall|k: int|
                    0 <= k < HISTORY_CAPACITY implies (#[trigger] s.slot_at(id, k)) is Ok && !s.slot_written(
                    id,
                    k,
                ) by {
                    lemma_slot_bounds(id, k, s.n_accounts as int);
                    assert(s.slot_region(id, k)[4] == 0u8);
                }
                s.lemma_hist_len_is(id, 0);
            }
        }
        s
    }

    /// Provisions the seed accounts, writing each account record into its
    /// region. Account `i + 1` takes record `i`; histories are untouched.
    #[verifier::spinoff_prover]
    pub fn setup_db(&mut self, accounts: &Vec<Account>)
        requires
            old(self).mem_shape(),
            accounts@.len() == old(self).n_accounts,
            forall|i: int|
                0 <= i < accounts@.len() ==> (#[trigger] accounts@[i]).wf() && accounts@[i].id == i
                    + 1,
            forall|id: int| old(self).provisioned(id) ==> #[trigger] old(self).slots_wf(id),
        ensures
            final(self).wf(),
            final(self).n_accounts == old(self).n_accounts,
            final(self).trans_mem@ == old(self).trans_mem@,
            forall|id: int|
                final(self).provisioned(id) ==> #[trigger] final(self).account_at(id)
                    == accounts@[id - 1],
            forall|id: int|
                final(self).provisioned(id) ==> #[trigger] final(self).hist(id) == old(self).hist(
                    id,
                ) && final(self).hist_len(id) == old(self).hist_len(id),
    {
        let n = self.n_accounts;
        let mut i: usize = 0;
        while i < n
            invariant
                i <= n,
                n == self.n_accounts,
                self.mem_shape(),
                self.trans_mem@ == old(self).trans_mem@,
                accounts@.len() == n,
                forall|j: int|
                    0 <= j < accounts@.len() ==> (#[trigger] accounts@[j]).wf() && accounts@[j].id
                        == j + 1,
                forall|id: int|
                    1 <= id <= i ==> #[trigger] self.acc_region(id) == spec_encode_account(
                        accounts@[id - 1],
                    ),
            decreases n - i,
        {
            let record = encode_account(&accounts[i]);
            proof {
                assert(self.acc_mem.len() == self.acc_mem@.len());
                lemma_account_bounds(i as int + 1, n as int);
            }
            let ghost pre_self = *self;
            let ghost pre = self.acc_mem@;
            write_bytes(&mut self.acc_mem, i * ACCOUNT_RECORD_SIZE, &record);
            proof {
                lemma_splice_extract(pre, (i * ACCOUNT_RECORD_SIZE) as int, record@);
                assert forall|id: int| 1 <= id <= i + 1 implies #[trigger] self.acc_region(id)
                    == spec_encode_account(accounts@[id - 1]) by {
                    lemma_account_bounds(id, n as int);
                    if id == i + 1 {
                        assert(self.acc_region(id) =~= record@);
                    } else {
                        assert(pre_self.acc_region(id) == spec_encode_account(accounts@[id - 1]));
                        assert(id * ACCOUNT_RECORD_SIZE <= i * ACCOUNT_RECORD_SIZE)
                            by (nonlinear_arith)
                            requires
                                id <= i,
                        ;
                        lemma_splice_preserves(
                            pre,
                            (i * ACCOUNT_RECORD_SIZE) as int,
                            record@,
                            (id - 1) * ACCOUNT_RECORD_SIZE,
                            id * ACCOUNT_RECORD_SIZE,
                        );
                        assert(self.acc_region(id) == pre_self.acc_region(id));
                    }
                }
            }
            i = i + 1;
        }
        proof {
            assert forall|id: int| self.provisioned(id) implies #[trigger] self.account_at(id)
                == accounts@[id - 1] by {
                lemma_account_round_trip(accounts@[id - 1]);
            }
            assert forall|id: int| self.provisioned(id) implies #[trigger] self.slots_wf(id) by {
                self.lemma_hist_congruence(*old(self), id);
            }
            assert forall|id: int| self.provisioned(id) implies #[trigger] self.hist(id) == old(
                self,
            ).hist(id) && self.hist_len(id) == old(self).hist_len(id) by {
                self.lemma_hist_congruence(*old(self), id);
            }
        }
    }

    /// The stored state of a provisioned account; `NotFound` otherwise.
    pub fn read_account(&self, account_id: i32) -> (r: Result<Account, LedgerError>)
        requires
            self.wf(),
        ensures
            self.provisioned(account_id as int) ==> r == Ok::<Account, LedgerError>(
                self.account_at(account_id as int),
            ),
            !self.provisioned(account_id as int) ==> r == Err::<Account, LedgerError>(
                LedgerError::NotFound,
            ),
    {
        if account_id < 1 || account_id as usize > self.n_accounts {
            return Err(LedgerError::NotFound);
        }
        proof {
            assert(self.acc_mem.len() == self.acc_mem@.len());
            lemma_account_bounds(account_id as int, self.n_accounts as int);
            assert(account_id * Account::region_size() <= usize::MAX);
        }
        let range = Account::offset_range(account_id);
        let region = vstd::slice::slice_subrange(self.acc_mem.as_slice(), range.start, range.end);
        Ok(decode_account(region))
    }

    /// Collects the written history prefix in slot (storage) order.
    #[verifier::spinoff_prover]
    fn scan_history(&self, account_id: i32) -> (buf: Vec<Transaction>)
        requires
            self.wf(),
            self.provisioned(account_id as int),
        ensures
            buf@.len() == self.hist_len(account_id as int),
            views_of(buf@) == self.hist(account_id as int),
            forall|j: int| 0 <= j < buf@.len() ==> (#[trigger] buf@[j]).wf(),
    {
        proof {
            assert(self.trans_mem.len() == self.trans_mem@.len());
            assert(account_id * Transaction::region_size() <= self.n_accounts
                * Transaction::region_size()) by (nonlinear_arith)
                requires
                    1 <= account_id <= self.n_accounts,
                    Transaction::region_size() > 0,
            ;
        }
        let range = Transaction::offset_range(account_id);
        let mut buf: Vec<Transaction> = Vec::new();
        let mut k: usize = 0;
        loop
            invariant
                self.wf(),
                self.provisioned(account_id as int),
                k <= HISTORY_CAPACITY,
                range.start == (account_id - 1) * region_width(),
                buf@.len() == k,
                forall|j: int| 0 <= j < k ==> self.slot_written(account_id as int, j),
                forall|j: int|
                    0 <= j < k ==> (#[trigger] buf@[j])@ == self.slot_tx(account_id as int, j)
                        && buf@[j].wf(),
            ensures
                k <= HISTORY_CAPACITY,
                buf@.len() == k,
                forall|j: int| 0 <= j < k ==> self.slot_written(account_id as int, j),
                forall|j: int|
                    0 <= j < k ==> (#[trigger] buf@[j])@ == self.slot_tx(account_id as int, j)
                        && buf@[j].wf(),
                k == HISTORY_CAPACITY || !self.slot_written(account_id as int, k as int),
            decreases HISTORY_CAPACITY - k,
        {
            if k == HISTORY_CAPACITY {
                break ;
            }
            proof {
                assert(self.trans_mem.len() == self.trans_mem@.len());
                lemma_slot_bounds(account_id as int, k as int, self.n_accounts as int);
            }
            let off = range.start + k * TRANSACTION_RECORD_SIZE;
            let region = vstd::slice::slice_subrange(
                self.trans_mem.as_slice(),
                off,
                off + TRANSACTION_RECORD_SIZE,
            );
            proof {
                assert(region@ == self.slot_region(account_id as int, k as int));
            }
            let decoded = decode_transaction_slot(region);
            match decoded {
                Ok(Some(t)) => {
                    buf.push(t);
                },
                Ok(None) => {
                    break ;
                },
                Err(_) => {
                    proof {
                        assert(self.slots_wf(account_id as int));
                        assert(self.slot_at(account_id as int, k as int) is Ok);
                        assert(crate::codec::spec_slot_of_decoded(decoded) is Err);
                        assert(false);
                    }
                    break ;
                },
            }
            k = k + 1;
        }
        proof {
            self.lemma_hist_len_is(account_id as int, k as int);
            assert(views_of(buf@) =~= self.hist(account_id as int));
        }
        buf
    }

    /// The account's history for reading: up to 10 transactions, re-sorted
    /// newest first by `created_at` (storage order is slot order, which
    /// eviction may leave unsorted); a permutation of the stored history.
    #[verifier::spinoff_prover]
    pub fn read_history(&self, account_id: i32) -> (r: Result<Vec<Transaction>, LedgerError>)
        requires
            self.wf(),
        ensures
            !self.provisioned(account_id as int) ==> r == Err::<Vec<Transaction>, LedgerError>(
                LedgerError::NotFound,
            ),
            self.provisioned(account_id as int) ==> (r matches Ok(v) && v@.len()
                == self.hist_len(account_id as int) && v@.len() <= HISTORY_CAPACITY && views_of(
                v@,
            ) == spec_sort_newest_first(self.hist(account_id as int)) && views_of(
                v@,
            ).to_multiset() == self.hist(account_id as int).to_multiset() && sorted_newest_first(
                views_of(v@),
            )),
    {
        if account_id < 1 || account_id as usize > self.n_accounts {
            return Err(LedgerError::NotFound);
        }
        let buf = self.scan_history(account_id);
        proof {
            self.lemma_hist_len_from_spec(account_id as int, 0);
        }
        let sorted = sort_newest_first_vec(buf);
        Ok(sorted)
    }

    /// The account and its history, newest first.
    pub fn get_acc_and_transactions(&self, account_id: i32) -> (r: Result<
        (Account, Vec<Transaction>),
        LedgerError,
    >)
        requires
            self.wf(),
        ensures
            !self.provisioned(account_id as int) ==> r == Err::<
                (Account, Vec<Transaction>),
                LedgerError,
            >(LedgerError::NotFound),
            self.provisioned(account_id as int) ==> (r matches Ok(p) && p.0 == self.account_at(
                account_id as int,
            ) && p.1@.len() == self.hist_len(account_id as int) && views_of(p.1@)
                == spec_sort_newest_first(self.hist(account_id as int)) && views_of(
                p.1@,
            ).to_multiset() == self.hist(account_id as int).to_multiset() && sorted_newest_first(
                views_of(p.1@),
            )),
    {
        let acc = match self.read_account(account_id) {
            Ok(acc) => acc,
            Err(e) => {
                return Err(e);
            },
        };
        match self.read_history(account_id) {
            Ok(transactions) => Ok((acc, transactions)),
            Err(e) => Err(e),
        }
    }

    /// Writes `acc` as the account's stored record; histories are untouched.
    #[verifier::spinoff_prover]
    fn write_account_record(&mut self, acc: &Account)
        requires
            old(self).wf(),
            acc.wf(),
            old(self).provisioned(acc.id as int),
        ensures
            final(self).wf(),
            final(self).n_accounts == old(self).n_accounts,
            final(self).trans_mem@ == old(self).trans_mem@,
            final(self).account_at(acc.id as int) == *acc,
            forall|other: int|
                final(self).provisioned(other) && other != acc.id
                    ==> #[trigger] final(self).account_at(other) == old(self).account_at(other),
            forall|id2: int|
                final(self).provisioned(id2) ==> #[trigger] final(self).hist(id2) == old(
                    self,
                ).hist(id2) && final(self).hist_len(id2) == old(self).hist_len(id2),
    {
        let account_id = acc.id;
        proof {
            assert(self.acc_mem.len() == self.acc_mem@.len());
            lemma_account_bounds(account_id as int, self.n_accounts as int);
        }
        let record = encode_account(acc);
        let acc_range = Account::offset_range(account_id);
        let ghost s0 = *self;
        write_bytes(&mut self.acc_mem, acc_range.start, &record);
        proof {
            lemma_splice_extract(s0.acc_mem@, acc_range.start as int, record@);
            lemma_account_round_trip(*acc);
            assert(self.acc_region(account_id as int) =~= record@);
            assert forall|other: int|
                self.provisioned(other) && other != account_id implies #[trigger] self.acc_region(
                other,
            ) == s0.acc_region(other) by {
                lemma_account_bounds(other, self.n_accounts as int);
                lemma_account_disjoint(other, account_id as int);
                lemma_splice_preserves(
                    s0.acc_mem@,
                    acc_range.start as int,
                    record@,
                    (other - 1) * ACCOUNT_RECORD_SIZE,
                    other * ACCOUNT_RECORD_SIZE,
                );
            }
            assert forall|id2: int| self.provisioned(id2) implies #[trigger] self.slots_wf(
                id2,
            ) by {
                self.lemma_hist_congruence(s0, id2);
            }
            assert forall|id2: int| self.provisioned(id2) implies #[trigger] self.hist(id2)
                == s0.hist(id2) && self.hist_len(id2) == s0.hist_len(id2) by {
                self.lemma_hist_congruence(s0, id2);
            }
            assert forall|id2: int|
                self.provisioned(id2) implies (#[trigger] self.account_at(id2)).wf()
                && self.account_at(id2).id == id2 by {
                if id2 != account_id {
                    assert(self.acc_region(id2) == s0.acc_region(id2));
                    assert(s0.account_at(id2).wf() && s0.account_at(id2).id == id2);
                } else {
                    assert(self.account_at(id2) == *acc);
                }
            }
            assert(self.wf());
        }
    }

    /// Writes the encoded `transaction` into slot `slot_idx` of the account's
    /// history region; every other slot and every account record is untouched.
    #[verifier::spinoff_prover]
    fn write_slot(&mut self, account_id: i32, slot_idx: usize, transaction: &Transaction)
        requires
            old(self).mem_shape(),
            old(self).provisioned(account_id as int),
            slot_idx < HISTORY_CAPACITY,
            transaction.wf(),
        ensures
            final(self).n_accounts == old(self).n_accounts,
            final(self).acc_mem@ == old(self).acc_mem@,
            final(self).mem_shape(),
            final(self).slot_at(account_id as int, slot_idx as int) == Ok::<
                SlotContent,
                LedgerError,
            >(SlotContent::Written(transaction@)),
            forall|id2: int, k2: int|
                1 <= id2 <= old(self).n_accounts && 0 <= k2 < HISTORY_CAPACITY && (id2
                    != account_id || k2 != slot_idx) ==> #[trigger] final(self).slot_at(id2, k2)
                    == old(self).slot_at(id2, k2),
    {
        let rec = encode_transaction(transaction);
        proof {
            assert(self.trans_mem.len() == self.trans_mem@.len());
            lemma_slot_bounds(account_id as int, slot_idx as int, self.n_accounts as int);
            assert(account_id * Transaction::region_size() <= self.n_accounts
                * Transaction::region_size()) by (nonlinear_arith)
                requires
                    1 <= account_id <= self.n_accounts,
                    Transaction::region_size() > 0,
            ;
        }
        let trans_range = Transaction::offset_range(account_id);
        let off = trans_range.start + slot_idx * TRANSACTION_RECORD_SIZE;
        let ghost s1 = *self;
        write_bytes(&mut self.trans_mem, off, &rec);
        proof {
            lemma_splice_extract(s1.trans_mem@, off as int, rec@);
            lemma_transaction_round_trip(transaction@);
            assert(self.slot_region(account_id as int, slot_idx as int) =~= rec@);
            assert forall|id2: int, k2: int|
                1 <= id2 <= self.n_accounts && 0 <= k2 < HISTORY_CAPACITY && (id2 != account_id
                    || k2 != slot_idx) implies #[trigger] self.slot_at(id2, k2) == s1.slot_at(
                id2,
                k2,
            ) by {
                lemma_slot_bounds(id2, k2, self.n_accounts as int);
                lemma_slot_disjoint(id2, k2, account_id as int, slot_idx as int);
                lemma_splice_preserves(
                    s1.trans_mem@,
                    off as int,
                    rec@,
                    (id2 - 1) * region_width() + k2 * TRANSACTION_RECORD_SIZE,
                    (id2 - 1) * region_width() + (k2 + 1) * TRANSACTION_RECORD_SIZE,
                );
                assert(self.slot_region(id2, k2) == s1.slot_region(id2, k2));
            }
        }
    }

    /// Persists `acc` as the account's record and appends `transaction` to
    /// its history: into the first unwritten slot, or — when all slots are
    /// written — over the slot holding the oldest `created_at`, first match
    /// in scan order. To be invoked only while holding the account's lock;
    /// the validated path is [`LedgerStore::apply`].
    #[verifier::spinoff_prover]
    pub fn add_transaction(&mut self, acc: &Account, transaction: &Transaction)
        requires
            old(self).wf(),
            acc.wf(),
            old(self).provisioned(acc.id as int),
            transaction.wf(),
        ensures
            final(self).wf(),
            final(self).n_accounts == old(self).n_accounts,
            final(self).account_at(acc.id as int) == *acc,
            forall|other: int|
                final(self).provisioned(other) && other != acc.id
                    ==> #[trigger] final(self).account_at(other) == old(self).account_at(other),
            forall|other: int|
                final(self).provisioned(other) && other != acc.id ==> #[trigger] final(self).hist(
                    other,
                ) == old(self).hist(other),
            old(self).hist_len(acc.id as int) < HISTORY_CAPACITY ==> final(self).hist(
                acc.id as int,
            ) == old(self).hist(acc.id as int).push(transaction@),
            old(self).hist_len(acc.id as int) == HISTORY_CAPACITY ==> final(self).hist(
                acc.id as int,
            ) == old(self).hist(acc.id as int).update(
                first_oldest_idx(old(self).hist(acc.id as int)),
                transaction@,
            ),
            final(self).hist(acc.id as int) == spec_hist_step(
                old(self).hist(acc.id as int),
                transaction@,
            ),
            final(self).hist_len(acc.id as int) == (if old(self).hist_len(acc.id as int)
                < HISTORY_CAPACITY {
                old(self).hist_len(acc.id as int) + 1
            } else {
                HISTORY_CAPACITY as int
            }),
    {
        let account_id = acc.id;
        proof {
            old(self).lemma_hist_len_from_spec(acc.id as int, 0);
        }
        self.write_account_record(acc);
        let buf = self.scan_history(account_id);
        let fill = buf.len();
        let ghost h0 = self.hist(account_id as int);
        proof {
            self.lemma_hist_len_from_spec(account_id as int, 0);
        }
        let slot_idx: usize;
        if fill < HISTORY_CAPACITY {
            slot_idx = fill;
        } else {
            let mut best: usize = 0;
            let mut m: usize = 1;
            while m < HISTORY_CAPACITY
                invariant
                    1 <= m <= HISTORY_CAPACITY,
                    0 <= best < m,
                    buf@.len() == HISTORY_CAPACITY,
                    views_of(buf@) == h0,
                    h0.len() == HISTORY_CAPACITY,
                    best == first_oldest_idx(h0.subrange(0, m as int)),
                decreases HISTORY_CAPACITY - m,
            {
                proof {
                    assert(h0.subrange(0, m as int + 1).drop_last() =~= h0.subrange(0, m as int));
                    assert(h0.subrange(0, m as int + 1)[m as int] == h0[m as int]);
                    assert(buf@[m as int]@ == h0[m as int]);
                    assert(buf@[best as int]@ == h0[best as int]);
                }
                if buf[m].created_at < buf[best].created_at {
                    best = m;
                }
                m = m + 1;
            }
            proof {
                assert(h0.subrange(0, HISTORY_CAPACITY as int) =~= h0);
            }
            slot_idx = best;
        }
        let ghost s1 = *self;
        self.write_slot(account_id, slot_idx, transaction);
        proof {
            let id = account_id as int;
            assert forall|other: int|
                self.provisioned(other) && other != account_id implies #[trigger] self.hist(other)
                == s1.hist(other) by {
                assert forall|k: int|
                    0 <= k < HISTORY_CAPACITY implies #[trigger] self.slot_at(other, k)
                        == s1.slot_at(other, k) by {}
                self.lemma_hist_congruence_at(s1, other);
            }
            assert forall|other: int|
                self.provisioned(other) && other != account_id implies #[trigger] self.slots_wf(
                other,
            ) by {
                assert forall|k: int|
                    0 <= k < HISTORY_CAPACITY implies #[trigger] self.slot_at(other, k)
                        == s1.slot_at(other, k) by {}
                self.lemma_hist_congruence_at(s1, other);
                assert(s1.slots_wf(other));
            }
            assert forall|id2: int|
                self.provisioned(id2) implies (#[trigger] self.account_at(id2)).wf()
                && self.account_at(id2).id == id2 && self.account_at(id2) == s1.account_at(
                id2,
            ) by {
                assert(self.acc_region(id2) == s1.acc_region(id2));
                assert(s1.account_at(id2).wf() && s1.account_at(id2).id == id2);
            }
            assert(s1.wf());
            assert(s1.slots_wf(id));
            s1.lemma_unwritten_after(id);
            let fl = s1.hist_len(id);
            if fill < HISTORY_CAPACITY {
                assert forall|j: int| 0 <= j < fl + 1 implies self.slot_written(id, j) by {
                    if j < fl {
                        assert(s1.slot_written(id, j));
                        assert(self.slot_at(id, j) == s1.slot_at(id, j));
                    }
                }
                if fl + 1 < HISTORY_CAPACITY {
                    assert(!s1.slot_written(id, fl + 1));
                    assert(self.slot_at(id, fl + 1) == s1.slot_at(id, fl + 1));
                    assert(!self.slot_written(id, fl + 1));
                }
                self.lemma_hist_len_is(id, fl + 1);
                assert forall|k: int|
                    0 <= k < HISTORY_CAPACITY implies (#[trigger] self.slot_at(id, k)) is Ok by {
                    if k != slot_idx {
                        assert(self.slot_at(id, k) == s1.slot_at(id, k));
                        assert(s1.slot_at(id, k) is Ok);
                    }
                }
                assert forall|k: int|
                    1 <= k < HISTORY_CAPACITY && #[trigger] self.slot_written(id, k) implies self.slot_written(
                    id,
                    k - 1,
                ) by {
                    if k > fl {
                        assert(self.slot_at(id, k) == s1.slot_at(id, k));
                        assert(!s1.slot_written(id, k));
                    }
                }
                assert(self.slots_wf(id));
                self.lemma_hist_len_from_spec(id, 0);
                assert(self.hist(id) =~= s1.hist(id).push(transaction@));
            } else {
                assert(fl == HISTORY_CAPACITY);
                assert forall|j: int| 0 <= j < HISTORY_CAPACITY implies self.slot_written(
                    id,
                    j,
                ) by {
                    if j != slot_idx {
                        assert(self.slot_at(id, j) == s1.slot_at(id, j));
                        assert(s1.slot_written(id, j));
                    }
                }
                self.lemma_hist_len_is(id, HISTORY_CAPACITY as int);
                assert forall|k: int|
                    0 <= k < HISTORY_CAPACITY implies (#[trigger] self.slot_at(id, k)) is Ok by {
                    assert(self.slot_written(id, k));
                }
                assert(self.slots_wf(id));
                assert(self.hist(id) =~= s1.hist(id).update(first_oldest_idx(h0), transaction@));
            }
            assert(self.wf());
        }
    }


    /// Applies a proposed transaction under the account's lock: validates the
    /// credit-limit invariant against the current balance and, when it holds,
    /// persists the new balance and appends the transaction, evicting the
    /// oldest record if the history is full; returns the updated account.
    /// When the invariant fails, nothing changes and the call fails with
    /// `InsufficientCredit`; an unprovisioned id fails with `NotFound`.
    #[verifier::spinoff_prover]
    pub fn apply(&mut self, account_id: i32, transaction: &Transaction, guard: &LockGuard) -> (r:
        Result<Account, LedgerError>)
        requires
            old(self).wf(),
            transaction.wf(),
            guard.account_id == account_id,
            old(self).provisioned(account_id as int) ==> i32::MIN <= old(self).account_at(
                account_id as int,
            ).balance + transaction.amount <= i32::MAX,
        ensures
            final(self).wf(),
            final(self).n_accounts == old(self).n_accounts,
            !old(self).provisioned(account_id as int) ==> r == Err::<Account, LedgerError>(
                LedgerError::NotFound,
            ) && *final(self) == *old(self),
            old(self).provisioned(account_id as int) && !old(self).account_at(
                account_id as int,
            ).accepts(transaction.amount as int) ==> r == Err::<Account, LedgerError>(
                LedgerError::InsufficientCredit,
            ) && *final(self) == *old(self),
            old(self).provisioned(account_id as int) && old(self).account_at(
                account_id as int,
            ).accepts(transaction.amount as int) ==> {
                let updated = old(self).account_at(account_id as int).with_amount(
                    transaction.amount as int,
                );
                &&& r == Ok::<Account, LedgerError>(updated)
                &&& final(self).account_at(account_id as int) == updated
                &&& forall|other: int|
                    final(self).provisioned(other) && other != account_id
                        ==> #[trigger] final(self).account_at(other) == old(self).account_at(other)
                &&& forall|other: int|
                    final(self).provisioned(other) && other != account_id
                        ==> #[trigger] final(self).hist(other) == old(self).hist(other)
                &&& old(self).hist_len(account_id as int) < HISTORY_CAPACITY ==> final(self).hist(
                    account_id as int,
                ) == old(self).hist(account_id as int).push(transaction@)
                &&& old(self).hist_len(account_id as int) == HISTORY_CAPACITY ==> final(self).hist(
                    account_id as int,
                ) == old(self).hist(account_id as int).update(
                    first_oldest_idx(old(self).hist(account_id as int)),
                    transaction@,
                )
                &&& final(self).hist(account_id as int) == spec_hist_step(
                    old(self).hist(account_id as int),
                    transaction@,
                )
                &&& final(self).hist_len(account_id as int) == (if old(self).hist_len(
                    account_id as int,
                ) < HISTORY_CAPACITY {
                    old(self).hist_len(account_id as int) + 1
                } else {
                    HISTORY_CAPACITY as int
                })
            },
    {
        if account_id < 1 || account_id as usize > self.n_accounts {
            return Err(LedgerError::NotFound);
        }
        let current = match self.read_account(account_id) {
            Ok(a) => a,
            Err(e) => {
                proof {
                    assert(false);
                }
                return Err(e);
            },
        };
        let updated = match current.add_transaction(transaction) {
            Ok(a) => a,
            Err(_) => {
                return Err(LedgerError::InsufficientCredit);
            },
        };
        self.add_transaction(&updated, transaction);
        Ok(updated)
    }
}

/// Reorders transactions into read order: exactly the stable newest-first
/// order `spec_sort_newest_first` of the input — sorted by `created_at`
/// descending, a permutation (as a multiset of views) of the input, with
/// entries of equal timestamp kept in input order.
#[verifier::spinoff_prover]
pub(crate) fn sort_newest_first_vec(input: Vec<Transaction>) -> (out: Vec<Transaction>)
    ensures
        out@.len() == input@.len(),
        views_of(out@) == spec_sort_newest_first(views_of(input@)),
        views_of(out@).to_multiset() == views_of(input@).to_multiset(),
        sorted_newest_first(views_of(out@)),
        forall|j: int| 0 <= j < out@.len() ==> input@.contains(#[trigger] out@[j]),
{
    let ghost input0 = input@;
    let mut work = input;
    let mut out: Vec<Transaction> = Vec::new();
    proof {
        broadcast use group_to_multiset_ensures;

        assert(views_of(out@).to_multiset().add(views_of(work@).to_multiset()) =~= views_of(
            input0,
        ).to_multiset());
        assert(views_of(out@) + spec_sort_newest_first(views_of(work@))
            =~= spec_sort_newest_first(views_of(input0)));
    }
    while work.len() > 0
        invariant
            out@.len() + work@.len() == input0.len(),
            views_of(out@).to_multiset().add(views_of(work@).to_multiset()) == views_of(
                input0,
            ).to_multiset(),
            views_of(out@) + spec_sort_newest_first(views_of(work@)) == spec_sort_newest_first(
                views_of(input0),
            ),
            sorted_newest_first(views_of(out@)),
            forall|a: int, b: int|
                0 <= a < out@.len() && 0 <= b < work@.len() ==> (#[trigger] out@[a])@.created_at
                    >= (#[trigger] work@[b])@.created_at,
            forall|j: int| 0 <= j < out@.len() ==> input0.contains(#[trigger] out@[j]),
            forall|j: int| 0 <= j < work@.len() ==> input0.contains(#[trigger] work@[j]),
        decreases work@.len(),
    {
        let ghost wv = views_of(work@);
        let mut best: usize = 0;
        let mut m: usize = 1;
        proof {
            assert(wv.subrange(0, 1).len() == 1);
        }
        while m < work.len()
            invariant
                work@.len() > 0,
                best < m,
                m <= work@.len(),
                wv == views_of(work@),
                best == first_newest_idx(wv.subrange(0, m as int)),
                forall|j: int|
                    0 <= j < m ==> work@[best as int]@.created_at >= (#[trigger] work@[j])@.created_at,
            decreases work@.len() - m,
        {
            proof {
                assert(wv.subrange(0, m as int + 1).drop_last() =~= wv.subrange(0, m as int));
                assert(wv.subrange(0, m as int + 1)[m as int] == wv[m as int]);
                assert(work@[m as int]@ == wv[m as int]);
                assert(work@[best as int]@ == wv[best as int]);
            }
            if work[m].created_at > work[best].created_at {
                best = m;
            }
            m = m + 1;
        }
        proof {
            assert(wv.subrange(0, work@.len() as int) =~= wv);
        }
        let ghost work0 = work@;
        let ghost out0 = out@;
        let t = work.remove(best);
        out.push(t);
        proof {
            broadcast use group_to_multiset_ensures;

            assert(views_of(work@) =~= views_of(work0).remove(best as int));
            assert(views_of(out@) =~= views_of(out0).push(t@));
            assert(views_of(work0).to_multiset().count(t@) > 0) by {
                assert(views_of(work0)[best as int] == t@);
            }
            assert(views_of(out@).to_multiset().add(views_of(work@).to_multiset()) =~= views_of(
                input0,
            ).to_multiset());
            lemma_first_newest_idx(views_of(work0));
            assert(spec_sort_newest_first(views_of(work0)) == seq![views_of(work0)[best as int]]
                + spec_sort_newest_first(views_of(work0).remove(best as int)));
            assert(views_of(out@) + spec_sort_newest_first(views_of(work@))
                =~= views_of(out0) + spec_sort_newest_first(views_of(work0)));
        }
    }
    proof {
        broadcast use group_to_multiset_ensures;

        assert forall|x: TransactionView| views_of(work@).to_multiset().count(x) == 0 by {
            assert(!views_of(work@).contains(x));
        }
        assert(views_of(work@).to_multiset() =~= Multiset::empty());
        assert(views_of(out@).to_multiset() =~= views_of(input0).to_multiset());
        assert(views_of(work@) =~= Seq::<TransactionView>::empty());
        assert(views_of(out@) =~= spec_sort_newest_first(views_of(input0)));
    }
    out
}

} // verus!

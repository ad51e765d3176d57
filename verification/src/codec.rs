//! Fixed-layout binary codec for account and transaction records.
//!
//! Records have a fixed size so that a store can locate them by offset
//! arithmetic and write them into caller-provided byte regions:
//!
//! * account record, 12 bytes: `id` (i32 LE) | `balance` (i32 LE) |
//!   `credit_limit` (u32 LE);
//! * transaction record, 64 bytes: `amount` (i32 LE) | kind tag (u8) |
//!   3 zero bytes | description, zero-padded to 32 bytes | `created_at`
//!   (i128 LE) | 8 zero bytes.
//!
//! A kind tag of 0 marks an unwritten slot: scanning callers treat it as "end
//! of written history", never as a record. Any other unknown tag, or fields
//! that no accepted transaction can carry, decode to `CorruptRecord`.

use vstd::prelude::*;
use vstd::bytes::*;
use vstd::slice::slice_subrange;
use crate::account::Account;
use crate::errors::LedgerError;
use crate::transaction::TransactionDescription;
use crate::transaction::TransactionKind;
use crate::transaction::TransactionView;
use crate::transaction::Transaction;
use crate::transaction::MAX_DESCRIPTION_LEN;

verus! {

pub const ACCOUNT_RECORD_SIZE: usize = 12;

pub const TRANSACTION_RECORD_SIZE: usize = 64;

pub const DESCRIPTION_SLOT_SIZE: usize = 32;

// ---- signed integers as little-endian bytes (two's complement) ----

pub open spec fn spec_i32_to_le_bytes(x: i32) -> Seq<u8> {
    spec_u32_to_le_bytes(x as u32)
}

pub open spec fn spec_i32_from_le_bytes(s: Seq<u8>) -> i32
    recommends
        s.len() == 4,
{
    spec_u32_from_le_bytes(s) as i32
}

pub open spec fn spec_i128_to_le_bytes(x: i128) -> Seq<u8> {
    spec_u128_to_le_bytes(x as u128)
}

pub open spec fn spec_i128_from_le_bytes(s: Seq<u8>) -> i128
    recommends
        s.len() == 16,
{
    spec_u128_from_le_bytes(s) as i128
}

pub proof fn lemma_i32_le_bytes_roundtrip(x: i32)
    ensures
        spec_i32_to_le_bytes(x).len() == 4,
        spec_i32_from_le_bytes(spec_i32_to_le_bytes(x)) == x,
{
    let u = x as u32;
    lemma_auto_spec_u32_to_from_le_bytes();
    assert(spec_u32_to_le_bytes(u).len() == 4);
    assert(spec_u32_from_le_bytes(spec_u32_to_le_bytes(u)) == u);
    assert(((x as u32) as i32) == x) by (bit_vector);
}

pub proof fn lemma_i128_le_bytes_roundtrip(x: i128)
    ensures
        spec_i128_to_le_bytes(x).len() == 16,
        spec_i128_from_le_bytes(spec_i128_to_le_bytes(x)) == x,
{
    let u = x as u128;
    lemma_auto_spec_u128_to_from_le_bytes();
    assert(spec_u128_to_le_bytes(u).len() == 16);
    assert(spec_u128_from_le_bytes(spec_u128_to_le_bytes(u)) == u);
    assert(((x as u128) as i128) == x) by (bit_vector);
}

fn i32_to_le(x: i32) -> (v: Vec<u8>)
    ensures
        v@ == spec_i32_to_le_bytes(x),
        v@.len() == 4,
{
    u32_to_le_bytes(x as u32)
}

fn i32_from_le(s: &[u8]) -> (x: i32)
    requires
        s@.len() == 4,
    ensures
        x == spec_i32_from_le_bytes(s@),
{
    u32_from_le_bytes(s) as i32
}

fn i128_to_le(x: i128) -> (v: Vec<u8>)
    ensures
        v@ == spec_i128_to_le_bytes(x),
        v@.len() == 16,
{
    u128_to_le_bytes(x as u128)
}

fn i128_from_le(s: &[u8]) -> (x: i128)
    requires
        s@.len() == 16,
    ensures
        x == spec_i128_from_le_bytes(s@),
{
    u128_from_le_bytes(s) as i128
}

// ---- kind tags ----

/// Persisted tag of a transaction kind; 0 doubles as the unwritten-slot
/// sentinel.
pub open spec fn spec_kind_tag(k: TransactionKind) -> u8 {
    match k {
        TransactionKind::Invalid => 0u8,
        TransactionKind::Credit => 1u8,
        TransactionKind::Debit => 2u8,
    }
}

fn kind_tag(k: TransactionKind) -> (tag: u8)
    ensures
        tag == spec_kind_tag(k),
{
    match k {
        TransactionKind::Invalid => 0u8,
        TransactionKind::Credit => 1u8,
        TransactionKind::Debit => 2u8,
    }
}

// ---- description slot: zero-padded fixed width ----

/// The description bytes followed by zeros up to the slot width.
pub open spec fn spec_pad_description(d: Seq<u8>) -> Seq<u8>
    recommends
        d.len() <= DESCRIPTION_SLOT_SIZE,
{
    d + Seq::new((DESCRIPTION_SLOT_SIZE - d.len()) as nat, |i: int| 0u8)
}

/// The longest zero-free prefix of a slot: the stored description bytes.
pub open spec fn spec_unpad_description(s: Seq<u8>) -> Seq<u8>
    decreases s.len(),
{
    if s.len() == 0 {
        Seq::empty()
    } else if s[0] == 0u8 {
        Seq::empty()
    } else {
        seq![s[0]] + spec_unpad_description(s.drop_first())
    }
}

/// If the first `k` bytes are non-zero and the byte after them (if any) is
/// zero, the zero-free prefix is exactly those `k` bytes.
pub proof fn lemma_unpad_characterization(s: Seq<u8>, k: int)
    requires
        0 <= k <= s.len(),
        forall|j: int| 0 <= j < k ==> s[j] != 0u8,
        k == s.len() || s[k] == 0u8,
    ensures
        spec_unpad_description(s) == s.subrange(0, k),
    decreases s.len(),
{
    if k == 0 {
        assert(spec_unpad_description(s) =~= s.subrange(0, 0));
    } else {
        let rest = s.drop_first();
        assert(forall|j: int| 0 <= j < k - 1 ==> rest[j] != 0u8);
        lemma_unpad_characterization(rest, k - 1);
        assert(spec_unpad_description(s) == seq![s[0]] + rest.subrange(0, k - 1));
        assert(seq![s[0]] + rest.subrange(0, k - 1) =~= s.subrange(0, k));
    }
}

/// Padding then unpadding a zero-free description returns it unchanged.
pub proof fn lemma_description_pad_roundtrip(d: Seq<u8>)
    requires
        d.len() <= DESCRIPTION_SLOT_SIZE,
        forall|j: int| 0 <= j < d.len() ==> d[j] != 0u8,
    ensures
        spec_unpad_description(spec_pad_description(d)) == d,
{
    let padded = spec_pad_description(d);
    lemma_unpad_characterization(padded, d.len() as int);
    assert(padded.subrange(0, d.len() as int) =~= d);
}

fn read_description_slot(s: &[u8]) -> (d: Vec<u8>)
    requires
        s@.len() == DESCRIPTION_SLOT_SIZE,
    ensures
        d@ == spec_unpad_description(s@),
        forall|j: int| 0 <= j < d@.len() ==> d@[j] != 0u8,
{
    let mut d: Vec<u8> = Vec::new();
    let mut i: usize = 0;
    loop
        invariant
            0 <= i <= s@.len(),
            s@.len() == DESCRIPTION_SLOT_SIZE,
            d@ == s@.subrange(0, i as int),
            forall|j: int| 0 <= j < i ==> s@[j] != 0u8,
        ensures
            d@ == s@.subrange(0, i as int),
            forall|j: int| 0 <= j < i ==> s@[j] != 0u8,
            i == s@.len() || s@[i as int] == 0u8,
        decreases s@.len() - i,
    {
        if i == DESCRIPTION_SLOT_SIZE {
            break ;
        }
        if s[i] == 0 {
            break ;
        }
        d.push(s[i]);
        assert(d@ =~= s@.subrange(0, i + 1 as int));
        i = i + 1;
    }
    proof {
        lemma_unpad_characterization(s@, i as int);
    }
    d
}

// ---- account records ----

pub open spec fn spec_encode_account(acc: Account) -> Seq<u8> {
    spec_i32_to_le_bytes(acc.id) + spec_i32_to_le_bytes(acc.balance) + spec_u32_to_le_bytes(
        acc.credit_limit,
    )
}

pub open spec fn spec_decode_account(s: Seq<u8>) -> Account
    recommends
        s.len() == ACCOUNT_RECORD_SIZE,
{
    Account {
        id: spec_i32_from_le_bytes(s.subrange(0, 4)),
        balance: spec_i32_from_le_bytes(s.subrange(4, 8)),
        credit_limit: spec_u32_from_le_bytes(s.subrange(8, 12)),
    }
}

/// Encodes an account into its fixed 12-byte record.
pub fn encode_account(acc: &Account) -> (v: Vec<u8>)
    ensures
        v@ == spec_encode_account(*acc),
        v@.len() == ACCOUNT_RECORD_SIZE,
{
    proof {
        lemma_auto_spec_u32_to_from_le_bytes();
    }
    let mut v = i32_to_le(acc.id);
    let mut balance = i32_to_le(acc.balance);
    let mut limit = u32_to_le_bytes(acc.credit_limit);
    v.append(&mut balance);
    v.append(&mut limit);
    v
}

/// Decodes a fixed 12-byte record into an account. Account records carry no
/// tag, so decoding is total.
pub fn decode_account(s: &[u8]) -> (acc: Account)
    requires
        s@.len() == ACCOUNT_RECORD_SIZE,
    ensures
        acc == spec_decode_account(s@),
{
    let id = i32_from_le(slice_subrange(s, 0, 4));
    let balance = i32_from_le(slice_subrange(s, 4, 8));
    let credit_limit = u32_from_le_bytes(slice_subrange(s, 8, 12));
    Account { id, balance, credit_limit }
}

/// Round trip: decoding an encoded account yields the account back, for every
/// account value.
pub proof fn lemma_account_round_trip(acc: Account)
    ensures
        spec_encode_account(acc).len() == ACCOUNT_RECORD_SIZE,
        spec_decode_account(spec_encode_account(acc)) == acc,
{
    lemma_auto_spec_u32_to_from_le_bytes();
    lemma_i32_le_bytes_roundtrip(acc.id);
    lemma_i32_le_bytes_roundtrip(acc.balance);
    let s = spec_encode_account(acc);
    assert(s.subrange(0, 4) =~= spec_i32_to_le_bytes(acc.id));
    assert(s.subrange(4, 8) =~= spec_i32_to_le_bytes(acc.balance));
    assert(s.subrange(8, 12) =~= spec_u32_to_le_bytes(acc.credit_limit));
}

// ---- transaction records ----

/// What a 64-byte history slot holds: nothing yet, or a written transaction.
pub enum SlotContent {
    Empty,
    Written(TransactionView),
}

pub open spec fn spec_encode_transaction(t: TransactionView) -> Seq<u8> {
    spec_i32_to_le_bytes(t.amount) + seq![spec_kind_tag(t.kind), 0u8, 0u8, 0u8]
        + spec_pad_description(t.description) + spec_i128_to_le_bytes(t.created_at) + seq![
        0u8,
        0u8,
        0u8,
        0u8,
        0u8,
        0u8,
        0u8,
        0u8,
    ]
}

pub open spec fn spec_decode_slot(s: Seq<u8>) -> Result<SlotContent, LedgerError>
    recommends
        s.len() == TRANSACTION_RECORD_SIZE,
{
    let tag = s[4];
    if tag == 0u8 {
        Ok(SlotContent::Empty)
    } else if tag != 1u8 && tag != 2u8 {
        Err(LedgerError::CorruptRecord)
    } else {
        let tv = TransactionView {
            amount: spec_i32_from_le_bytes(s.subrange(0, 4)),
            kind: if tag == 2u8 {
                TransactionKind::Debit
            } else {
                TransactionKind::Credit
            },
            description: spec_unpad_description(s.subrange(8, 40)),
            created_at: spec_i128_from_le_bytes(s.subrange(40, 56)),
        };
        if tv.wf() {
            Ok(SlotContent::Written(tv))
        } else {
            Err(LedgerError::CorruptRecord)
        }
    }
}

/// The decoded view of an executable decode result.
pub open spec fn spec_slot_of_decoded(r: Result<Option<Transaction>, LedgerError>) -> Result<
    SlotContent,
    LedgerError,
> {
    match r {
        Ok(None) => Ok(SlotContent::Empty),
        Ok(Some(t)) => Ok(SlotContent::Written(t@)),
        Err(e) => Err(e),
    }
}

/// Encodes a well-formed transaction into its fixed 64-byte record.
pub fn encode_transaction(t: &Transaction) -> (v: Vec<u8>)
    requires
        t.wf(),
    ensures
        v@ == spec_encode_transaction(t@),
        v@.len() == TRANSACTION_RECORD_SIZE,
{
    proof {
        lemma_auto_spec_u32_to_from_le_bytes();
        lemma_auto_spec_u128_to_from_le_bytes();
    }
    let mut v = i32_to_le(t.amount);
    v.push(kind_tag(t.kind));
    v.push(0);
    v.push(0);
    v.push(0);
    v.extend_from_slice(t.description.0.as_slice());
    let ghost before_pad = v@;
    let pad_len = DESCRIPTION_SLOT_SIZE - t.description.0.len();
    let mut j: usize = 0;
    while j < pad_len
        invariant
            v@ == before_pad + Seq::new(j as nat, |i: int| 0u8),
            j <= pad_len,
        decreases pad_len - j,
    {
        v.push(0);
        assert(v@ =~= before_pad + Seq::new((j + 1) as nat, |i: int| 0u8));
        j = j + 1;
    }
    let mut ts = i128_to_le(t.created_at);
    v.append(&mut ts);
    v.push(0);
    v.push(0);
    v.push(0);
    v.push(0);
    v.push(0);
    v.push(0);
    v.push(0);
    v.push(0);
    assert(v@ =~= spec_encode_transaction(t@));
    v
}

/// Decodes a fixed 64-byte history slot: `Ok(None)` for an unwritten slot
/// (kind tag 0), `Ok(Some(t))` for a stored transaction, and `CorruptRecord`
/// for an unknown tag or fields no accepted transaction can carry.
pub fn decode_transaction_slot(s: &[u8]) -> (r: Result<Option<Transaction>, LedgerError>)
    requires
        s@.len() == TRANSACTION_RECORD_SIZE,
    ensures
        spec_slot_of_decoded(r) == spec_decode_slot(s@),
        r matches Ok(Some(t)) ==> t.wf(),
{
    let tag = s[4];
    if tag == 0 {
        return Ok(None);
    }
    if tag != 1 && tag != 2 {
        return Err(LedgerError::CorruptRecord);
    }
    let amount = i32_from_le(slice_subrange(s, 0, 4));
    let description = read_description_slot(slice_subrange(s, 8, 40));
    let created_at = i128_from_le(slice_subrange(s, 40, 56));
    let kind = if tag == 2 {
        TransactionKind::Debit
    } else {
        TransactionKind::Credit
    };
    if amount == 0 || (amount < 0) != (tag == 2) || description.len() < 1 || description.len()
        > MAX_DESCRIPTION_LEN {
        return Err(LedgerError::CorruptRecord);
    }
    let t = Transaction { amount, kind, description: TransactionDescription(description), created_at };
    assert(t.wf());
    Ok(Some(t))
}

/// Round trip: decoding an encoded transaction record yields the transaction
/// back, for every well-formed transaction.
pub proof fn lemma_transaction_round_trip(t: TransactionView)
    requires
        t.wf(),
    ensures
        spec_encode_transaction(t).len() == TRANSACTION_RECORD_SIZE,
        spec_decode_slot(spec_encode_transaction(t)) == Ok::<SlotContent, LedgerError>(
            SlotContent::Written(t),
        ),
{
    lemma_auto_spec_u32_to_from_le_bytes();
    lemma_auto_spec_u128_to_from_le_bytes();
    lemma_i32_le_bytes_roundtrip(t.amount);
    lemma_i128_le_bytes_roundtrip(t.created_at);
    lemma_description_pad_roundtrip(t.description);
    let s = spec_encode_transaction(t);
    assert(s.len() == TRANSACTION_RECORD_SIZE);
    assert(s[4] == spec_kind_tag(t.kind));
    assert(s.subrange(0, 4) =~= spec_i32_to_le_bytes(t.amount));
    assert(s.subrange(8, 40) =~= spec_pad_description(t.description));
    assert(s.subrange(40, 56) =~= spec_i128_to_le_bytes(t.created_at));
}

} // verus!

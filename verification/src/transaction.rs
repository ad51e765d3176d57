//! Transactions: an immutable accepted debit or credit record.

use vstd::prelude::*;
use vstd::string::StrSliceExecFns;
use vstd::string::StringSliceAdditionalSpecFns;
use crate::errors::TransactionError;

verus! {

/// Longest description accepted, in bytes.
pub const MAX_DESCRIPTION_LEN: usize = 10;

/// Presentation tag of a transaction. The sign of the amount is the source of
/// truth; the tag is kept for presentation and for the persisted record.
/// `Invalid` never appears in an accepted transaction: it is the sentinel tag
/// of an unwritten slot in fixed-size storage.
#[derive(Debug, Copy, Clone, PartialEq, Eq, Structural)]
pub enum TransactionKind {
    Invalid,
    Credit,
    Debit,
}

/// Description text of a transaction, held as its bytes.
///
/// Valid descriptions are 1 to 10 bytes with no zero byte, so that they
/// survive the zero-padded fixed-width slot of the binary codec unchanged.
#[derive(Debug, Clone, PartialEq, Eq)]
pub struct TransactionDescription(pub Vec<u8>);

/// Mathematical content of a description: its byte sequence.
impl View for TransactionDescription {
    type V = Seq<u8>;

    open spec fn view(&self) -> Seq<u8> {
        self.0@
    }
}

/// Whether `bytes` is a well-formed description: 1 to 10 bytes, none zero.
pub open spec fn description_bytes_valid(bytes: Seq<u8>) -> bool {
    &&& 1 <= bytes.len() <= MAX_DESCRIPTION_LEN
    &&& forall|i: int| 0 <= i < bytes.len() ==> bytes[i] != 0u8
}

impl TransactionDescription {
    pub open spec fn wf(self) -> bool {
        description_bytes_valid(self@)
    }

    /// Validates and stores the bytes of `description`: accepted if and only
    /// if they are 1 to 10 bytes long with no zero byte.
    pub fn new(description: &str) -> (r: Result<TransactionDescription, TransactionError>)
        ensures
            description_bytes_valid(description.spec_bytes()) ==> (r matches Ok(d)
                && d@ == description.spec_bytes()),
            !description_bytes_valid(description.spec_bytes()) ==> r == Err::<
                TransactionDescription,
                TransactionError,
            >(TransactionError::InvalidDescription),
            r matches Ok(d) ==> d.wf(),
    {
        let bytes = description.as_bytes_vec();
        if bytes.len() < 1 || bytes.len() > MAX_DESCRIPTION_LEN {
            return Err(TransactionError::InvalidDescription);
        }
        let mut i: usize = 0;
        while i < bytes.len()
            invariant
                0 <= i <= bytes@.len(),
                bytes@ == description.spec_bytes(),
                1 <= bytes@.len() <= MAX_DESCRIPTION_LEN,
                forall|j: int| 0 <= j < i ==> bytes@[j] != 0u8,
            decreases bytes@.len() - i,
        {
            if bytes[i] == 0 {
                return Err(TransactionError::InvalidDescription);
            }
            i = i + 1;
        }
        Ok(TransactionDescription(bytes))
    }
}

/// Mathematical content of a transaction.
pub struct TransactionView {
    pub amount: i32,
    pub kind: TransactionKind,
    pub description: Seq<u8>,
    pub created_at: i128,
}

impl TransactionView {
    /// An accepted transaction carries a non-zero amount, a tag that agrees
    /// with the amount's sign, and a valid description.
    pub open spec fn wf(self) -> bool {
        &&& self.amount != 0
        &&& self.kind == (if self.amount < 0 {
            TransactionKind::Debit
        } else {
            TransactionKind::Credit
        })
        &&& description_bytes_valid(self.description)
    }
}

/// The views of a sequence of transactions, elementwise.
pub open spec fn views_of(s: Seq<Transaction>) -> Seq<TransactionView> {
    s.map_values(|t: Transaction| t@)
}

/// An immutable debit or credit record. The amount is signed (negative =
/// debit); `created_at` is a unix timestamp in nanoseconds, assigned by the
/// ledger at acceptance time, never by the caller.
#[derive(Debug, Clone, PartialEq)]
pub struct Transaction {
    pub amount: i32,
    pub kind: TransactionKind,
    pub description: TransactionDescription,
    pub created_at: i128,
}

impl View for Transaction {
    type V = TransactionView;

    open spec fn view(&self) -> TransactionView {
        TransactionView {
            amount: self.amount,
            kind: self.kind,
            description: self.description@,
            created_at: self.created_at,
        }
    }
}

impl Transaction {
    pub open spec fn wf(self) -> bool {
        self@.wf()
    }

    /// Builds a transaction from its parts, deriving the tag from the sign of
    /// `amount`.
    pub fn generate(amount: i32, description: &str, created_at: i128) -> (t: Transaction)
        requires
            amount != 0,
            description_bytes_valid(description.spec_bytes()),
        ensures
            t.wf(),
            t@ == (TransactionView {
                amount,
                kind: if amount < 0 {
                    TransactionKind::Debit
                } else {
                    TransactionKind::Credit
                },
                description: description.spec_bytes(),
                created_at,
            }),
    {
        let kind = if amount < 0 {
            TransactionKind::Debit
        } else {
            TransactionKind::Credit
        };
        let description = match TransactionDescription::new(description) {
            Ok(d) => d,
            Err(_) => TransactionDescription(Vec::new()),
        };
        Transaction { amount, kind, description, created_at }
    }

    /// A copy of the transaction carrying the same mathematical content.
    pub fn duplicate(&self) -> (t: Transaction)
        ensures
            t@ == self@,
    {
        Transaction {
            amount: self.amount,
            kind: self.kind,
            description: TransactionDescription(
                vstd::slice::slice_to_vec(self.description.0.as_slice()),
            ),
            created_at: self.created_at,
        }
    }

    /// The magnitude of the amount, as presented to the outside world.
    pub fn abs_amount(&self) -> (r: u32)
        ensures
            r == (if self.amount >= 0 {
                self.amount as int
            } else {
                -self.amount as int
            }),
    {
        if self.amount >= 0 {
            self.amount as u32
        } else {
            (-(self.amount as i64)) as u32
        }
    }

    /// The one-letter tag presented for this transaction's kind: "d" for a
    /// debit, "c" otherwise.
    pub fn kind_tag(&self) -> (r: char)
        ensures
            r == (if self.kind is Debit {
                'd'
            } else {
                'c'
            }),
    {
        match self.kind {
            TransactionKind::Debit => 'd',
            _ => 'c',
        }
    }
}

} // verus!

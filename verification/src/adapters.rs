//! Boundary data shapes: the proposed transaction handed in by the outside
//! world, and the balance view handed back after a successful apply.

use vstd::prelude::*;
use vstd::string::StrSliceExecFns;
use vstd::string::StringSliceAdditionalSpecFns;
use vstd::utf8::encode_utf8;
use crate::account::Account;
use crate::errors::LedgerError;
use crate::transaction::description_bytes_valid;
use crate::transaction::Transaction;
use crate::transaction::TransactionDescription;
use crate::transaction::TransactionKind;
use crate::transaction::TransactionView;

verus! {

/// The one-letter tag naming a debit.
pub open spec fn spec_is_debit_tag(kind: Seq<char>) -> bool {
    kind.len() == 1 && kind[0] == 'd'
}

/// The one-letter tag naming a credit.
pub open spec fn spec_is_credit_tag(kind: Seq<char>) -> bool {
    kind.len() == 1 && kind[0] == 'c'
}

/// A proposed transaction as it arrives from the outside: a positive amount,
/// a kind tag ("d" for debit, "c" for credit) that decides the sign of the
/// stored amount, a short description, and optionally a display timestamp.
/// The ledger assigns `created_at` itself at acceptance; `created_on` here is
/// presentation data and never read by the ledger.
#[derive(Debug, Clone, PartialEq)]
pub struct TransactionDTO {
    pub amount: i32,
    pub kind: String,
    pub description: String,
    pub created_on: Option<String>,
}

/// Whether a proposal is well-formed: a known kind tag, a positive amount,
/// and a 1-to-10-byte description without zero bytes.
pub open spec fn spec_dto_valid(dto: TransactionDTO) -> bool {
    &&& spec_is_debit_tag(dto.kind@) || spec_is_credit_tag(dto.kind@)
    &&& dto.amount > 0
    &&& description_bytes_valid(encode_utf8(dto.description@))
}

/// The signed amount a valid proposal stands for: debits are negated.
pub open spec fn spec_dto_signed_amount(dto: TransactionDTO) -> int {
    if spec_is_debit_tag(dto.kind@) {
        -dto.amount as int
    } else {
        dto.amount as int
    }
}

impl TransactionDTO {
    /// Validates the proposal and builds the transaction the ledger will
    /// record: accepted if and only if the proposal is well-formed, with the
    /// tag deciding the sign of the stored amount and `created_at` assigned
    /// by the caller (the ledger's acceptance time, never the proposal's).
    pub fn try_into_transaction(&self, created_at: i128) -> (r: Result<Transaction, LedgerError>)
        ensures
            spec_dto_valid(*self) ==> (r matches Ok(t) && t.wf() && t@ == (TransactionView {
                amount: spec_dto_signed_amount(*self) as i32,
                kind: if spec_is_debit_tag(self.kind@) {
                    TransactionKind::Debit
                } else {
                    TransactionKind::Credit
                },
                description: encode_utf8(self.description@),
                created_at,
            })),
            !spec_dto_valid(*self) ==> r == Err::<Transaction, LedgerError>(
                LedgerError::InvalidTransaction,
            ),
    {
        let kind_str = self.kind.as_str();
        let is_debit = kind_str.unicode_len() == 1 && kind_str.get_char(0) == 'd';
        let is_credit = kind_str.unicode_len() == 1 && kind_str.get_char(0) == 'c';
        if !(is_debit || is_credit) {
            return Err(LedgerError::InvalidTransaction);
        }
        if self.amount <= 0 {
            return Err(LedgerError::InvalidTransaction);
        }
        let description = match TransactionDescription::new(self.description.as_str()) {
            Ok(d) => d,
            Err(_) => {
                return Err(LedgerError::InvalidTransaction);
            },
        };
        let amount = if is_debit {
            -self.amount
        } else {
            self.amount
        };
        let kind = if is_debit {
            TransactionKind::Debit
        } else {
            TransactionKind::Credit
        };
        Ok(Transaction { amount, kind, description, created_at })
    }
}

/// The balance view returned by a successful apply: the new balance and the
/// account's credit limit.
#[derive(Debug, Copy, Clone, PartialEq, Eq, Structural)]
pub struct TransactionResponseDTO {
    pub credit_limit: u32,
    pub balance: i32,
}

impl From<Account> for TransactionResponseDTO {
    fn from(value: Account) -> (r: TransactionResponseDTO) {
        TransactionResponseDTO { credit_limit: value.credit_limit, balance: value.balance }
    }
}

impl vstd::std_specs::convert::FromSpecImpl<Account> for TransactionResponseDTO {
    open spec fn obeys_from_spec() -> bool {
        true
    }

    open spec fn from_spec(t: Account) -> TransactionResponseDTO {
        TransactionResponseDTO { credit_limit: t.credit_limit, balance: t.balance }
    }
}

} // verus!

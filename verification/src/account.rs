//! Accounts: the ledger entity holding a balance and a credit limit.

use vstd::prelude::*;
use crate::errors::AccountError;
use crate::transaction::Transaction;

verus! {

/// A ledger account. `id` is stable and assigned at provisioning; `balance`
/// may go negative down to `-credit_limit`; `credit_limit` is immutable after
/// provisioning.
#[derive(Debug, Copy, Clone, PartialEq, Eq, Structural)]
pub struct Account {
    pub id: i32,
    pub balance: i32,
    pub credit_limit: u32,
}

impl Account {
    /// A committed account never owes more than its credit limit, and the
    /// limit itself fits the signed range used for balance arithmetic.
    pub open spec fn wf(self) -> bool {
        &&& self.balance + self.credit_limit >= 0
        &&& self.credit_limit <= i32::MAX
    }

    /// Whether a transaction of `amount` is accepted against this account:
    /// the new balance may not fall below `-credit_limit`.
    pub open spec fn accepts(self, amount: int) -> bool {
        self.balance + amount + self.credit_limit >= 0
    }

    /// The account after an accepted transaction of `amount`.
    pub open spec fn with_amount(self, amount: int) -> Account {
        Account { id: self.id, balance: (self.balance + amount) as i32, credit_limit: self.credit_limit }
    }

    /// A freshly provisioned account, starting at balance zero.
    pub fn new(id: i32, credit_limit: u32) -> (acc: Account)
        ensures
            acc == (Account { id, balance: 0, credit_limit }),
    {
        Account { id, balance: 0, credit_limit }
    }

    /// An account with a chosen balance and no real id, for exercising the
    /// domain rules on their own.
    pub fn generate(balance: i32, limit: u32) -> (acc: Account)
        ensures
            acc == (Account { id: -1i32, balance, credit_limit: limit }),
    {
        Account { id: -1, balance, credit_limit: limit }
    }

    /// Returns the account with the transaction's amount applied, or
    /// `InsufficientCredit` (and no change) when the new balance would fall
    /// below `-credit_limit`.
    pub fn add_transaction(self, transaction: &Transaction) -> (r: Result<Account, AccountError>)
        requires
            self.wf(),
            i32::MIN <= self.balance + transaction.amount <= i32::MAX,
        ensures
            self.accepts(transaction.amount as int) ==> r == Ok::<Account, AccountError>(
                self.with_amount(transaction.amount as int),
            ),
            !self.accepts(transaction.amount as int) ==> r == Err::<Account, AccountError>(
                AccountError::InsufficientCredit,
            ),
            r matches Ok(acc) ==> acc.wf() && acc.id == self.id && acc.credit_limit
                == self.credit_limit,
    {
        let new_balance = self.balance + transaction.amount;
        if (new_balance as i64) + (self.credit_limit as i64) < 0 {
            return Err(AccountError::InsufficientCredit);
        }
        Ok(Account { id: self.id, balance: new_balance, credit_limit: self.credit_limit })
    }
}

// ---- balance accounting over a run of transactions ----

/// Whether a transaction of `amount` is accepted against `balance` under
/// `credit_limit`: the rule of `Account::accepts`, over unbounded integers.
pub open spec fn spec_accepts_amount(balance: int, credit_limit: int, amount: int) -> bool {
    balance + amount + credit_limit >= 0
}

/// The balance after a run of proposed amounts is applied in order: each
/// accepted amount moves the balance, each rejected one leaves it alone.
pub open spec fn spec_run_balance(seed: int, credit_limit: int, amounts: Seq<int>) -> int
    decreases amounts.len(),
{
    if amounts.len() == 0 {
        seed
    } else {
        let prev = spec_run_balance(seed, credit_limit, amounts.drop_last());
        if spec_accepts_amount(prev, credit_limit, amounts.last()) {
            prev + amounts.last()
        } else {
            prev
        }
    }
}

/// The sum of the amounts that the run accepts.
pub open spec fn spec_accepted_sum(seed: int, credit_limit: int, amounts: Seq<int>) -> int
    decreases amounts.len(),
{
    if amounts.len() == 0 {
        0
    } else {
        let prev = spec_run_balance(seed, credit_limit, amounts.drop_last());
        spec_accepted_sum(seed, credit_limit, amounts.drop_last()) + (
        if spec_accepts_amount(prev, credit_limit, amounts.last()) {
            amounts.last()
        } else {
            0
        })
    }
}

/// Balance accounting law: for every run of transactions serialized on one
/// account, the final balance equals the seed balance plus the sum of the
/// accepted amounts alone, and no committed state ever owes more than the
/// credit limit — `balance + credit_limit >= 0` holds after every step
/// (every prefix of a run is itself a run).
pub proof fn lemma_balance_accounting(seed: int, credit_limit: int, amounts: Seq<int>)
    requires
        seed + credit_limit >= 0,
    ensures
        spec_run_balance(seed, credit_limit, amounts) == seed + spec_accepted_sum(
            seed,
            credit_limit,
            amounts,
        ),
        spec_run_balance(seed, credit_limit, amounts) + credit_limit >= 0,
    decreases amounts.len(),
{
    if amounts.len() > 0 {
        lemma_balance_accounting(seed, credit_limit, amounts.drop_last());
    }
}

/// One call of `Account::add_transaction` is one step of the run: it accepts
/// exactly when the rule over unbounded integers does, and an accepted step
/// moves the balance by exactly the amount and preserves well-formedness.
pub proof fn lemma_step_accounting(acc: Account, amount: int)
    requires
        acc.wf(),
        i32::MIN <= acc.balance + amount <= i32::MAX,
    ensures
        acc.accepts(amount) == spec_accepts_amount(
            acc.balance as int,
            acc.credit_limit as int,
            amount,
        ),
        acc.accepts(amount) ==> acc.with_amount(amount).balance == acc.balance + amount
            && acc.with_amount(amount).wf(),
{
}

} // verus!

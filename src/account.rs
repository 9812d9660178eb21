use vstd::prelude::*;

verus! {

/// Identifier of an account within a bank.
pub type AccountId = i32;

/// A quantity of money, in the currency's smallest unit.
pub type Amount = i64;

/// One record of an account's history.
#[derive(Clone, Copy, Debug, PartialEq, Eq, Structural)]
pub enum Entry {
    /// Money paid into the account.
    Deposit { amount: Amount },
    /// Money taken out of the account.
    Withdrawal { amount: Amount },
    /// Money sent to another account by a transfer.
    Sent { to: AccountId, amount: Amount },
    /// Money received from another account by a transfer.
    Received { from: AccountId, amount: Amount },
}

/// What an account holds, as a mathematical value.
pub ghost struct AccountState {
    pub balance: int,
    pub history: Seq<Entry>,
}

/// An account: its identifier, its balance and its history, oldest first.
///
/// Accounts live inside a bank and are changed only through it.
pub(crate) struct Account {
    pub(crate) id: AccountId,
    pub(crate) balance: Amount,
    pub(crate) history: Vec<Entry>,
}

impl Account {
    /// The account's balance and history as mathematical values.
    pub(crate) open spec fn state(&self) -> AccountState {
        AccountState { balance: self.balance as int, history: self.history@ }
    }

    /// A new account with the given balance and an empty history.
    pub(crate) fn new(id: AccountId, balance: Amount) -> (r: Account)
        ensures
            r.id == id,
            r.state() == (AccountState { balance: balance as int, history: Seq::empty() }),
    {
        Account { id, balance, history: Vec::new() }
    }

    /// Sets the balance and appends one record to the history.
    pub(crate) fn record(&mut self, balance: Amount, entry: Entry)
        ensures
            final(self).id == old(self).id,
            final(self).state() == (AccountState {
                balance: balance as int,
                history: old(self).history@.push(entry),
            }),
    {
        self.balance = balance;
        self.history.push(entry);
    }
}

} // verus!

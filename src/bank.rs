use vstd::prelude::*;

use crate::account::{Account, AccountId, AccountState, Amount, Entry};

verus! {

/// Why an operation of the bank was refused. A refused operation changes nothing.
#[derive(Clone, Copy, Debug, PartialEq, Eq, Structural)]
pub enum BankError {
    /// The amount is negative.
    InvalidAmount,
    /// No account has the requested identifier.
    AccountNotFound,
    /// The source of a transfer does not exist.
    SourceNotFound,
    /// The destination of a transfer does not exist.
    DestinationNotFound,
    /// The account holds less than the amount asked for.
    InsufficientFunds,
    /// A transfer names the same account as source and destination.
    SameAccount,
    /// An account with this identifier already exists.
    DuplicateAccount,
}

/// The confirmation of a transfer: both accounts and the amount moved.
#[derive(Clone, Copy, Debug, PartialEq, Eq, Structural)]
pub struct TransferReceipt {
    pub from_id: AccountId,
    pub to_id: AccountId,
    pub amount: Amount,
}

/// Whether no two accounts of `s` share an identifier.
spec fn unique_ids(s: Seq<Account>) -> bool {
    forall|i: int, j: int|
        0 <= i < s.len() && 0 <= j < s.len() && i != j ==> #[trigger] s[i].id != #[trigger] s[j].id
}

/// Whether some account of `s` has identifier `id`.
spec fn holds_id(s: Seq<Account>, id: AccountId) -> bool {
    exists|i: int| 0 <= i < s.len() && #[trigger] s[i].id == id
}

/// The accounts of `s`, keyed by identifier.
spec fn accounts_map(s: Seq<Account>) -> Map<AccountId, AccountState> {
    Map::new(
        |id: AccountId| holds_id(s, id),
        |id: AccountId| s[choose|i: int| 0 <= i < s.len() && #[trigger] s[i].id == id].state(),
    )
}

/// With unique identifiers, the account at position `i` is the one the map holds.
proof fn lemma_map_at(s: Seq<Account>, i: int)
    requires
        unique_ids(s),
        0 <= i < s.len(),
    ensures
        accounts_map(s).contains_key(s[i].id),
        accounts_map(s)[s[i].id] == s[i].state(),
{
    let id = s[i].id;
    assert(holds_id(s, id));
    let k = choose|k: int| 0 <= k < s.len() && #[trigger] s[k].id == id;
    assert(k == i);
}

/// Replacing an account by one with the same identifier replaces its entry in the map.
proof fn lemma_map_update(s: Seq<Account>, i: int, a: Account)
    requires
        unique_ids(s),
        0 <= i < s.len(),
        a.id == s[i].id,
    ensures
        unique_ids(s.update(i, a)),
        accounts_map(s.update(i, a)) == accounts_map(s).insert(a.id, a.state()),
{
    let t = s.update(i, a);
    assert forall|x: int, y: int|
        0 <= x < t.len() && 0 <= y < t.len() && x != y implies #[trigger] t[x].id != #[trigger] t[y].id by {
        assert(t[x].id == s[x].id && t[y].id == s[y].id);
    }
    let m = accounts_map(s).insert(a.id, a.state());
    assert forall|id: AccountId| #[trigger] accounts_map(t).contains_key(id) == m.contains_key(id) by {
        if holds_id(s, id) {
            let k = choose|k: int| 0 <= k < s.len() && #[trigger] s[k].id == id;
            assert(t[k].id == id);
        }
        if holds_id(t, id) {
            let k = choose|k: int| 0 <= k < t.len() && #[trigger] t[k].id == id;
            assert(s[k].id == id);
        }
    }
    assert forall|id: AccountId| #[trigger] accounts_map(t).contains_key(id) implies accounts_map(t)[id]
        == m[id] by {
        let k = choose|k: int| 0 <= k < t.len() && #[trigger] t[k].id == id;
        lemma_map_at(t, k);
        if k != i {
            assert(s[k].id == id);
            lemma_map_at(s, k);
        }
    }
    assert(accounts_map(t) =~= m);
}

/// Appending an account with a new identifier adds one entry to the map.
proof fn lemma_map_push(s: Seq<Account>, a: Account)
    requires
        unique_ids(s),
        !holds_id(s, a.id),
    ensures
        unique_ids(s.push(a)),
        accounts_map(s.push(a)) == accounts_map(s).insert(a.id, a.state()),
{
    let t = s.push(a);
    assert forall|x: int, y: int|
        0 <= x < t.len() && 0 <= y < t.len() && x != y implies #[trigger] t[x].id != #[trigger] t[y].id by {
        if x < s.len() && y < s.len() {
            assert(t[x].id == s[x].id && t[y].id == s[y].id);
        } else if x < s.len() {
            assert(t[x] == s[x]);
        } else {
            assert(t[y] == s[y]);
        }
    }
    let m = accounts_map(s).insert(a.id, a.state());
    assert forall|id: AccountId| #[trigger] accounts_map(t).contains_key(id) == m.contains_key(id) by {
        if holds_id(s, id) {
            let k = choose|k: int| 0 <= k < s.len() && #[trigger] s[k].id == id;
            assert(t[k].id == id);
        }
        if id == a.id {
            assert(t[s.len() as int].id == id);
        }
        if holds_id(t, id) {
            let k = choose|k: int| 0 <= k < t.len() && #[trigger] t[k].id == id;
            if k < s.len() {
                assert(s[k].id == id);
            }
        }
    }
    assert forall|id: AccountId| #[trigger] accounts_map(t).contains_key(id) implies accounts_map(t)[id]
        == m[id] by {
        let k = choose|k: int| 0 <= k < t.len() && #[trigger] t[k].id == id;
        lemma_map_at(t, k);
        if k < s.len() {
            assert(s[k] == t[k]);
            lemma_map_at(s, k);
        }
    }
    assert(accounts_map(t) =~= m);
}

/// A bank: a name and its accounts, kept in the order in which they were created.
pub struct Bank {
    name: String,
    accounts: Vec<Account>,
}

impl View for Bank {
    type V = Map<AccountId, AccountState>;

    /// Each account's balance and history, keyed by its identifier.
    closed spec fn view(&self) -> Map<AccountId, AccountState> {
        accounts_map(self.accounts@)
    }
}

impl Bank {
    /// No two accounts share an identifier, and no balance is negative.
    #[verifier::type_invariant]
    spec fn inv(&self) -> bool {
        &&& unique_ids(self.accounts@)
        &&& forall|i: int|
            0 <= i < self.accounts@.len() ==> #[trigger] self.accounts@[i].balance >= 0
    }

    /// The state of every bank: each identifier is listed once, the listed
    /// identifiers are exactly the accounts' keys, and no balance is negative.
    pub open spec fn is_consistent(&self) -> bool {
        &&& self.account_ids().no_duplicates()
        &&& forall|id: AccountId| #[trigger] self@.contains_key(id) <==> self.account_ids().contains(id)
        &&& forall|id: AccountId| #[trigger] self@.contains_key(id) ==> self@[id].balance >= 0
    }

    /// The bank's display name.
    pub closed spec fn bank_name(&self) -> Seq<char> {
        self.name@
    }

    /// The identifiers of the accounts, in the order in which they were created.
    pub closed spec fn account_ids(&self) -> Seq<AccountId> {
        self.accounts@.map_values(|a: Account| a.id)
    }

    /// A bank with the given name and no accounts.
    pub fn new(bank_name: String) -> (r: Bank)
        ensures
            r.bank_name() == bank_name@,
            r@ == Map::<AccountId, AccountState>::empty(),
            r.account_ids() == Seq::<AccountId>::empty(),
            r.is_consistent(),
    {
        let r = Bank { name: bank_name, accounts: Vec::new() };
        assert(r@ =~= Map::<AccountId, AccountState>::empty());
        assert(r.account_ids() =~= Seq::<AccountId>::empty());
        proof {
            lemma_consistent(&r);
        }
        r
    }

    /// The position of the account with identifier `id`, found by a scan.
    fn find_index(&self, id: AccountId) -> (r: Option<usize>)
        ensures
            match r {
                Some(i) => i < self.accounts@.len() && self.accounts@[i as int].id == id,
                None => !self@.contains_key(id),
            },
    {
        let mut i: usize = 0;
        while i < self.accounts.len()
            invariant
                i <= self.accounts@.len(),
                forall|j: int| 0 <= j < i ==> #[trigger] self.accounts@[j].id != id,
            decreases self.accounts@.len() - i,
        {
            if self.accounts[i].id == id {
                return Some(i);
            }
            i = i + 1;
        }
        None
    }

    /// Opens an account with identifier `id` and balance `initial_balance`,
    /// with an empty history.
    ///
    /// A negative initial balance is refused with `InvalidAmount`, and an
    /// identifier already in use with `DuplicateAccount`; on an error nothing
    /// changes.
    pub fn create_account(&mut self, id: AccountId, initial_balance: Amount) -> (r: Result<
        (),
        BankError,
    >)
        ensures
            initial_balance < 0 ==> r == Err::<(), BankError>(BankError::InvalidAmount),
            initial_balance >= 0 && old(self)@.contains_key(id) ==> r == Err::<(), BankError>(
                BankError::DuplicateAccount,
            ),
            initial_balance >= 0 && !old(self)@.contains_key(id) ==> {
                &&& r == Ok::<(), BankError>(())
                &&& final(self)@ == old(self)@.insert(
                    id,
                    AccountState { balance: initial_balance as int, history: Seq::empty() },
                )
                &&& final(self).account_ids() == old(self).account_ids().push(id)
            },
            r is Err ==> *final(self) == *old(self),
            final(self).is_consistent(),
            final(self).bank_name() == old(self).bank_name(),
    {
        proof {
            use_type_invariant(&*self);
            lemma_consistent(self);
        }
        if initial_balance < 0 {
            return Err(BankError::InvalidAmount);
        }
        if self.find_index(id).is_some() {
            proof {
                let i = choose|i: int| 0 <= i < self.accounts@.len() && self.accounts@[i].id == id;
                lemma_map_at(self.accounts@, i);
            }
            return Err(BankError::DuplicateAccount);
        }
        let ghost before = self.accounts@;
        let account = Account::new(id, initial_balance);
        let mut accounts: Vec<Account> = Vec::new();
        std::mem::swap(&mut accounts, &mut self.accounts);
        accounts.push(account);
        proof {
            lemma_map_push(before, account);
            assert forall|j: int| 0 <= j < accounts@.len() implies #[trigger] accounts@[j].balance
                >= 0 by {
                if j < before.len() {
                    assert(accounts@[j] == before[j]);
                }
            }
        }
        self.accounts = accounts;
        proof {
            assert(self.account_ids() =~= old(self).account_ids().push(id));
            use_type_invariant(&*self);
            lemma_consistent(self);
        }
        Ok(())
    }

    /// Adds `amount` to the balance of account `id` and records a `Deposit`
    /// entry; returns the new balance.
    ///
    /// A negative amount is refused with `InvalidAmount` before the account is
    /// looked up; a zero amount is accepted. On an error nothing changes.
    pub fn deposit(&mut self, id: AccountId, amount: Amount) -> (r: Result<Amount, BankError>)
        requires
            amount >= 0 && old(self)@.contains_key(id) ==> old(self)@[id].balance + amount
                <= Amount::MAX,
        ensures
            amount < 0 ==> r == Err::<Amount, BankError>(BankError::InvalidAmount),
            amount >= 0 && !old(self)@.contains_key(id) ==> r == Err::<Amount, BankError>(
                BankError::AccountNotFound,
            ),
            amount >= 0 && old(self)@.contains_key(id) ==> {
                &&& r == Ok::<Amount, BankError>((old(self)@[id].balance + amount) as Amount)
                &&& final(self)@ == old(self)@.insert(
                    id,
                    AccountState {
                        balance: old(self)@[id].balance + amount,
                        history: old(self)@[id].history.push(Entry::Deposit { amount }),
                    },
                )
            },
            r is Err ==> *final(self) == *old(self),
            final(self).is_consistent(),
            final(self).bank_name() == old(self).bank_name(),
            final(self).account_ids() == old(self).account_ids(),
    {
        proof {
            use_type_invariant(&*self);
            lemma_consistent(self);
        }
        if amount < 0 {
            return Err(BankError::InvalidAmount);
        }
        let i = match self.find_index(id) {
            Some(i) => i,
            None => return Err(BankError::AccountNotFound),
        };
        proof {
            lemma_map_at(self.accounts@, i as int);
        }
        let balance = self.accounts[i].balance + amount;
        self.record_at(i, balance, Entry::Deposit { amount });
        Ok(balance)
    }

    /// Takes `amount` from the balance of account `id` and records a
    /// `Withdrawal` entry; returns the new balance.
    ///
    /// The checks come in this order: the amount is not negative
    /// (`InvalidAmount`), the account exists (`AccountNotFound`), it holds at
    /// least `amount` (`InsufficientFunds`). On an error nothing changes.
    pub fn withdraw(&mut self, id: AccountId, amount: Amount) -> (r: Result<Amount, BankError>)
        ensures
            amount < 0 ==> r == Err::<Amount, BankError>(BankError::InvalidAmount),
            amount >= 0 && !old(self)@.contains_key(id) ==> r == Err::<Amount, BankError>(
                BankError::AccountNotFound,
            ),
            amount >= 0 && old(self)@.contains_key(id) && old(self)@[id].balance < amount ==> r
                == Err::<Amount, BankError>(BankError::InsufficientFunds),
            amount >= 0 && old(self)@.contains_key(id) && old(self)@[id].balance >= amount ==> {
                &&& r == Ok::<Amount, BankError>((old(self)@[id].balance - amount) as Amount)
                &&& final(self)@ == old(self)@.insert(
                    id,
                    AccountState {
                        balance: old(self)@[id].balance - amount,
                        history: old(self)@[id].history.push(Entry::Withdrawal { amount }),
                    },
                )
            },
            r is Err ==> *final(self) == *old(self),
            final(self).is_consistent(),
            final(self).bank_name() == old(self).bank_name(),
            final(self).account_ids() == old(self).account_ids(),
    {
        proof {
            use_type_invariant(&*self);
            lemma_consistent(self);
        }
        if amount < 0 {
            return Err(BankError::InvalidAmount);
        }
        let i = match self.find_index(id) {
            Some(i) => i,
            None => return Err(BankError::AccountNotFound),
        };
        proof {
            lemma_map_at(self.accounts@, i as int);
        }
        if self.accounts[i].balance < amount {
            return Err(BankError::InsufficientFunds);
        }
        let balance = self.accounts[i].balance - amount;
        self.record_at(i, balance, Entry::Withdrawal { amount });
        Ok(balance)
    }

    /// The balance of account `id`, or `AccountNotFound`. Reading changes nothing.
    pub fn get_balance(&self, id: AccountId) -> (r: Result<Amount, BankError>)
        ensures
            self@.contains_key(id) ==> r == Ok::<Amount, BankError>(self@[id].balance as Amount),
            r matches Ok(b) ==> b >= 0,
            !self@.contains_key(id) ==> r == Err::<Amount, BankError>(BankError::AccountNotFound),
    {
        match self.find_index(id) {
            Some(i) => {
                proof {
                    use_type_invariant(self);
                    lemma_map_at(self.accounts@, i as int);
                }
                Ok(self.accounts[i].balance)
            },
            None => Err(BankError::AccountNotFound),
        }
    }

    /// The history of account `id`, oldest entry first, as a read-only view;
    /// or `AccountNotFound`. Reading changes nothing.
    pub fn get_transaction_history(&self, id: AccountId) -> (r: Result<&Vec<Entry>, BankError>)
        ensures
            self@.contains_key(id) ==> (r matches Ok(h) && h@ == self@[id].history),
            !self@.contains_key(id) ==> (r matches Err(e) && e == BankError::AccountNotFound),
    {
        match self.find_index(id) {
            Some(i) => {
                proof {
                    use_type_invariant(self);
                    lemma_map_at(self.accounts@, i as int);
                }
                Ok(&self.accounts[i].history)
            },
            None => Err(BankError::AccountNotFound),
        }
    }

    /// Moves `amount` from account `from_id` to account `to_id`, recording a
    /// `Sent` entry on the source and a `Received` entry on the destination.
    ///
    /// The checks come in this order, and the first that fails decides the
    /// error: the amount is not negative, the two accounts differ, the source
    /// exists, the source holds at least `amount`, the destination exists.
    /// Funds are checked before the destination is looked up. On any error
    /// nothing changes.
    pub fn transfer(&mut self, from_id: AccountId, to_id: AccountId, amount: Amount) -> (r: Result<
        TransferReceipt,
        BankError,
    >)
        requires
            amount >= 0 && from_id != to_id && old(self)@.contains_key(from_id) && old(self)@[from_id].balance
                >= amount && old(self)@.contains_key(to_id) ==> old(self)@[to_id].balance + amount
                <= Amount::MAX,
        ensures
            amount < 0 ==> r == Err::<TransferReceipt, BankError>(BankError::InvalidAmount),
            amount >= 0 && from_id == to_id ==> r == Err::<TransferReceipt, BankError>(
                BankError::SameAccount,
            ),
            amount >= 0 && from_id != to_id && !old(self)@.contains_key(from_id) ==> r == Err::<
                TransferReceipt,
                BankError,
            >(BankError::SourceNotFound),
            amount >= 0 && from_id != to_id && old(self)@.contains_key(from_id) && old(self)@[from_id].balance
                < amount ==> r == Err::<TransferReceipt, BankError>(BankError::InsufficientFunds),
            amount >= 0 && from_id != to_id && old(self)@.contains_key(from_id) && old(self)@[from_id].balance
                >= amount && !old(self)@.contains_key(to_id) ==> r == Err::<TransferReceipt, BankError>(
                BankError::DestinationNotFound,
            ),
            amount >= 0 && from_id != to_id && old(self)@.contains_key(from_id) && old(self)@[from_id].balance
                >= amount && old(self)@.contains_key(to_id) ==> {
                &&& r == Ok::<TransferReceipt, BankError>(
                    (TransferReceipt { from_id, to_id, amount }),
                )
                &&& final(self)@ == old(self)@.insert(
                    from_id,
                    AccountState {
                        balance: old(self)@[from_id].balance - amount,
                        history: old(self)@[from_id].history.push(Entry::Sent { to: to_id, amount }),
                    },
                ).insert(
                    to_id,
                    AccountState {
                        balance: old(self)@[to_id].balance + amount,
                        history: old(self)@[to_id].history.push(
                            Entry::Received { from: from_id, amount },
                        ),
                    },
                )
            },
            r is Ok ==> final(self)@[from_id].balance + final(self)@[to_id].balance
                == old(self)@[from_id].balance + old(self)@[to_id].balance,
            r is Ok ==> forall|x: AccountId|
                x != from_id && x != to_id ==> (#[trigger] final(self)@.contains_key(x)
                    == old(self)@.contains_key(x)) && (old(self)@.contains_key(x) ==> final(self)@[x]
                    == old(self)@[x]),
            r is Err ==> *final(self) == *old(self),
            final(self).is_consistent(),
            final(self).bank_name() == old(self).bank_name(),
            final(self).account_ids() == old(self).account_ids(),
    {
        proof {
            use_type_invariant(&*self);
            lemma_consistent(self);
        }
        if amount < 0 {
            return Err(BankError::InvalidAmount);
        }
        if from_id == to_id {
            return Err(BankError::SameAccount);
        }
        let source = match self.find_index(from_id) {
            Some(i) => i,
            None => return Err(BankError::SourceNotFound),
        };
        proof {
            lemma_map_at(self.accounts@, source as int);
        }
        if self.accounts[source].balance < amount {
            return Err(BankError::InsufficientFunds);
        }
        let destination = match self.find_index(to_id) {
            Some(i) => i,
            None => return Err(BankError::DestinationNotFound),
        };
        proof {
            lemma_map_at(self.accounts@, destination as int);
        }
        let source_balance = self.accounts[source].balance - amount;
        let destination_balance = self.accounts[destination].balance + amount;
        self.record_at(source, source_balance, Entry::Sent { to: to_id, amount });
        self.record_at(destination, destination_balance, Entry::Received { from: from_id, amount });
        Ok(TransferReceipt { from_id, to_id, amount })
    }

    /// The name the bank was created with.
    pub fn name(&self) -> (r: &String)
        ensures
            r@ == self.bank_name(),
    {
        &self.name
    }

    /// The identifiers of the accounts, in the order in which they were created.
    pub fn ids(&self) -> (r: Vec<AccountId>)
        ensures
            r@ == self.account_ids(),
    {
        let mut r: Vec<AccountId> = Vec::new();
        let mut i: usize = 0;
        while i < self.accounts.len()
            invariant
                i <= self.accounts@.len(),
                r@ == self.account_ids().take(i as int),
            decreases self.accounts@.len() - i,
        {
            r.push(self.accounts[i].id);
            i = i + 1;
            assert(r@ =~= self.account_ids().take(i as int));
        }
        assert(r@ =~= self.account_ids());
        r
    }

    /// Sets the balance of the account at position `i` and appends `entry` to its history.
    fn record_at(&mut self, i: usize, balance: Amount, entry: Entry)
        requires
            i < old(self).accounts@.len(),
            balance >= 0,
        ensures
            final(self).name == old(self).name,
            final(self).accounts@.len() == old(self).accounts@.len(),
            forall|j: int|
                0 <= j < old(self).accounts@.len() ==> #[trigger] final(self).accounts@[j].id
                    == old(self).accounts@[j].id,
            final(self).account_ids() == old(self).account_ids(),
            final(self).is_consistent(),
            final(self)@ == old(self)@.insert(
                old(self).accounts@[i as int].id,
                AccountState {
                    balance: balance as int,
                    history: old(self)@[old(self).accounts@[i as int].id].history.push(entry),
                },
            ),
    {
        proof {
            use_type_invariant(&*self);
            lemma_map_at(self.accounts@, i as int);
        }
        let ghost before = self.accounts@;
        let mut accounts: Vec<Account> = Vec::new();
        std::mem::swap(&mut accounts, &mut self.accounts);
        let mut account = Account::new(0, 0);
        accounts.set_and_swap(i, &mut account);
        account.record(balance, entry);
        accounts.set(i, account);
        proof {
            assert(accounts@ == before.update(i as int, account));
            lemma_map_update(before, i as int, account);
            assert forall|j: int| 0 <= j < accounts@.len() implies #[trigger] accounts@[j].balance
                >= 0 by {
                if j != i {
                    assert(accounts@[j] == before[j]);
                }
            }
        }
        self.accounts = accounts;
        proof {
            assert(self.account_ids() =~= old(self).account_ids());
            use_type_invariant(&*self);
            lemma_consistent(self);
        }
    }
}

/// The type invariant, seen through the view: the ledger is consistent.
proof fn lemma_consistent(bank: &Bank)
    requires
        bank.inv(),
    ensures
        bank.is_consistent(),
{
    let s = bank.accounts@;
    let ids = bank.account_ids();
    assert forall|id: AccountId| #[trigger] bank@.contains_key(id) implies bank@[id].balance >= 0 by {
        let i = choose|i: int| 0 <= i < s.len() && #[trigger] s[i].id == id;
        lemma_map_at(s, i);
    }
    assert forall|i: int, j: int| 0 <= i < ids.len() && 0 <= j < ids.len() && i != j implies ids[i]
        != ids[j] by {
        assert(ids[i] == s[i].id && ids[j] == s[j].id);
    }
    assert forall|id: AccountId| #[trigger] bank@.contains_key(id) <==> ids.contains(id) by {
        if bank@.contains_key(id) {
            let i = choose|i: int| 0 <= i < s.len() && #[trigger] s[i].id == id;
            assert(ids[i] == id);
        }
        if ids.contains(id) {
            let i = choose|i: int| 0 <= i < ids.len() && ids[i] == id;
            assert(s[i].id == id);
        }
    }
}

} // verus!

use vstd::prelude::*;
use vstd::string::StrSliceExecFns;
use std::collections::HashMap;
use crate::account::{apply_spec, Account, AccountView, LedgerError};
use crate::transaction::{Transaction, TransactionType};

verus! {

broadcast use vstd::std_specs::hash::group_hash_axioms;

/// The transaction that an input record of kind `kind` stands for, or
/// `None` for a kind that is not recognized.
pub open spec fn transaction_of(kind: Seq<char>, t: Transaction) -> Option<TransactionType> {
    if kind == "deposit"@ {
        Some(TransactionType::Deposit(t))
    } else if kind == "withdrawal"@ {
        Some(TransactionType::Withdrawal(t))
    } else if kind == "dispute"@ {
        Some(TransactionType::Dispute(t))
    } else if kind == "resolve"@ {
        Some(TransactionType::Resolve(t))
    } else if kind == "chargeback"@ {
        Some(TransactionType::Chargeback(t))
    } else {
        None
    }
}

fn same_text(a: &str, b: &str) -> (r: bool)
    ensures
        r == (a@ == b@),
{
    let n = a.unicode_len();
    if n != b.unicode_len() {
        return false;
    }
    let mut i: usize = 0;
    while i < n
        invariant
            n == a@.len(),
            n == b@.len(),
            i <= n,
            forall|j: int| 0 <= j < i ==> a@[j] == b@[j],
        decreases n - i,
    {
        if a.get_char(i) != b.get_char(i) {
            return false;
        }
        i = i + 1;
    }
    assert(a@ =~= b@);
    true
}

/// The transaction of kind `kind` (`deposit`, `withdrawal`, `dispute`,
/// `resolve` or `chargeback`) for `client`, under identifier `tx`, with
/// `amount` in ten-thousandths; `None` for any other kind.
pub fn transaction_from_record(kind: &str, client: u16, tx: u32, amount: Option<u64>) -> (r: Option<TransactionType>)
    ensures
        r == transaction_of(kind@, Transaction { client_id: client, transaction_id: tx, amount }),
{
    let t = Transaction::new(client, tx, amount);
    if same_text(kind, "deposit") {
        Some(TransactionType::Deposit(t))
    } else if same_text(kind, "withdrawal") {
        Some(TransactionType::Withdrawal(t))
    } else if same_text(kind, "dispute") {
        Some(TransactionType::Dispute(t))
    } else if same_text(kind, "resolve") {
        Some(TransactionType::Resolve(t))
    } else if same_text(kind, "chargeback") {
        Some(TransactionType::Chargeback(t))
    } else {
        None
    }
}

/// The final balances of one client.
#[derive(Debug, Clone, Copy, PartialEq, Eq, Structural)]
pub struct Summary {
    pub client: u16,
    pub available: i128,
    pub held: i128,
    pub total: i128,
    pub locked: bool,
}

pub open spec fn summary_of(a: AccountView) -> Summary {
    Summary {
        client: a.id,
        available: (a.total - a.held) as i128,
        held: a.held as i128,
        total: a.total as i128,
        locked: a.locked,
    }
}

/// A new account for `client`, as the ledger creates it on first sight.
pub open spec fn fresh_account(client: u16) -> AccountView {
    AccountView { id: client, total: 0, held: 0, locked: false, history: Map::empty() }
}

/// What a ledger is: the accounts by client, and the clients in the order
/// in which they were first seen.
pub struct LedgerView {
    pub accounts: Map<u16, AccountView>,
    pub clients: Seq<u16>,
}

/// The accounts of every client seen so far.
pub struct Ledger {
    accounts: HashMap<u16, Account>,
    clients: Vec<u16>,
}

impl View for Ledger {
    type V = LedgerView;

    closed spec fn view(&self) -> LedgerView {
        LedgerView { accounts: self.accounts@.map_values(|a: Account| a@), clients: self.clients@ }
    }
}

impl Ledger {
    /// Every account well formed and stored under its own client, and each
    /// client listed exactly once.
    pub closed spec fn wf(&self) -> bool {
        &&& forall|k: u16| #[trigger] self.accounts@.contains_key(k) ==> self.accounts@[k].wf()
        &&& forall|k: u16| #[trigger] self.accounts@.contains_key(k) ==> self.accounts@[k]@.id == k
        &&& self.clients@.no_duplicates()
        &&& forall|k: u16| #[trigger] self.clients@.contains(k) <==> self.accounts@.contains_key(k)
    }

    pub fn new() -> (r: Ledger)
        ensures
            r.wf(),
            r@.accounts == Map::<u16, AccountView>::empty(),
            r@.clients == Seq::<u16>::empty(),
    {
        let r = Ledger { accounts: HashMap::new(), clients: Vec::new() };
        assert(r@.accounts =~= Map::<u16, AccountView>::empty());
        r
    }

    /// Applies `tx` to the account of `client`, which is created first if
    /// the client is new, and says why if the transaction is refused.
    pub fn apply(&mut self, client: u16, tx: Option<TransactionType>) -> (r: Result<(), LedgerError>)
        requires
            old(self).wf(),
        ensures
            final(self).wf(),
            ({
                let before = if old(self)@.accounts.contains_key(client) {
                    old(self)@.accounts[client]
                } else {
                    fresh_account(client)
                };
                &&& final(self)@.clients == if old(self)@.accounts.contains_key(client) {
                    old(self)@.clients
                } else {
                    old(self)@.clients.push(client)
                }
                &&& match apply_spec(before, tx) {
                    Ok(v) => r is Ok && final(self)@.accounts == old(self)@.accounts.insert(client, v),
                    Err(e) => r == Err::<(), LedgerError>(e) && final(self)@.accounts
                        == old(self)@.accounts.insert(client, before),
                }
            }),
    {
        let ghost m0 = self.accounts@;
        let ghost c0 = self.clients@;
        let mut acct = match self.accounts.remove(&client) {
            Some(a) => a,
            None => {
                self.clients.push(client);
                Account::new(client)
            },
        };
        assert(acct.wf());
        let r = acct.apply(tx);
        self.accounts.insert(client, acct);
        proof {
            assert(self.accounts@ == m0.insert(client, acct));
            assert(self@.accounts =~= m0.map_values(|a: Account| a@).insert(client, acct@));
            assert forall|k: u16| #[trigger] self.clients@.contains(k) <==> self.accounts@.contains_key(k) by {
                if !m0.contains_key(client) {
                    if k != client && c0.contains(k) {
                        let i = choose|i: int| 0 <= i < c0.len() && c0[i] == k;
                        assert(self.clients@[i] == k);
                    }
                    if self.clients@.contains(k) && k != client {
                        let i = choose|i: int| 0 <= i < self.clients@.len() && self.clients@[i] == k;
                        assert(c0[i] == k);
                    }
                    assert(self.clients@[c0.len() as int] == client);
                }
            }
            if !m0.contains_key(client) {
                assert(!c0.contains(client));
                assert forall|a: int, b: int| 0 <= a < b < self.clients@.len() implies self.clients@[a]
                    != self.clients@[b] by {
                    if b == c0.len() {
                        assert(c0.contains(c0[a]));
                    }
                }
            }
        }
        r
    }

    /// Builds the transaction of the record (`kind`, `client`, `tx`,
    /// `amount`) and applies it to the client's account, creating the
    /// account first if the client is new.
    pub fn process(&mut self, kind: &str, client: u16, tx: u32, amount: Option<u64>) -> (r: Result<(), LedgerError>)
        requires
            old(self).wf(),
        ensures
            final(self).wf(),
            ({
                let t = transaction_of(kind@, Transaction { client_id: client, transaction_id: tx, amount });
                let before = if old(self)@.accounts.contains_key(client) {
                    old(self)@.accounts[client]
                } else {
                    fresh_account(client)
                };
                &&& final(self)@.clients == if old(self)@.accounts.contains_key(client) {
                    old(self)@.clients
                } else {
                    old(self)@.clients.push(client)
                }
                &&& match apply_spec(before, t) {
                    Ok(v) => r is Ok && final(self)@.accounts == old(self)@.accounts.insert(client, v),
                    Err(e) => r == Err::<(), LedgerError>(e) && final(self)@.accounts
                        == old(self)@.accounts.insert(client, before),
                }
            }),
    {
        let t = transaction_from_record(kind, client, tx, amount);
        self.apply(client, t)
    }

    /// The final balances of every client, in the order in which the
    /// clients were first seen.
    pub fn summaries(&self) -> (r: Vec<Summary>)
        requires
            self.wf(),
        ensures
            r@.len() == self@.clients.len(),
            forall|i: int| 0 <= i < r@.len() ==> r@[i] == summary_of(self@.accounts[#[trigger] self@.clients[i]]),
    {
        let mut r: Vec<Summary> = Vec::new();
        let mut i: usize = 0;
        while i < self.clients.len()
            invariant
                self.wf(),
                i <= self.clients@.len(),
                r@.len() == i,
                forall|j: int| 0 <= j < i ==> r@[j] == summary_of(self@.accounts[#[trigger] self@.clients[j]]),
            decreases self.clients@.len() - i,
        {
            let client = self.clients[i];
            assert(self.clients@.contains(client));
            match self.accounts.get(&client) {
                Some(a) => {
                    r.push(a.summary());
                },
                None => {},
            }
            i = i + 1;
        }
        r
    }
}

impl Account {
    /// The client's balances as they are reported.
    pub fn summary(&self) -> (r: Summary)
        requires
            self.wf(),
        ensures
            r == summary_of(self@),
    {
        proof {
            self.lemma_held_nonneg();
        }
        Summary {
            client: self.id(),
            available: self.available(),
            held: self.held(),
            total: self.total(),
            locked: self.locked(),
        }
    }
}

} // verus!

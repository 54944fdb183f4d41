use vstd::prelude::*;
use std::collections::HashMap;
use crate::transaction::{debit_kind, find_debit, find_dispute, find_resolve, is_first_where, Transaction, TransactionType};

verus! {

broadcast use vstd::std_specs::hash::group_hash_axioms;

/// Largest magnitude, in ten-thousandths, that `total` and `held` may reach.
///
/// It is 2^125, so that `total - held` and a balance plus any `u64` amount
/// always fit in an `i128`.
pub const BALANCE_LIMIT: i128 = 42535295865117307932921825928971026432;

/// Why a transaction was refused. A refused transaction changes nothing.
#[derive(Debug, Clone, Copy, PartialEq, Eq, Structural)]
pub enum LedgerError {
    /// No transaction was given (the record's kind was not recognized).
    Unrecognized,
    /// The account is locked after a chargeback.
    LockedAccount,
    /// A deposit or withdrawal without an amount.
    MissingAmount,
    /// A withdrawal larger than the available funds.
    InsufficientFunds,
    /// A deposit or withdrawal under an identifier that already has history.
    DuplicateTransactionId,
    /// A dispute, resolution or chargeback of an identifier with no history.
    UnknownReference,
    /// A dispute of an identifier that was already disputed.
    AlreadyDisputed,
    /// A resolution or chargeback of an identifier that was never disputed.
    NotDisputed,
    /// A resolution or chargeback of an identifier that was already resolved.
    AlreadyResolved,
    /// The new `total` or `held` would leave `[-BALANCE_LIMIT, BALANCE_LIMIT]`.
    Overflow,
}

/// What an account is: its balances and its history, by identifier.
pub struct AccountView {
    pub id: u16,
    pub total: int,
    pub held: int,
    pub locked: bool,
    pub history: Map<u32, Seq<TransactionType>>,
}

pub open spec fn in_range(x: int) -> bool {
    -BALANCE_LIMIT <= x <= BALANCE_LIMIT
}

pub open spec fn has_dispute(s: Seq<TransactionType>) -> bool {
    exists|i: int| 0 <= i < s.len() && #[trigger] s[i] is Dispute
}

pub open spec fn has_resolve(s: Seq<TransactionType>) -> bool {
    exists|i: int| 0 <= i < s.len() && #[trigger] s[i] is Resolve
}

/// The amount of the deposit or withdrawal that opens the history `s`.
pub open spec fn debit_amount(s: Seq<TransactionType>) -> int {
    match s[0].payload().amount {
        Some(a) => a as int,
        None => 0,
    }
}

/// The account after the deposit or withdrawal `t` (of amount `amt`) under a new identifier.
pub open spec fn record_debit(a: AccountView, t: TransactionType, amt: int) -> AccountView {
    AccountView {
        total: if t is Deposit { a.total + amt } else { a.total - amt },
        history: a.history.insert(t.payload().transaction_id, seq![t]),
        ..a
    }
}

/// What applying `tx` to the account `a` gives: the new account, or the reason it is refused.
///
/// A dispute stays in the history of its identifier once resolved, so a
/// resolved identifier cannot be disputed again.
pub open spec fn apply_spec(a: AccountView, tx: Option<TransactionType>) -> Result<AccountView, LedgerError> {
    match tx {
        None => Err(LedgerError::Unrecognized),
        Some(t) => {
            let id = t.payload().transaction_id;
            if a.locked {
                Err(LedgerError::LockedAccount)
            } else if t.is_debit() {
                match t.payload().amount {
                    None => Err(LedgerError::MissingAmount),
                    Some(amt) => if t is Withdrawal && a.total - a.held < amt {
                        Err(LedgerError::InsufficientFunds)
                    } else if a.history.contains_key(id) {
                        Err(LedgerError::DuplicateTransactionId)
                    } else if !in_range(record_debit(a, t, amt as int).total) {
                        Err(LedgerError::Overflow)
                    } else {
                        Ok(record_debit(a, t, amt as int))
                    },
                }
            } else if !a.history.contains_key(id) {
                Err(LedgerError::UnknownReference)
            } else {
                let s = a.history[id];
                let amt = debit_amount(s);
                let history = a.history.insert(id, s.push(t));
                if t is Dispute {
                    let total = if s[0] is Withdrawal { a.total + amt } else { a.total };
                    if has_dispute(s) {
                        Err(LedgerError::AlreadyDisputed)
                    } else if !in_range(total) || !in_range(a.held + amt) {
                        Err(LedgerError::Overflow)
                    } else {
                        Ok(AccountView { total, held: a.held + amt, history, ..a })
                    }
                } else if !has_dispute(s) {
                    Err(LedgerError::NotDisputed)
                } else if has_resolve(s) {
                    Err(LedgerError::AlreadyResolved)
                } else if t is Resolve {
                    Ok(AccountView { held: a.held - amt, history, ..a })
                } else {
                    let total = if s[0] is Deposit { a.total - amt } else { a.total + amt };
                    if !in_range(total) {
                        Err(LedgerError::Overflow)
                    } else {
                        Ok(AccountView { total, held: a.held - amt, locked: true, history, ..a })
                    }
                }
            }
        },
    }
}

/// The sum of the opening amounts of the histories of `ids`.
pub open spec fn sum_debits(ids: Seq<u32>, h: Map<u32, Seq<TransactionType>>) -> int
    decreases ids.len(),
{
    if ids.len() == 0 {
        0
    } else {
        sum_debits(ids.drop_last(), h) + debit_amount(h[ids.last()])
    }
}

/// The events of one identifier follow its lifecycle: one deposit or
/// withdrawal with an amount, then possibly a dispute, then possibly a
/// resolution or a chargeback.
pub open spec fn lifecycle(s: Seq<TransactionType>) -> bool {
    &&& 1 <= s.len() <= 3
    &&& s[0].is_debit()
    &&& s[0].payload().amount is Some
    &&& s.len() >= 2 ==> s[1] is Dispute
    &&& s.len() >= 3 ==> (s[2] is Resolve || s[2] is Chargeback)
}

/// One client's balances and transaction history.
pub struct Account {
    id: u16,
    total: i128,
    held: i128,
    locked: bool,
    transactions: HashMap<u32, Vec<TransactionType>>,
    /// The identifiers whose dispute is still open.
    disputed: Ghost<Seq<u32>>,
}

impl View for Account {
    type V = AccountView;

    closed spec fn view(&self) -> AccountView {
        AccountView {
            id: self.id,
            total: self.total as int,
            held: self.held as int,
            locked: self.locked,
            history: self.transactions@.map_values(|v: Vec<TransactionType>| v@),
        }
    }
}

proof fn lemma_sum_frame(ids: Seq<u32>, h1: Map<u32, Seq<TransactionType>>, h2: Map<u32, Seq<TransactionType>>)
    requires
        forall|i: int| 0 <= i < ids.len() ==> debit_amount(h1[#[trigger] ids[i]]) == debit_amount(h2[ids[i]]),
    ensures
        sum_debits(ids, h1) == sum_debits(ids, h2),
    decreases ids.len(),
{
    if ids.len() > 0 {
        assert(ids.last() == ids[ids.len() - 1]);
        lemma_sum_frame(ids.drop_last(), h1, h2);
    }
}

proof fn lemma_sum_remove(ids: Seq<u32>, h: Map<u32, Seq<TransactionType>>, i: int)
    requires
        0 <= i < ids.len(),
    ensures
        sum_debits(ids, h) == sum_debits(ids.remove(i), h) + debit_amount(h[ids[i]]),
    decreases ids.len(),
{
    if i < ids.len() - 1 {
        lemma_sum_remove(ids.drop_last(), h, i);
        assert(ids.remove(i).drop_last() =~= ids.drop_last().remove(i));
        assert(ids.remove(i).last() == ids.last());
    } else {
        assert(ids.remove(i) =~= ids.drop_last());
    }
}

proof fn lemma_sum_nonneg(ids: Seq<u32>, h: Map<u32, Seq<TransactionType>>)
    ensures
        sum_debits(ids, h) >= 0,
    decreases ids.len(),
{
    if ids.len() > 0 {
        lemma_sum_nonneg(ids.drop_last(), h);
    }
}

proof fn lemma_first_debit(s: Seq<TransactionType>, debit: Option<TransactionType>)
    requires
        lifecycle(s),
        is_first_where(s, debit_kind(), debit),
    ensures
        debit == Some(s[0]),
{
    assert(debit_kind()(s[0]));
    match debit {
        Some(t) => {
            let i = choose|i: int|
                0 <= i < s.len() && s[i] == t && debit_kind()(t) && forall|j: int| 0 <= j < i ==> !debit_kind()(#[trigger] s[j]);
            if i > 0 {
                assert(!debit_kind()(s[0]));
            }
        },
        None => {},
    }
}

impl Account {
    /// The account's internal consistency: balances in range, every
    /// history following its lifecycle, and `held` equal to the sum of
    /// the amounts whose dispute is open.
    pub closed spec fn wf(&self) -> bool {
        let h = self@.history;
        &&& in_range(self.total as int)
        &&& in_range(self.held as int)
        &&& forall|k: u32| #[trigger] h.contains_key(k) ==> lifecycle(h[k])
        &&& forall|k: u32| #[trigger] h.contains_key(k) && h[k].len() == 3 && h[k][2] is Chargeback ==> self.locked
        &&& self.disputed@.no_duplicates()
        &&& forall|k: u32| #[trigger] self.disputed@.contains(k) <==> (h.contains_key(k) && h[k].len() == 2)
        &&& self.held as int == sum_debits(self.disputed@, h)
    }

    /// Funds on hold are never negative in a well-formed account.
    pub proof fn lemma_held_nonneg(&self)
        requires
            self.wf(),
        ensures
            self@.held >= 0,
            in_range(self@.total),
            in_range(self@.held),
    {
        lemma_sum_nonneg(self.disputed@, self@.history);
    }

    /// A new, empty, unlocked account for client `id`.
    pub fn new(id: u16) -> (r: Account)
        ensures
            r.wf(),
            r@.id == id,
            r@.total == 0,
            r@.held == 0,
            !r@.locked,
            r@.history == Map::<u32, Seq<TransactionType>>::empty(),
    {
        let r = Account {
            id,
            total: 0,
            held: 0,
            locked: false,
            transactions: HashMap::new(),
            disputed: Ghost(Seq::empty()),
        };
        assert(r@.history =~= Map::<u32, Seq<TransactionType>>::empty());
        r
    }

    pub fn id(&self) -> (r: u16)
        ensures
            r == self@.id,
    {
        self.id
    }

    /// The balance, in ten-thousandths, held or not.
    pub fn total(&self) -> (r: i128)
        ensures
            r == self@.total,
    {
        self.total
    }

    /// The funds on hold, in ten-thousandths.
    pub fn held(&self) -> (r: i128)
        ensures
            r == self@.held,
    {
        self.held
    }

    pub fn locked(&self) -> (r: bool)
        ensures
            r == self@.locked,
    {
        self.locked
    }

    /// Refuses what no account state can take: a missing transaction, any
    /// transaction on a locked account, a deposit or withdrawal without an
    /// amount, and a withdrawal larger than the available funds.
    fn validate(&self, tx: Option<TransactionType>) -> (r: Result<TransactionType, LedgerError>)
        requires
            self.wf(),
        ensures
            match r {
                Ok(t) => tx == Some(t) && !self@.locked && (t.is_debit() ==> {
                    &&& t.payload().amount is Some
                    &&& (t is Withdrawal ==> self@.total - self@.held >= t.payload().amount->0)
                }),
                Err(e) => apply_spec(self@, tx) == Err::<AccountView, LedgerError>(e),
            },
    {
        let t = match tx {
            None => {
                return Err(LedgerError::Unrecognized);
            },
            Some(t) => t,
        };
        if self.locked {
            return Err(LedgerError::LockedAccount);
        }
        match t {
            TransactionType::Deposit(d) => {
                if d.amount.is_none() {
                    return Err(LedgerError::MissingAmount);
                }
            },
            TransactionType::Withdrawal(d) => {
                match d.amount {
                    None => {
                        return Err(LedgerError::MissingAmount);
                    },
                    Some(amt) => {
                        if self.available() < amt as i128 {
                            return Err(LedgerError::InsufficientFunds);
                        }
                    },
                }
            },
            _ => {},
        }
        Ok(t)
    }

    /// Applies `tx` if it is legal in the account's current state, and
    /// otherwise leaves the account as it was and says why.
    pub fn apply(&mut self, tx: Option<TransactionType>) -> (r: Result<(), LedgerError>)
        requires
            old(self).wf(),
        ensures
            final(self).wf(),
            final(self)@.held >= 0,
            match apply_spec(old(self)@, tx) {
                Ok(v) => r is Ok && final(self)@ == v,
                Err(e) => r == Err::<(), LedgerError>(e) && final(self)@ == old(self)@,
            },
    {
        let r = self.apply_checked(tx);
        proof {
            self.lemma_held_nonneg();
        }
        r
    }

    fn apply_checked(&mut self, tx: Option<TransactionType>) -> (r: Result<(), LedgerError>)
        requires
            old(self).wf(),
        ensures
            final(self).wf(),
            match apply_spec(old(self)@, tx) {
                Ok(v) => r is Ok && final(self)@ == v,
                Err(e) => r == Err::<(), LedgerError>(e) && final(self)@ == old(self)@,
            },
    {
        let t = match self.validate(tx) {
            Err(e) => {
                return Err(e);
            },
            Ok(t) => t,
        };
        match t {
            TransactionType::Deposit(d) => self.apply_debit(t, d),
            TransactionType::Withdrawal(d) => self.apply_debit(t, d),
            TransactionType::Dispute(d) => self.apply_dispute(t, d.transaction_id),
            TransactionType::Resolve(d) => self.apply_settle(t, d.transaction_id),
            TransactionType::Chargeback(d) => self.apply_settle(t, d.transaction_id),
        }
    }

    /// Records a deposit or withdrawal under its new identifier.
    fn apply_debit(&mut self, t: TransactionType, d: Transaction) -> (r: Result<(), LedgerError>)
        requires
            old(self).wf(),
            !old(self)@.locked,
            t.is_debit(),
            d == t.payload(),
            d.amount is Some,
            t is Withdrawal ==> old(self)@.total - old(self)@.held >= d.amount->0,
        ensures
            final(self).wf(),
            match apply_spec(old(self)@, Some(t)) {
                Ok(v) => r is Ok && final(self)@ == v,
                Err(e) => r == Err::<(), LedgerError>(e) && final(self)@ == old(self)@,
            },
    {
        let id = d.transaction_id;
        let amt: u64 = match d.amount {
            Some(a) => a,
            None => 0,
        };
        if self.transactions.contains_key(&id) {
            return Err(LedgerError::DuplicateTransactionId);
        }
        let total = match t {
            TransactionType::Deposit(_) => self.total + amt as i128,
            _ => self.total - amt as i128,
        };
        if total > BALANCE_LIMIT || total < -BALANCE_LIMIT {
            return Err(LedgerError::Overflow);
        }
        let ghost h0 = self@.history;
        let mut events: Vec<TransactionType> = Vec::new();
        events.push(t);
        self.transactions.insert(id, events);
        self.total = total;
        proof {
            assert(events@ =~= seq![t]);
            assert(self@.history =~= h0.insert(id, seq![t]));
            assert forall|k: u32| #[trigger] self@.history.contains_key(k) implies lifecycle(self@.history[k]) by {
                if k != id {
                    assert(h0.contains_key(k));
                }
            }
            assert forall|i: int| 0 <= i < self.disputed@.len() implies
                debit_amount(h0[#[trigger] self.disputed@[i]]) == debit_amount(self@.history[self.disputed@[i]]) by {
                assert(self.disputed@.contains(self.disputed@[i]));
            }
            lemma_sum_frame(self.disputed@, h0, self@.history);
        }
        Ok(())
    }

    /// Appends `t` to the events of `id`, which has history.
    fn push_event(&mut self, id: u32, t: TransactionType)
        requires
            old(self)@.history.contains_key(id),
        ensures
            final(self)@.history == old(self)@.history.insert(id, old(self)@.history[id].push(t)),
            final(self).id == old(self).id,
            final(self).total == old(self).total,
            final(self).held == old(self).held,
            final(self).locked == old(self).locked,
            final(self).disputed == old(self).disputed,
    {
        let ghost h0 = self@.history;
        let mut events = match self.transactions.remove(&id) {
            Some(e) => e,
            None => Vec::new(),
        };
        events.push(t);
        self.transactions.insert(id, events);
        assert(self@.history =~= h0.insert(id, h0[id].push(t)));
    }

    /// Opens a dispute on the deposit or withdrawal recorded under `id`.
    fn apply_dispute(&mut self, t: TransactionType, id: u32) -> (r: Result<(), LedgerError>)
        requires
            old(self).wf(),
            !old(self)@.locked,
            t is Dispute,
            id == t.payload().transaction_id,
        ensures
            final(self).wf(),
            match apply_spec(old(self)@, Some(t)) {
                Ok(v) => r is Ok && final(self)@ == v,
                Err(e) => r == Err::<(), LedgerError>(e) && final(self)@ == old(self)@,
            },
    {
        let ghost h0 = self@.history;
        let events = match self.transactions.get(&id) {
            None => {
                return Err(LedgerError::UnknownReference);
            },
            Some(e) => e,
        };
        let ghost s = events@;
        assert(s == h0[id]);
        assert(lifecycle(s));
        if find_dispute(events).is_some() {
            return Err(LedgerError::AlreadyDisputed);
        }
        assert(!has_dispute(s));
        let debit = find_debit(events);
        proof {
            lemma_first_debit(s, debit);
        }
        let (amt, restores): (u64, bool) = match debit {
            Some(TransactionType::Withdrawal(p)) => (match p.amount { Some(a) => a, None => 0 }, true),
            Some(TransactionType::Deposit(p)) => (match p.amount { Some(a) => a, None => 0 }, false),
            _ => (0, false),
        };
        assert(amt as int == debit_amount(s));
        let total = if restores { self.total + amt as i128 } else { self.total };
        let held = self.held + amt as i128;
        if total > BALANCE_LIMIT || total < -BALANCE_LIMIT || held > BALANCE_LIMIT {
            return Err(LedgerError::Overflow);
        }
        let ghost d0 = self.disputed@;
        self.push_event(id, t);
        self.total = total;
        self.held = held;
        self.disputed = Ghost(d0.push(id));
        proof {
            let h1 = self@.history;
            assert(h1 == h0.insert(id, s.push(t)));
            assert(!d0.contains(id));
            assert forall|k: u32| #[trigger] h1.contains_key(k) implies lifecycle(h1[k]) by {
                if k != id {
                    assert(h0.contains_key(k));
                }
            }
            assert forall|k: u32| #[trigger] self.disputed@.contains(k) <==> (h1.contains_key(k) && h1[k].len() == 2) by {
                if k != id {
                    if d0.contains(k) {
                        let i = choose|i: int| 0 <= i < d0.len() && d0[i] == k;
                        assert(self.disputed@[i] == k);
                    }
                    if self.disputed@.contains(k) {
                        let i = choose|i: int| 0 <= i < self.disputed@.len() && self.disputed@[i] == k;
                        assert(d0[i] == k);
                    }
                } else {
                    assert(self.disputed@[d0.len() as int] == id);
                }
            }
            assert forall|i: int| 0 <= i < d0.len() implies
                debit_amount(h0[#[trigger] d0[i]]) == debit_amount(h1[d0[i]]) by {
                assert(d0.contains(d0[i]));
            }
            lemma_sum_frame(d0, h0, h1);
            assert(self.disputed@.drop_last() =~= d0);
            assert(debit_amount(h1[id]) == debit_amount(s));
        }
        Ok(())
    }

    /// Resolves (`t` is a resolution) or charges back (`t` is a chargeback)
    /// the open dispute on the deposit or withdrawal recorded under `id`.
    fn apply_settle(&mut self, t: TransactionType, id: u32) -> (r: Result<(), LedgerError>)
        requires
            old(self).wf(),
            !old(self)@.locked,
            t is Resolve || t is Chargeback,
            id == t.payload().transaction_id,
        ensures
            final(self).wf(),
            match apply_spec(old(self)@, Some(t)) {
                Ok(v) => r is Ok && final(self)@ == v,
                Err(e) => r == Err::<(), LedgerError>(e) && final(self)@ == old(self)@,
            },
    {
        let ghost h0 = self@.history;
        let events = match self.transactions.get(&id) {
            None => {
                return Err(LedgerError::UnknownReference);
            },
            Some(e) => e,
        };
        let ghost s = events@;
        assert(s == h0[id]);
        assert(lifecycle(s));
        if find_dispute(events).is_none() {
            return Err(LedgerError::NotDisputed);
        }
        if find_resolve(events).is_some() {
            return Err(LedgerError::AlreadyResolved);
        }
        assert(has_dispute(s) && !has_resolve(s));
        assert(s.len() == 2) by {
            if s.len() == 3 {
                assert(s[2] is Chargeback);
            }
            if s.len() == 1 {
                assert(!(s[0] is Dispute));
            }
        }
        let debit = find_debit(events);
        proof {
            lemma_first_debit(s, debit);
        }
        let (amt, was_deposit): (u64, bool) = match debit {
            Some(TransactionType::Deposit(p)) => (match p.amount { Some(a) => a, None => 0 }, true),
            Some(TransactionType::Withdrawal(p)) => (match p.amount { Some(a) => a, None => 0 }, false),
            _ => (0, false),
        };
        assert(amt as int == debit_amount(s));
        let ghost d0 = self.disputed@;
        assert(d0.contains(id));
        let ghost i0 = choose|i: int| 0 <= i < d0.len() && d0[i] == id;
        proof {
            lemma_sum_remove(d0, h0, i0);
            lemma_sum_nonneg(d0.remove(i0), h0);
        }
        let held = self.held - amt as i128;
        let chargeback = match t {
            TransactionType::Chargeback(_) => true,
            _ => false,
        };
        let total = if !chargeback {
            self.total
        } else if was_deposit {
            self.total - amt as i128
        } else {
            self.total + amt as i128
        };
        if total > BALANCE_LIMIT || total < -BALANCE_LIMIT {
            return Err(LedgerError::Overflow);
        }
        self.push_event(id, t);
        self.total = total;
        self.held = held;
        if chargeback {
            self.locked = true;
        }
        self.disputed = Ghost(d0.remove(i0));
        proof {
            let h1 = self@.history;
            let d1 = self.disputed@;
            assert(h1 == h0.insert(id, s.push(t)));
            assert forall|k: u32| #[trigger] h1.contains_key(k) implies lifecycle(h1[k]) by {
                if k != id {
                    assert(h0.contains_key(k));
                }
            }
            assert forall|k: u32| #[trigger] h1.contains_key(k) && h1[k].len() == 3 && h1[k][2] is Chargeback implies self.locked by {
                if k != id {
                    assert(h0.contains_key(k));
                }
            }
            assert forall|a: int, b: int| 0 <= a < b < d1.len() implies d1[a] != d1[b] by {
                if a >= i0 {
                    assert(d1[a] == d0[a + 1]);
                } else {
                    assert(d1[a] == d0[a]);
                }
                if b >= i0 {
                    assert(d1[b] == d0[b + 1]);
                } else {
                    assert(d1[b] == d0[b]);
                }
            }
            assert forall|j: int| 0 <= j < d1.len() implies #[trigger] d1[j] != id by {
                if j >= i0 {
                    assert(d1[j] == d0[j + 1]);
                } else {
                    assert(d1[j] == d0[j]);
                }
            }
            assert forall|k: u32| #[trigger] d1.contains(k) <==> (h1.contains_key(k) && h1[k].len() == 2) by {
                if d1.contains(k) {
                    let j = choose|j: int| 0 <= j < d1.len() && d1[j] == k;
                    if j >= i0 {
                        assert(d0[j + 1] == k);
                    } else {
                        assert(d0[j] == k);
                    }
                    assert(d0.contains(k));
                }
                if k != id && d0.contains(k) {
                    let j = choose|j: int| 0 <= j < d0.len() && d0[j] == k;
                    if j > i0 {
                        assert(d1[j - 1] == k);
                    } else {
                        assert(j != i0);
                        assert(d1[j] == k);
                    }
                }
            }
            assert forall|j: int| 0 <= j < d1.len() implies
                debit_amount(h0[#[trigger] d1[j]]) == debit_amount(h1[d1[j]]) by {
                assert(d1[j] != id);
            }
            lemma_sum_frame(d1, h0, h1);
        }
        Ok(())
    }

    /// The funds that may be withdrawn: `total - held`, in ten-thousandths.
    pub fn available(&self) -> (r: i128)
        requires
            self.wf(),
        ensures
            r == self@.total - self@.held,
    {
        self.total - self.held
    }
}

} // verus!

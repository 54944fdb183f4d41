use vstd::prelude::*;

verus! {

/// One ledger event of a client.
///
/// `amount` is in ten-thousandths of a currency unit. It is present for
/// deposits and withdrawals; disputes, resolutions and chargebacks carry
/// none and refer to an earlier deposit or withdrawal by `transaction_id`.
#[derive(Debug, Clone, Copy, PartialEq, Eq, Structural)]
pub struct Transaction {
    pub client_id: u16,
    pub transaction_id: u32,
    pub amount: Option<u64>,
}

impl Transaction {
    pub fn new(client_id: u16, transaction_id: u32, amount: Option<u64>) -> (r: Transaction)
        ensures
            r.client_id == client_id,
            r.transaction_id == transaction_id,
            r.amount == amount,
    {
        Transaction { client_id, transaction_id, amount }
    }

    pub fn amount(&self) -> (r: &Option<u64>)
        ensures
            *r == self.amount,
    {
        &self.amount
    }

    pub fn transaction_id(&self) -> (r: u32)
        ensures
            r == self.transaction_id,
    {
        self.transaction_id
    }
}

/// The kind of a ledger event, with its payload.
#[derive(Debug, Clone, Copy, PartialEq, Eq, Structural)]
pub enum TransactionType {
    Deposit(Transaction),
    Withdrawal(Transaction),
    Dispute(Transaction),
    Resolve(Transaction),
    Chargeback(Transaction),
}

impl TransactionType {
    /// The payload, whatever the kind.
    pub open spec fn payload(self) -> Transaction {
        match self {
            TransactionType::Deposit(t) => t,
            TransactionType::Withdrawal(t) => t,
            TransactionType::Dispute(t) => t,
            TransactionType::Resolve(t) => t,
            TransactionType::Chargeback(t) => t,
        }
    }

    /// A deposit or a withdrawal: an event that moves money in or out.
    pub open spec fn is_debit(self) -> bool {
        self is Deposit || self is Withdrawal
    }
}

/// `r` is the first element of `s` for which `p` holds, or `None` if there is none.
pub open spec fn is_first_where(
    s: Seq<TransactionType>,
    p: spec_fn(TransactionType) -> bool,
    r: Option<TransactionType>,
) -> bool {
    match r {
        Some(t) => exists|i: int|
            0 <= i < s.len() && s[i] == t && p(t) && forall|j: int| 0 <= j < i ==> !p(#[trigger] s[j]),
        None => forall|i: int| 0 <= i < s.len() ==> !p(#[trigger] s[i]),
    }
}

pub open spec fn debit_kind() -> spec_fn(TransactionType) -> bool {
    |t: TransactionType| t.is_debit()
}

pub open spec fn dispute_kind() -> spec_fn(TransactionType) -> bool {
    |t: TransactionType| t is Dispute
}

pub open spec fn resolve_kind() -> spec_fn(TransactionType) -> bool {
    |t: TransactionType| t is Resolve
}

/// The first deposit or withdrawal among the events of one identifier.
pub fn find_debit(txs: &Vec<TransactionType>) -> (r: Option<TransactionType>)
    ensures
        is_first_where(txs@, debit_kind(), r),
{
    let mut i: usize = 0;
    while i < txs.len()
        invariant
            i <= txs@.len(),
            forall|j: int| 0 <= j < i ==> !(#[trigger] txs@[j]).is_debit(),
        decreases txs@.len() - i,
    {
        match txs[i] {
            TransactionType::Deposit(t) => {
                return Some(TransactionType::Deposit(t));
            },
            TransactionType::Withdrawal(t) => {
                return Some(TransactionType::Withdrawal(t));
            },
            _ => {},
        }
        i = i + 1;
    }
    None
}

/// The first dispute among the events of one identifier.
pub fn find_dispute(txs: &Vec<TransactionType>) -> (r: Option<TransactionType>)
    ensures
        is_first_where(txs@, dispute_kind(), r),
{
    let mut i: usize = 0;
    while i < txs.len()
        invariant
            i <= txs@.len(),
            forall|j: int| 0 <= j < i ==> !(#[trigger] txs@[j] is Dispute),
        decreases txs@.len() - i,
    {
        if let TransactionType::Dispute(t) = txs[i] {
            return Some(TransactionType::Dispute(t));
        }
        i = i + 1;
    }
    None
}

/// The first resolution among the events of one identifier.
pub fn find_resolve(txs: &Vec<TransactionType>) -> (r: Option<TransactionType>)
    ensures
        is_first_where(txs@, resolve_kind(), r),
{
    let mut i: usize = 0;
    while i < txs.len()
        invariant
            i <= txs@.len(),
            forall|j: int| 0 <= j < i ==> !(#[trigger] txs@[j] is Resolve),
        decreases txs@.len() - i,
    {
        if let TransactionType::Resolve(t) = txs[i] {
            return Some(TransactionType::Resolve(t));
        }
        i = i + 1;
    }
    None
}

} // verus!

use banky::account::{Account, LedgerError};
use banky::transaction::{find_debit, find_dispute, find_resolve, Transaction, TransactionType};

fn deposit(tx: u32, amount: u64) -> Option<TransactionType> {
    Some(TransactionType::Deposit(Transaction::new(1, tx, Some(amount))))
}

fn withdrawal(tx: u32, amount: u64) -> Option<TransactionType> {
    Some(TransactionType::Withdrawal(Transaction::new(1, tx, Some(amount))))
}

fn dispute(tx: u32) -> Option<TransactionType> {
    Some(TransactionType::Dispute(Transaction::new(1, tx, None)))
}

fn resolve(tx: u32) -> Option<TransactionType> {
    Some(TransactionType::Resolve(Transaction::new(1, tx, None)))
}

fn chargeback(tx: u32) -> Option<TransactionType> {
    Some(TransactionType::Chargeback(Transaction::new(1, tx, None)))
}

fn balances(a: &Account) -> (i128, i128, i128, bool) {
    (a.total(), a.held(), a.available(), a.locked())
}

#[test]
fn deposit_withdraw_dispute_chargeback_then_locked() {
    let mut a = Account::new(1);
    assert_eq!(a.apply(deposit(1, 50000)), Ok(()));
    assert_eq!(balances(&a), (50000, 0, 50000, false));
    assert_eq!(a.apply(withdrawal(2, 30000)), Ok(()));
    assert_eq!(balances(&a), (20000, 0, 20000, false));
    assert_eq!(a.apply(dispute(1)), Ok(()));
    assert_eq!(balances(&a), (20000, 50000, -30000, false));
    assert_eq!(a.apply(chargeback(1)), Ok(()));
    assert_eq!(balances(&a), (-30000, 0, -30000, true));
    assert_eq!(a.apply(deposit(3, 10000)), Err(LedgerError::LockedAccount));
    assert_eq!(balances(&a), (-30000, 0, -30000, true));
}

#[test]
fn withdrawal_dispute_then_resolve() {
    let mut a = Account::new(1);
    assert_eq!(a.apply(deposit(1, 100000)), Ok(()));
    assert_eq!(a.apply(withdrawal(2, 30000)), Ok(()));
    assert_eq!(balances(&a), (70000, 0, 70000, false));
    assert_eq!(a.apply(dispute(2)), Ok(()));
    assert_eq!(balances(&a), (100000, 30000, 70000, false));
    assert_eq!(a.apply(resolve(2)), Ok(()));
    // the hold is released; the restored amount stays in total
    assert_eq!(balances(&a), (100000, 0, 100000, false));
}

#[test]
fn deposit_dispute_resolve_round_trip() {
    let mut a = Account::new(1);
    assert_eq!(a.apply(deposit(1, 12345)), Ok(()));
    assert_eq!(a.apply(deposit(2, 7)), Ok(()));
    let before = balances(&a);
    assert_eq!(a.apply(dispute(2)), Ok(()));
    assert_eq!(balances(&a), (12352, 7, 12345, false));
    assert_eq!(a.apply(resolve(2)), Ok(()));
    assert_eq!(balances(&a), before);
}

#[test]
fn chargeback_of_withdrawal_restores_funds() {
    let mut a = Account::new(1);
    assert_eq!(a.apply(deposit(1, 100000)), Ok(()));
    assert_eq!(a.apply(withdrawal(2, 40000)), Ok(()));
    assert_eq!(a.apply(dispute(2)), Ok(()));
    assert_eq!(a.apply(chargeback(2)), Ok(()));
    assert_eq!(balances(&a), (140000, 0, 140000, true));
}

#[test]
fn duplicate_identifier_is_refused() {
    let mut a = Account::new(1);
    assert_eq!(a.apply(deposit(1, 50000)), Ok(()));
    assert_eq!(a.apply(deposit(1, 10000)), Err(LedgerError::DuplicateTransactionId));
    assert_eq!(a.apply(withdrawal(1, 10000)), Err(LedgerError::DuplicateTransactionId));
    assert_eq!(balances(&a), (50000, 0, 50000, false));
}

#[test]
fn locked_account_refuses_everything() {
    let mut a = Account::new(1);
    assert_eq!(a.apply(deposit(1, 50000)), Ok(()));
    assert_eq!(a.apply(deposit(2, 20000)), Ok(()));
    assert_eq!(a.apply(dispute(1)), Ok(()));
    assert_eq!(a.apply(chargeback(1)), Ok(()));
    let frozen = balances(&a);
    assert_eq!(frozen, (20000, 0, 20000, true));
    assert_eq!(a.apply(withdrawal(3, 1)), Err(LedgerError::LockedAccount));
    assert_eq!(a.apply(dispute(2)), Err(LedgerError::LockedAccount));
    assert_eq!(a.apply(resolve(1)), Err(LedgerError::LockedAccount));
    assert_eq!(a.apply(chargeback(2)), Err(LedgerError::LockedAccount));
    assert_eq!(balances(&a), frozen);
}

#[test]
fn each_error_kind() {
    let mut a = Account::new(7);
    assert_eq!(a.id(), 7);
    assert_eq!(a.apply(None), Err(LedgerError::Unrecognized));
    let no_amount = Some(TransactionType::Deposit(Transaction::new(7, 1, None)));
    assert_eq!(a.apply(no_amount), Err(LedgerError::MissingAmount));
    let no_amount = Some(TransactionType::Withdrawal(Transaction::new(7, 1, None)));
    assert_eq!(a.apply(no_amount), Err(LedgerError::MissingAmount));
    assert_eq!(a.apply(withdrawal(1, 1)), Err(LedgerError::InsufficientFunds));
    assert_eq!(a.apply(dispute(9)), Err(LedgerError::UnknownReference));
    assert_eq!(a.apply(resolve(9)), Err(LedgerError::UnknownReference));
    assert_eq!(a.apply(chargeback(9)), Err(LedgerError::UnknownReference));
    assert_eq!(a.apply(deposit(1, 10000)), Ok(()));
    assert_eq!(a.apply(resolve(1)), Err(LedgerError::NotDisputed));
    assert_eq!(a.apply(chargeback(1)), Err(LedgerError::NotDisputed));
    assert_eq!(a.apply(dispute(1)), Ok(()));
    assert_eq!(a.apply(dispute(1)), Err(LedgerError::AlreadyDisputed));
    assert_eq!(a.apply(resolve(1)), Ok(()));
    assert_eq!(a.apply(resolve(1)), Err(LedgerError::AlreadyResolved));
    assert_eq!(a.apply(chargeback(1)), Err(LedgerError::AlreadyResolved));
    // a resolved identifier cannot be disputed again
    assert_eq!(a.apply(dispute(1)), Err(LedgerError::AlreadyDisputed));
    assert_eq!(balances(&a), (10000, 0, 10000, false));
}

#[test]
fn withdrawal_of_exactly_available_funds() {
    let mut a = Account::new(1);
    assert_eq!(a.apply(deposit(1, 25000)), Ok(()));
    assert_eq!(a.apply(withdrawal(2, 25001)), Err(LedgerError::InsufficientFunds));
    assert_eq!(a.apply(withdrawal(2, 25000)), Ok(()));
    assert_eq!(balances(&a), (0, 0, 0, false));
}

#[test]
fn held_funds_are_not_available() {
    let mut a = Account::new(1);
    assert_eq!(a.apply(deposit(1, 25000)), Ok(()));
    assert_eq!(a.apply(dispute(1)), Ok(()));
    assert_eq!(a.apply(withdrawal(2, 1)), Err(LedgerError::InsufficientFunds));
    assert_eq!(balances(&a), (25000, 25000, 0, false));
}

#[test]
fn largest_amounts_stay_in_range() {
    let mut a = Account::new(1);
    let mut tx: u32 = 0;
    while tx < 4 {
        assert_eq!(a.apply(deposit(tx, u64::MAX)), Ok(()));
        tx += 1;
    }
    assert_eq!(a.total(), 4 * (u64::MAX as i128));
    assert_eq!(a.apply(dispute(0)), Ok(()));
    assert_eq!(a.held(), u64::MAX as i128);
    assert_eq!(a.available(), 3 * (u64::MAX as i128));
}

#[test]
fn lookups_find_first_of_kind() {
    let t = Transaction::new(1, 4, Some(10));
    let events = vec![
        TransactionType::Withdrawal(t),
        TransactionType::Dispute(Transaction::new(1, 4, None)),
        TransactionType::Resolve(Transaction::new(1, 4, None)),
    ];
    assert_eq!(find_debit(&events), Some(TransactionType::Withdrawal(t)));
    assert_eq!(find_dispute(&events), Some(TransactionType::Dispute(Transaction::new(1, 4, None))));
    assert_eq!(find_resolve(&events), Some(TransactionType::Resolve(Transaction::new(1, 4, None))));
    let only_debit = vec![TransactionType::Deposit(t)];
    assert_eq!(find_debit(&only_debit), Some(TransactionType::Deposit(t)));
    assert_eq!(find_dispute(&only_debit), None);
    assert_eq!(find_resolve(&only_debit), None);
    assert_eq!(find_debit(&Vec::new()), None);
    assert_eq!(t.amount(), &Some(10));
    assert_eq!(t.transaction_id(), 4);
}

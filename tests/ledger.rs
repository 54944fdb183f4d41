use banky::account::LedgerError;
use banky::ledger::{transaction_from_record, Ledger, Summary};
use banky::transaction::{Transaction, TransactionType};

#[test]
fn record_kinds() {
    let t = Transaction::new(3, 9, Some(5));
    assert_eq!(transaction_from_record("deposit", 3, 9, Some(5)), Some(TransactionType::Deposit(t)));
    assert_eq!(transaction_from_record("withdrawal", 3, 9, Some(5)), Some(TransactionType::Withdrawal(t)));
    assert_eq!(transaction_from_record("dispute", 3, 9, Some(5)), Some(TransactionType::Dispute(t)));
    assert_eq!(transaction_from_record("resolve", 3, 9, Some(5)), Some(TransactionType::Resolve(t)));
    assert_eq!(transaction_from_record("chargeback", 3, 9, Some(5)), Some(TransactionType::Chargeback(t)));
    assert_eq!(transaction_from_record("Deposit", 3, 9, Some(5)), None);
    assert_eq!(transaction_from_record("deposits", 3, 9, Some(5)), None);
    assert_eq!(transaction_from_record("", 3, 9, Some(5)), None);
}

#[test]
fn ledger_keeps_clients_apart() {
    let mut l = Ledger::new();
    assert_eq!(l.process("deposit", 2, 1, Some(10000)), Ok(()));
    assert_eq!(l.process("deposit", 1, 2, Some(20000)), Ok(()));
    assert_eq!(l.process("withdrawal", 2, 3, Some(15000)), Err(LedgerError::InsufficientFunds));
    assert_eq!(l.process("dispute", 1, 2, None), Ok(()));
    assert_eq!(l.process("transfer", 1, 4, Some(1)), Err(LedgerError::Unrecognized));
    assert_eq!(l.process("dispute", 3, 1, None), Err(LedgerError::UnknownReference));
    assert_eq!(
        l.summaries(),
        vec![
            Summary { client: 2, available: 10000, held: 0, total: 10000, locked: false },
            Summary { client: 1, available: 0, held: 20000, total: 20000, locked: false },
            Summary { client: 3, available: 0, held: 0, total: 0, locked: false },
        ]
    );
}

#[test]
fn empty_ledger_has_no_summaries() {
    let l = Ledger::new();
    assert_eq!(l.summaries(), Vec::new());
}

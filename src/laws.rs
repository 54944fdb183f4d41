use vstd::prelude::*;
use crate::account::{apply_spec, has_dispute, AccountView, LedgerError};
use crate::transaction::TransactionType;

verus! {

/// The account after each transaction of `txs` in turn, where a refused
/// transaction leaves the account as it was.
pub open spec fn apply_all(a: AccountView, txs: Seq<TransactionType>) -> AccountView
    decreases txs.len(),
{
    if txs.len() == 0 {
        a
    } else {
        let next = match apply_spec(a, Some(txs[0])) {
            Ok(b) => b,
            Err(_) => a,
        };
        apply_all(next, txs.drop_first())
    }
}

/// A deposit under a new identifier, then a dispute of it, then a
/// resolution of it: when the first two are accepted, the resolution is
/// too, and `total` and `held` come back to what they were before the
/// dispute.
pub proof fn lemma_deposit_dispute_resolve(
    a: AccountView,
    deposit: TransactionType,
    dispute: TransactionType,
    resolve: TransactionType,
)
    requires
        deposit is Deposit,
        dispute is Dispute,
        resolve is Resolve,
        dispute.payload().transaction_id == deposit.payload().transaction_id,
        resolve.payload().transaction_id == deposit.payload().transaction_id,
    ensures
        apply_spec(a, Some(deposit)) is Ok && apply_spec(apply_spec(a, Some(deposit))->Ok_0, Some(dispute)) is Ok
            ==> {
            let before = apply_spec(a, Some(deposit))->Ok_0;
            let disputed = apply_spec(before, Some(dispute))->Ok_0;
            &&& apply_spec(disputed, Some(resolve)) is Ok
            &&& apply_spec(disputed, Some(resolve))->Ok_0.total == before.total
            &&& apply_spec(disputed, Some(resolve))->Ok_0.held == before.held
        },
{
    let id = deposit.payload().transaction_id;
    if apply_spec(a, Some(deposit)) is Ok {
        let before = apply_spec(a, Some(deposit))->Ok_0;
        let s = before.history[id];
        assert(s =~= seq![deposit]);
        assert(!has_dispute(s)) by {
            assert(!(s[0] is Dispute));
        }
        if apply_spec(before, Some(dispute)) is Ok {
            let disputed = apply_spec(before, Some(dispute))->Ok_0;
            let s2 = disputed.history[id];
            assert(s2 =~= seq![deposit, dispute]);
            assert(s2[1] is Dispute);
            assert(!(s2[0] is Resolve) && !(s2[1] is Resolve));
        }
    }
}

/// A withdrawal under a new identifier, then a dispute of it, then a
/// resolution of it: when the first two are accepted, the resolution is
/// too, `held` comes back to what it was before the dispute, and `total`
/// keeps the withdrawn amount that the dispute restored.
pub proof fn lemma_withdrawal_dispute_resolve(
    a: AccountView,
    withdrawal: TransactionType,
    dispute: TransactionType,
    resolve: TransactionType,
)
    requires
        withdrawal is Withdrawal,
        dispute is Dispute,
        resolve is Resolve,
        dispute.payload().transaction_id == withdrawal.payload().transaction_id,
        resolve.payload().transaction_id == withdrawal.payload().transaction_id,
    ensures
        apply_spec(a, Some(withdrawal)) is Ok && apply_spec(apply_spec(a, Some(withdrawal))->Ok_0, Some(dispute)) is Ok
            ==> {
            let before = apply_spec(a, Some(withdrawal))->Ok_0;
            let disputed = apply_spec(before, Some(dispute))->Ok_0;
            &&& apply_spec(disputed, Some(resolve)) is Ok
            &&& apply_spec(disputed, Some(resolve))->Ok_0.held == before.held
            &&& apply_spec(disputed, Some(resolve))->Ok_0.total == before.total + withdrawal.payload().amount->0
        },
{
    let id = withdrawal.payload().transaction_id;
    if apply_spec(a, Some(withdrawal)) is Ok {
        let before = apply_spec(a, Some(withdrawal))->Ok_0;
        let s = before.history[id];
        assert(s =~= seq![withdrawal]);
        assert(!has_dispute(s)) by {
            assert(!(s[0] is Dispute));
        }
        if apply_spec(before, Some(dispute)) is Ok {
            let disputed = apply_spec(before, Some(dispute))->Ok_0;
            let s2 = disputed.history[id];
            assert(s2 =~= seq![withdrawal, dispute]);
            assert(s2[1] is Dispute);
            assert(!(s2[0] is Resolve) && !(s2[1] is Resolve));
        }
    }
}

/// A deposit or withdrawal under an identifier that already has history
/// is refused as a duplicate, whenever the account is unlocked, the
/// amount is present and, for a withdrawal, covered by the available funds.
pub proof fn lemma_duplicate_refused(a: AccountView, t: TransactionType)
    requires
        t.is_debit(),
        a.history.contains_key(t.payload().transaction_id),
        !a.locked,
        t.payload().amount is Some,
        t is Withdrawal ==> a.total - a.held >= t.payload().amount->0,
    ensures
        apply_spec(a, Some(t)) == Err::<AccountView, LedgerError>(LedgerError::DuplicateTransactionId),
{
}

/// A locked account refuses every transaction as locked, and any sequence
/// of transactions leaves it as it is.
pub proof fn lemma_locked_frozen(a: AccountView, t: TransactionType, txs: Seq<TransactionType>)
    requires
        a.locked,
    ensures
        apply_spec(a, Some(t)) == Err::<AccountView, LedgerError>(LedgerError::LockedAccount),
        apply_all(a, txs) == a,
    decreases txs.len(),
{
    if txs.len() > 0 {
        lemma_locked_frozen(a, txs[0], txs.drop_first());
    }
}

/// An accepted chargeback locks the account.
pub proof fn lemma_chargeback_locks(a: AccountView, t: TransactionType)
    requires
        t is Chargeback,
        apply_spec(a, Some(t)) is Ok,
    ensures
        apply_spec(a, Some(t))->Ok_0.locked,
{
}

} // verus!

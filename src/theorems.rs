use vstd::prelude::*;

use crate::accounts::{
    balances_representable, charge_back_step, csv_row, deposit_step, dispute_step,
    representable, resolve_step, step, withdrawal_step, LedgerModel,
};
use crate::engine::{replay, step_result};
use crate::transactions::{
    ChargeBackInfo, ClientId, DepositInfo, DisputeInfo, ResolveInfo, Transaction,
    TransactionError, TransactionId, WithdrawalInfo,
};

verus! {

/// One transaction keeps every account's balances representable.
pub proof fn lemma_step_keeps_balances_representable(m: LedgerModel, t: Transaction)
    requires
        balances_representable(m),
    ensures
        balances_representable(step(m, t)),
{
    let m2 = step(m, t);
    assert forall|c: ClientId| #[trigger] m2.contains_key(c) implies representable(
        m2[c].0.available as int,
        m2[c].0.held as int,
    ) by {
        if m.contains_key(c) {
            assert(representable(m[c].0.available as int, m[c].0.held as int));
        }
    }
}

/// In every ledger reached from an empty one, or from any ledger whose
/// balances are representable, each account's exported total is exactly its
/// available plus its held funds.
pub proof fn lemma_total_is_available_plus_held(m: LedgerModel, s: Seq<Result<Transaction, TransactionError>>)
    requires
        balances_representable(m),
    ensures
        balances_representable(replay(m, s)),
        forall|c: ClientId| #[trigger] replay(m, s).contains_key(c) ==>
            csv_row(c, replay(m, s)[c].0).total == replay(m, s)[c].0.available + replay(m, s)[c].0.held,
    decreases s.len(),
{
    if s.len() > 0 {
        lemma_total_is_available_plus_held(m, s.drop_last());
        match s.last() {
            Ok(t) => lemma_step_keeps_balances_representable(replay(m, s.drop_last()), t),
            Err(_) => {},
        }
    }
    let r = replay(m, s);
    assert forall|c: ClientId| #[trigger] r.contains_key(c) implies csv_row(c, r[c].0).total
        == r[c].0.available + r[c].0.held by {
        assert(representable(r[c].0.available as int, r[c].0.held as int));
    }
}

/// The ledger that replaying from nothing reaches has representable balances.
pub proof fn lemma_empty_ledger_representable()
    ensures
        balances_representable(LedgerModel::empty()),
{
}

/// A deposit of a negative amount changes nothing: no balance moves and no
/// deposit is recorded.
pub proof fn lemma_negative_deposit_no_effect(m: LedgerModel, info: DepositInfo)
    requires
        info.amount < 0,
    ensures
        step(m, Transaction::Deposit(info)) == m,
{
}

/// A withdrawal larger than the available funds is refused and changes nothing.
pub proof fn lemma_overdraft_rejected(m: LedgerModel, info: WithdrawalInfo)
    requires
        m.contains_key(info.client),
        m[info.client].0.available - info.amount < 0,
    ensures
        step(m, Transaction::Withdrawal(info)) == m,
{
}

/// Disputing the same deposit twice in a row has the effect of disputing it once.
pub proof fn lemma_dispute_twice_same_as_once(m: LedgerModel, info: DisputeInfo)
    ensures
        step(step(m, Transaction::Dispute(info)), Transaction::Dispute(info)) == step(
            m,
            Transaction::Dispute(info),
        ),
{
    let m1 = step(m, Transaction::Dispute(info));
    if m1 != m {
        assert(m1[info.client].1[info.tx].disputed);
    }
}

/// Resolving or charging back a deposit with no open dispute is refused and
/// changes nothing.
pub proof fn lemma_undisputed_resolve_and_charge_back_rejected(m: LedgerModel, c: ClientId, tx: TransactionId)
    requires
        !(m.contains_key(c) && m[c].1.contains_key(tx) && m[c].1[tx].disputed),
    ensures
        step(m, Transaction::Resolve(ResolveInfo { client: c, tx })) == m,
        step(m, Transaction::ChargeBack(ChargeBackInfo { client: c, tx })) == m,
{
}

/// A transaction leaves a locked account, and its deposits, as they are; one
/// that concerns the locked client changes nothing at all.
pub proof fn lemma_locked_account_step(m: LedgerModel, c: ClientId, t: Transaction)
    requires
        m.contains_key(c),
        m[c].0.locked,
    ensures
        step(m, t).contains_key(c),
        step(m, t)[c] == m[c],
        t.client_of() == c ==> step(m, t) == m,
{
}

/// Once a charge-back succeeds, the client's account is locked, and no later
/// sequence of transactions changes it or its deposits again.
pub proof fn lemma_charge_back_locks_for_good(
    m: LedgerModel,
    info: ChargeBackInfo,
    s: Seq<Result<Transaction, TransactionError>>,
)
    requires
        step(m, Transaction::ChargeBack(info)) != m,
    ensures
        step(m, Transaction::ChargeBack(info))[info.client].0.locked,
        replay(step(m, Transaction::ChargeBack(info)), s).contains_key(info.client),
        replay(step(m, Transaction::ChargeBack(info)), s)[info.client] == step(
            m,
            Transaction::ChargeBack(info),
        )[info.client],
{
    lemma_locked_account_stays(step(m, Transaction::ChargeBack(info)), info.client, s);
}

/// A locked account, and its deposits, are the same after any sequence of
/// transactions; every one of them that concerns the locked client changes
/// nothing at all.
pub proof fn lemma_locked_account_stays(m: LedgerModel, c: ClientId, s: Seq<Result<Transaction, TransactionError>>)
    requires
        m.contains_key(c),
        m[c].0.locked,
    ensures
        replay(m, s).contains_key(c),
        replay(m, s)[c] == m[c],
    decreases s.len(),
{
    if s.len() > 0 {
        lemma_locked_account_stays(m, c, s.drop_last());
        match s.last() {
            Ok(t) => lemma_locked_account_step(replay(m, s.drop_last()), c, t),
            Err(_) => {},
        }
    }
}

} // verus!

//! A ledger that replays deposits, withdrawals and the dispute lifecycle
//! (dispute, then resolve or charge-back) against per-client accounts, and
//! reports each client's final balances.

/// Decimal amounts written as text.
pub mod amount;
/// Accounts, deposits and the rules that change them.
pub mod accounts;
/// Replaying a stream of transactions on a ledger.
pub mod engine;
/// General facts about the ledger rules.
pub mod theorems;
/// Transaction records and the transactions they stand for.
pub mod transactions;

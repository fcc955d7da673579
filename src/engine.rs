use vstd::prelude::*;

use crate::accounts::{step, ClientInfoStorage, CsvAccount, LedgerModel, csv_row};
use crate::transactions::{ClientId, Transaction, TransactionError};

verus! {

/// The ledger after one decoded record: a transaction is applied, a record
/// that failed to decode is skipped.
pub open spec fn step_result(m: LedgerModel, r: Result<Transaction, TransactionError>) -> LedgerModel {
    match r {
        Ok(t) => step(m, t),
        Err(_) => m,
    }
}

/// The ledger after the records `s`, applied in order from `m`.
pub open spec fn replay(m: LedgerModel, s: Seq<Result<Transaction, TransactionError>>) -> LedgerModel
    decreases s.len(),
{
    if s.len() == 0 {
        m
    } else {
        step_result(replay(m, s.drop_last()), s.last())
    }
}

/// Holds the ledger built from a stream of transactions.
pub struct PaymentEngine {
    client_storage: ClientInfoStorage,
}

impl View for PaymentEngine {
    type V = LedgerModel;

    closed spec fn view(&self) -> LedgerModel {
        self.client_storage@
    }
}

impl PaymentEngine {
    /// The ledger inside is well formed.
    pub closed spec fn wf(&self) -> bool {
        self.client_storage.wf()
    }

    /// Replays the decoded records in order on an empty ledger, skipping
    /// those that failed to decode.
    pub fn run(transactions: Vec<Result<Transaction, TransactionError>>) -> (r: Self)
        ensures
            r.wf(),
            r@ == replay(LedgerModel::empty(), transactions@),
    {
        let mut client_storage = ClientInfoStorage::new();
        let n = transactions.len();
        let mut k: usize = 0;
        while k < n
            invariant
                n == transactions@.len(),
                k <= n,
                client_storage.wf(),
                client_storage@ == replay(LedgerModel::empty(), transactions@.subrange(0, k as int)),
            decreases n - k,
        {
            let t = transactions[k];
            match t {
                Ok(transaction) => client_storage.update(transaction),
                Err(_) => {},
            }
            assert(transactions@.subrange(0, k + 1).drop_last() =~= transactions@.subrange(0, k as int));
            k = k + 1;
        }
        assert(transactions@.subrange(0, n as int) =~= transactions@);
        PaymentEngine { client_storage }
    }

    /// The exported rows of the ledger: one per known client, in no promised
    /// order.
    pub fn csv_records(&self) -> (r: Vec<CsvAccount>)
        requires
            self.wf(),
        ensures
            forall|i: int| 0 <= i < r@.len() ==> self@.contains_key(#[trigger] r@[i].client),
            forall|i: int| 0 <= i < r@.len() ==> #[trigger] r@[i] == csv_row(r@[i].client, self@[r@[i].client].0),
            forall|i: int, j: int| 0 <= i < j < r@.len() ==> #[trigger] r@[i].client != #[trigger] r@[j].client,
            forall|c: ClientId| #[trigger] self@.contains_key(c) ==> exists|i: int| 0 <= i < r@.len() && #[trigger] r@[i].client == c,
    {
        self.client_storage.get_csv_format_accounts()
    }
}

} // verus!

use vstd::prelude::*;

verus! {

/// Identifies a client.
pub type ClientId = u16;

/// Identifies a transaction; unique over the whole input stream.
pub type TransactionId = u32;

/// A signed monetary quantity counted in ten-thousandths of a unit, so that
/// `12345` stands for `1.2345`. Sums of such values are exact, and the four
/// decimals of the exported balances need no rounding.
pub type Amount = i64;

/// The type tag of a raw transaction record.
#[derive(Clone, Copy, Debug, PartialEq, Eq, Structural)]
pub enum TransactionType {
    Deposit,
    Withdrawal,
    Dispute,
    Resolve,
    ChargeBack,
}

/// A raw transaction record, before it is checked for the fields that its
/// type requires.
#[derive(Clone, Copy, Debug, PartialEq, Eq, Structural)]
pub struct CsvTransaction {
    pub transaction_type: TransactionType,
    pub client: ClientId,
    pub tx: TransactionId,
    pub amount: Option<Amount>,
}

/// A well-formed transaction: each variant carries only the fields that its
/// meaning requires.
#[derive(Clone, Copy, Debug, PartialEq, Eq, Structural)]
pub enum Transaction {
    Deposit(DepositInfo),
    Withdrawal(WithdrawalInfo),
    Dispute(DisputeInfo),
    Resolve(ResolveInfo),
    ChargeBack(ChargeBackInfo),
}

/// Credits `amount` to the client's available funds.
#[derive(Clone, Copy, Debug, PartialEq, Eq, Structural)]
pub struct DepositInfo {
    pub client: ClientId,
    pub tx: TransactionId,
    pub amount: Amount,
}

/// Debits `amount` from the client's available funds.
#[derive(Clone, Copy, Debug, PartialEq, Eq, Structural)]
pub struct WithdrawalInfo {
    pub client: ClientId,
    pub tx: TransactionId,
    pub amount: Amount,
}

/// Opens a dispute on the client's deposit `tx`.
#[derive(Clone, Copy, Debug, PartialEq, Eq, Structural)]
pub struct DisputeInfo {
    pub client: ClientId,
    pub tx: TransactionId,
}

/// Closes the open dispute on the client's deposit `tx` in the client's favour.
#[derive(Clone, Copy, Debug, PartialEq, Eq, Structural)]
pub struct ResolveInfo {
    pub client: ClientId,
    pub tx: TransactionId,
}

/// Reverses the disputed deposit `tx` and locks the client's account.
#[derive(Clone, Copy, Debug, PartialEq, Eq, Structural)]
pub struct ChargeBackInfo {
    pub client: ClientId,
    pub tx: TransactionId,
}

/// Why a raw record could not become a `Transaction`.
#[derive(Clone, Copy, Debug, PartialEq, Eq, Structural)]
pub enum TransactionError {
    /// The record could not be decoded at all.
    CsvDeserializeError,
    /// A deposit or withdrawal came without an amount.
    WrongFormat,
}

impl Transaction {
    /// The client that the transaction concerns.
    pub open spec fn client_of(self) -> ClientId {
        match self {
            Transaction::Deposit(i) => i.client,
            Transaction::Withdrawal(i) => i.client,
            Transaction::Dispute(i) => i.client,
            Transaction::Resolve(i) => i.client,
            Transaction::ChargeBack(i) => i.client,
        }
    }

    /// The transaction that a raw record stands for, or why it stands for none.
    pub open spec fn from_record(r: CsvTransaction) -> Result<Transaction, TransactionError> {
        match r.transaction_type {
            TransactionType::Deposit => match r.amount {
                Some(amount) => Ok(
                    Transaction::Deposit(DepositInfo { client: r.client, tx: r.tx, amount }),
                ),
                None => Err(TransactionError::WrongFormat),
            },
            TransactionType::Withdrawal => match r.amount {
                Some(amount) => Ok(
                    Transaction::Withdrawal(WithdrawalInfo { client: r.client, tx: r.tx, amount }),
                ),
                None => Err(TransactionError::WrongFormat),
            },
            TransactionType::Dispute => Ok(
                Transaction::Dispute(DisputeInfo { client: r.client, tx: r.tx }),
            ),
            TransactionType::Resolve => Ok(
                Transaction::Resolve(ResolveInfo { client: r.client, tx: r.tx }),
            ),
            TransactionType::ChargeBack => Ok(
                Transaction::ChargeBack(ChargeBackInfo { client: r.client, tx: r.tx }),
            ),
        }
    }

    /// Turns a raw record into a transaction. A deposit or a withdrawal
    /// without an amount is `WrongFormat`; an amount on the other types is
    /// ignored.
    pub fn try_from(csv_transaction: CsvTransaction) -> (r: Result<Transaction, TransactionError>)
        ensures
            r == Self::from_record(csv_transaction),
            r is Err <==> (csv_transaction.amount is None && (csv_transaction.transaction_type
                == TransactionType::Deposit || csv_transaction.transaction_type
                == TransactionType::Withdrawal)),
    {
        let client = csv_transaction.client;
        let tx = csv_transaction.tx;
        match csv_transaction.transaction_type {
            TransactionType::Deposit => match csv_transaction.amount {
                Some(amount) => Ok(Transaction::Deposit(DepositInfo { client, tx, amount })),
                None => Err(TransactionError::WrongFormat),
            },
            TransactionType::Withdrawal => match csv_transaction.amount {
                Some(amount) => Ok(Transaction::Withdrawal(WithdrawalInfo { client, tx, amount })),
                None => Err(TransactionError::WrongFormat),
            },
            TransactionType::Dispute => Ok(Transaction::Dispute(DisputeInfo { client, tx })),
            TransactionType::Resolve => Ok(Transaction::Resolve(ResolveInfo { client, tx })),
            TransactionType::ChargeBack => Ok(
                Transaction::ChargeBack(ChargeBackInfo { client, tx }),
            ),
        }
    }
}

} // verus!

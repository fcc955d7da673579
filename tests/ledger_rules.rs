use payment_engine::accounts::{ClientInfoStorage, CsvAccount};
use payment_engine::amount::{format_amount, parse_amount};
use payment_engine::engine::PaymentEngine;
use payment_engine::transactions::{
    ChargeBackInfo, CsvTransaction, DepositInfo, DisputeInfo, ResolveInfo, Transaction,
    TransactionError, TransactionType, WithdrawalInfo,
};

fn row(client: u16, available: i64, held: i64, total: i64, locked: bool) -> CsvAccount {
    CsvAccount { client, available, held, total, locked }
}

fn deposit(client: u16, tx: u32, amount: i64) -> Transaction {
    Transaction::Deposit(DepositInfo { client, tx, amount })
}

fn withdrawal(client: u16, tx: u32, amount: i64) -> Transaction {
    Transaction::Withdrawal(WithdrawalInfo { client, tx, amount })
}

fn dispute(client: u16, tx: u32) -> Transaction {
    Transaction::Dispute(DisputeInfo { client, tx })
}

fn resolve(client: u16, tx: u32) -> Transaction {
    Transaction::Resolve(ResolveInfo { client, tx })
}

fn charge_back(client: u16, tx: u32) -> Transaction {
    Transaction::ChargeBack(ChargeBackInfo { client, tx })
}

fn only_row(storage: &ClientInfoStorage) -> CsvAccount {
    let records = storage.get_csv_format_accounts();
    assert_eq!(records.len(), 1);
    records[0]
}

fn after_scenario_a() -> ClientInfoStorage {
    let mut s = ClientInfoStorage::new();
    s.update(deposit(1, 1, 1_2345));
    s.update(deposit(1, 2, 2_0001));
    s
}

#[test]
fn scenario_two_deposits() {
    let s = after_scenario_a();
    assert_eq!(only_row(&s), row(1, 3_2346, 0, 3_2346, false));
}

#[test]
fn scenario_withdrawal_after_deposits() {
    let mut s = after_scenario_a();
    s.update(withdrawal(1, 3, 1_0001));
    assert_eq!(only_row(&s).available, 2_2345);
}

#[test]
fn scenario_dispute_after_withdrawal() {
    let mut s = after_scenario_a();
    s.update(withdrawal(1, 3, 1_0001));
    s.update(dispute(1, 2));
    assert_eq!(only_row(&s), row(1, 2344, 2_0001, 2_2345, false));
}

#[test]
fn scenario_charge_back_of_open_dispute_locks() {
    let mut s = after_scenario_a();
    s.update(withdrawal(1, 3, 1_0001));
    s.update(dispute(1, 2));
    s.update(charge_back(1, 2));
    let locked = row(1, 2344, 0, 2344, true);
    assert_eq!(only_row(&s), locked);
    for t in [deposit(1, 9, 5_0000), withdrawal(1, 10, 1), dispute(1, 1), resolve(1, 2), charge_back(1, 1)] {
        s.update(t);
        assert_eq!(only_row(&s), locked);
    }
}

#[test]
fn scenario_withdrawal_for_unknown_client() {
    let mut s = ClientInfoStorage::new();
    s.update(withdrawal(7, 1, 1_0000));
    assert!(s.get_csv_format_accounts().is_empty());
}

#[test]
fn total_is_available_plus_held() {
    let mut s = ClientInfoStorage::new();
    let ts = [deposit(1, 1, 3_0000), withdrawal(1, 2, 2_5000), dispute(1, 1), deposit(2, 3, 7), dispute(2, 3)];
    for t in ts {
        s.update(t);
        for r in s.get_csv_format_accounts() {
            assert_eq!(r.total, r.available + r.held);
        }
    }
    let mut rows = s.get_csv_format_accounts();
    rows.sort_by_key(|r| r.client);
    assert_eq!(rows, vec![row(1, -2_5000, 3_0000, 5000, false), row(2, 0, 7, 7, false)]);
}

#[test]
fn negative_deposit_creates_nothing() {
    let mut s = ClientInfoStorage::new();
    s.update(deposit(1, 1, -5));
    assert!(s.get_csv_format_accounts().is_empty());
    s.update(deposit(1, 1, 10));
    s.update(deposit(1, 2, -5));
    s.update(dispute(1, 2));
    assert_eq!(only_row(&s), row(1, 10, 0, 10, false));
}

#[test]
fn overdraft_is_refused() {
    let mut s = ClientInfoStorage::new();
    s.update(deposit(1, 1, 10));
    s.update(withdrawal(1, 2, 11));
    assert_eq!(only_row(&s), row(1, 10, 0, 10, false));
    s.update(withdrawal(1, 3, 10));
    assert_eq!(only_row(&s), row(1, 0, 0, 0, false));
}

#[test]
fn second_dispute_is_not_counted() {
    let mut s = ClientInfoStorage::new();
    s.update(deposit(1, 1, 10));
    s.update(dispute(1, 1));
    s.update(dispute(1, 1));
    assert_eq!(only_row(&s), row(1, 0, 10, 10, false));
}

#[test]
fn undisputed_resolve_and_charge_back_are_refused() {
    let mut s = ClientInfoStorage::new();
    s.update(deposit(1, 1, 10));
    s.update(resolve(1, 1));
    s.update(charge_back(1, 1));
    s.update(resolve(1, 8));
    s.update(charge_back(1, 8));
    assert_eq!(only_row(&s), row(1, 10, 0, 10, false));
}

#[test]
fn locked_account_does_not_affect_other_clients() {
    let mut s = ClientInfoStorage::new();
    s.update(deposit(1, 1, 10));
    s.update(dispute(1, 1));
    s.update(charge_back(1, 1));
    s.update(deposit(2, 2, 4));
    let mut rows = s.get_csv_format_accounts();
    rows.sort_by_key(|r| r.client);
    assert_eq!(rows, vec![row(1, 0, 0, 0, true), row(2, 4, 0, 4, false)]);
}

#[test]
fn dispute_resolve_round_trip() {
    let mut s = ClientInfoStorage::new();
    s.update(deposit(1, 1, 10));
    s.update(dispute(1, 1));
    s.update(resolve(1, 1));
    s.update(dispute(1, 1));
    assert_eq!(only_row(&s), row(1, 0, 10, 10, false));
}

#[test]
fn repeated_deposit_id_replaces_record() {
    let mut s = ClientInfoStorage::new();
    s.update(deposit(1, 1, 10));
    s.update(deposit(1, 1, 3));
    s.update(dispute(1, 1));
    assert_eq!(only_row(&s), row(1, 10, 3, 13, false));
}

#[test]
fn deposit_beyond_the_amount_range_is_refused() {
    let mut s = ClientInfoStorage::new();
    s.update(deposit(1, 1, i64::MAX));
    s.update(deposit(1, 2, 1));
    assert_eq!(only_row(&s), row(1, i64::MAX, 0, i64::MAX, false));
}

#[test]
fn parse_amount_reads_decimals() {
    assert_eq!(parse_amount(b"1.2345"), Some(1_2345));
    assert_eq!(parse_amount(b"0.8"), Some(8000));
    assert_eq!(parse_amount(b"-12345.12"), Some(-12345_1200));
    assert_eq!(parse_amount(b"+3"), Some(3_0000));
    assert_eq!(parse_amount(b"7."), Some(7_0000));
    assert_eq!(parse_amount(b".5"), Some(5000));
    assert_eq!(parse_amount(b"0"), Some(0));
    assert_eq!(parse_amount(b"922337203685477.5807"), Some(i64::MAX));
    assert_eq!(parse_amount(b"-922337203685477.5808"), Some(i64::MIN));
}

#[test]
fn parse_amount_refuses_other_text() {
    assert_eq!(parse_amount(b""), None);
    assert_eq!(parse_amount(b"-"), None);
    assert_eq!(parse_amount(b"."), None);
    assert_eq!(parse_amount(b"1.23456"), None);
    assert_eq!(parse_amount(b"1.2.3"), None);
    assert_eq!(parse_amount(b"1a"), None);
    assert_eq!(parse_amount(b" 1"), None);
    assert_eq!(parse_amount(b"922337203685477.5808"), None);
    assert_eq!(parse_amount(b"99999999999999999999999"), None);
}

#[test]
fn try_from_builds_each_variant() {
    let rec = |transaction_type, amount| CsvTransaction { transaction_type, client: 4, tx: 9, amount };
    assert_eq!(Transaction::try_from(rec(TransactionType::Deposit, Some(5))), Ok(deposit(4, 9, 5)));
    assert_eq!(Transaction::try_from(rec(TransactionType::Withdrawal, Some(6))), Ok(withdrawal(4, 9, 6)));
    assert_eq!(Transaction::try_from(rec(TransactionType::Dispute, Some(6))), Ok(dispute(4, 9)));
    assert_eq!(Transaction::try_from(rec(TransactionType::Resolve, None)), Ok(resolve(4, 9)));
    assert_eq!(Transaction::try_from(rec(TransactionType::ChargeBack, None)), Ok(charge_back(4, 9)));
    assert_eq!(Transaction::try_from(rec(TransactionType::Deposit, None)), Err(TransactionError::WrongFormat));
    assert_eq!(Transaction::try_from(rec(TransactionType::Withdrawal, None)), Err(TransactionError::WrongFormat));
}

#[test]
fn engine_replays_and_skips_bad_records() {
    let engine = PaymentEngine::run(vec![
        Ok(deposit(1, 1, 1_0000)),
        Err(TransactionError::CsvDeserializeError),
        Ok(deposit(2, 2, 2_0000)),
        Err(TransactionError::WrongFormat),
        Ok(withdrawal(1, 3, 5000)),
        Ok(withdrawal(2, 4, 1_2000)),
        Ok(dispute(1, 1)),
        Ok(resolve(1, 1)),
        Ok(dispute(2, 2)),
        Ok(charge_back(2, 2)),
    ]);
    let mut rows = engine.csv_records();
    rows.sort_by_key(|r| r.client);
    assert_eq!(rows, vec![row(1, 5000, 0, 5000, false), row(2, -1_2000, 0, -1_2000, true)]);
}

#[test]
fn engine_on_no_records_is_empty() {
    let engine = PaymentEngine::run(Vec::new());
    assert!(engine.csv_records().is_empty());
    assert!(ClientInfoStorage::default().get_csv_format_accounts().is_empty());
}

fn text(a: i64) -> String {
    String::from_utf8(format_amount(a)).unwrap()
}

#[test]
fn format_amount_writes_decimals() {
    assert_eq!(text(8000), "0.8");
    assert_eq!(text(0), "0.0");
    assert_eq!(text(1_2345), "1.2345");
    assert_eq!(text(12345_1200), "12345.12");
    assert_eq!(text(-5000), "-0.5");
    assert_eq!(text(10_0010), "10.001");
    assert_eq!(text(1), "0.0001");
    assert_eq!(text(i64::MIN), "-922337203685477.5808");
    assert_eq!(text(i64::MAX), "922337203685477.5807");
}

#[test]
fn format_then_parse_gives_the_amount_back() {
    for a in [0, 1, -1, 8000, 1_2345, -12345_1200, i64::MAX, i64::MIN] {
        assert_eq!(parse_amount(&format_amount(a)), Some(a));
    }
}

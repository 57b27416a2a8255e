use kraken::data::{TransactionKind, TransactionRecord};
use kraken::engine::LedgerEngine;
use kraken::errors::KrakenError;
use kraken::history::TransactionHistory;
use kraken::parse::parse_record_line;
use kraken::report::{format_units, report};

fn deposit(client: u16, tx: u32, units: u64) -> TransactionRecord {
    TransactionRecord::new(TransactionKind::DEPOSIT, client, tx, Some(units)).unwrap()
}

fn withdraw(client: u16, tx: u32, units: u64) -> TransactionRecord {
    TransactionRecord::new(TransactionKind::WITHDRAW, client, tx, Some(units)).unwrap()
}

fn dispute(client: u16, tx: u32) -> TransactionRecord {
    TransactionRecord::new(TransactionKind::DISPUTE, client, tx, None).unwrap()
}

fn resolve(client: u16, tx: u32) -> TransactionRecord {
    TransactionRecord::new(TransactionKind::RESOLVE, client, tx, None).unwrap()
}

fn chargeback(client: u16, tx: u32) -> TransactionRecord {
    TransactionRecord::new(TransactionKind::CHARGEBACK, client, tx, None).unwrap()
}

#[test]
fn deposits_and_withdrawal() {
    let mut engine = LedgerEngine::new();
    engine.process(&deposit(1, 1, 50000));
    engine.process(&deposit(1, 2, 30000));
    engine.process(&withdraw(1, 3, 40000));
    let a = engine.account(1);
    assert_eq!(a.available, 40000);
    assert_eq!(a.held, 0);
    assert_eq!(a.total(), 40000);
    assert!(!a.locked);
}

#[test]
fn dispute_can_drive_available_negative() {
    let mut engine = LedgerEngine::new();
    engine.process(&deposit(1, 1, 50000));
    engine.process(&deposit(1, 2, 30000));
    engine.process(&withdraw(1, 3, 40000));
    engine.process(&dispute(1, 1));
    let a = engine.account(1);
    assert_eq!(a.available, -10000);
    assert_eq!(a.held, 50000);
    assert_eq!(a.total(), 40000);
    assert!(!a.locked);
}

#[test]
fn chargeback_locks_account_and_removes_total() {
    let mut engine = LedgerEngine::new();
    engine.process(&deposit(1, 1, 50000));
    engine.process(&deposit(1, 2, 30000));
    engine.process(&withdraw(1, 3, 40000));
    engine.process(&dispute(1, 1));
    engine.process(&chargeback(1, 1));
    let a = engine.account(1);
    assert_eq!(a.held, 0);
    assert_eq!(a.total(), -10000);
    assert_eq!(a.available, -10000);
    assert!(a.locked);
    // A locked account accepts no further mutation of any kind.
    engine.process(&deposit(1, 4, 100000));
    let a2 = engine.account(1);
    assert_eq!(a2.available, -10000);
    assert_eq!(a2.held, 0);
    assert!(a2.locked);
}

#[test]
fn dispute_then_resolve_restores_balances() {
    let mut engine = LedgerEngine::new();
    engine.process(&deposit(7, 10, 123456));
    engine.process(&deposit(7, 11, 7890));
    let before = engine.account(7);
    engine.process(&dispute(7, 10));
    let held = engine.account(7);
    assert_eq!(held.held, 123456);
    engine.process(&resolve(7, 10));
    let after = engine.account(7);
    assert_eq!(after.available, before.available);
    assert_eq!(after.held, before.held);
    assert_eq!(after.locked, before.locked);
    // The transaction can be disputed again after a resolve.
    engine.process(&dispute(7, 10));
    assert_eq!(engine.account(7).held, 123456);
}

#[test]
fn invalid_disputes_are_no_ops() {
    let mut engine = LedgerEngine::new();
    engine.process(&deposit(1, 1, 50000));
    engine.process(&deposit(2, 2, 70000));
    // Absent transaction.
    engine.process(&dispute(1, 99));
    // Transaction of a different client.
    engine.process(&dispute(1, 2));
    // Resolve and chargeback of an undisputed transaction.
    engine.process(&resolve(1, 1));
    engine.process(&chargeback(1, 1));
    let a1 = engine.account(1);
    let a2 = engine.account(2);
    assert_eq!(a1.available, 50000);
    assert_eq!(a1.held, 0);
    assert!(!a1.locked);
    assert_eq!(a2.available, 70000);
    assert_eq!(a2.held, 0);
    // Disputing an already disputed transaction changes nothing.
    engine.process(&dispute(1, 1));
    engine.process(&dispute(1, 1));
    let a3 = engine.account(1);
    assert_eq!(a3.available, 0);
    assert_eq!(a3.held, 50000);
}

#[test]
fn duplicate_tx_only_first_applies() {
    let mut engine = LedgerEngine::new();
    engine.process(&deposit(1, 1, 50000));
    engine.process(&deposit(1, 1, 99999));
    assert_eq!(engine.account(1).available, 50000);
    // A withdrawal reusing the id is discarded too.
    engine.process(&withdraw(1, 1, 10000));
    assert_eq!(engine.account(1).available, 50000);
}

#[test]
fn insufficient_funds_withdrawal_is_discarded() {
    let mut engine = LedgerEngine::new();
    engine.process(&deposit(1, 1, 50000));
    engine.process(&withdraw(1, 2, 50001));
    assert_eq!(engine.account(1).available, 50000);
    // The discarded withdrawal's id was not recorded, so it can be reused.
    engine.process(&deposit(1, 2, 10000));
    assert_eq!(engine.account(1).available, 60000);
}

#[test]
fn conservation_of_funds_per_client() {
    let mut engine = LedgerEngine::new();
    let records = vec![
        deposit(1, 1, 100000),
        deposit(2, 2, 200000),
        withdraw(1, 3, 30000),
        withdraw(2, 4, 999999999), // discarded: insufficient funds
        deposit(1, 5, 5),
        withdraw(2, 6, 200000),
    ];
    engine.process_all(&records);
    let a1 = engine.account(1);
    let a2 = engine.account(2);
    assert_eq!(a1.available + a1.held, 100000 - 30000 + 5);
    assert_eq!(a2.available + a2.held, 200000 - 200000);
}

#[test]
fn total_equals_available_plus_held_after_every_record() {
    let records = vec![
        deposit(1, 1, 50000),
        deposit(1, 2, 30000),
        withdraw(1, 3, 40000),
        dispute(1, 1),
        resolve(1, 1),
        dispute(1, 2),
        chargeback(1, 2),
        deposit(1, 9, 10000),
    ];
    let mut engine = LedgerEngine::new();
    for r in &records {
        engine.process(r);
        let a = engine.account(1);
        assert_eq!(a.total(), a.available + a.held);
    }
}

#[test]
fn report_rows_sorted_with_recomputed_totals() {
    let mut engine = LedgerEngine::new();
    engine.process(&deposit(5, 1, 10000));
    engine.process(&deposit(2, 2, 20000));
    engine.process(&deposit(9, 3, 30000));
    engine.process(&dispute(2, 2));
    let rows = report(&engine);
    assert_eq!(rows.len(), 3);
    assert_eq!(rows[0].client, 2);
    assert_eq!(rows[1].client, 5);
    assert_eq!(rows[2].client, 9);
    assert_eq!(rows[0].available, 0);
    assert_eq!(rows[0].held, 20000);
    assert_eq!(rows[0].total, 20000);
    assert_eq!(rows[1].total, rows[1].available + rows[1].held);
    assert!(!rows[0].locked);
}

#[test]
fn report_includes_clients_of_discarded_records() {
    let mut engine = LedgerEngine::new();
    // The dispute is discarded, but client 3 appeared in the input.
    engine.process(&dispute(3, 1));
    let rows = report(&engine);
    assert_eq!(rows.len(), 1);
    assert_eq!(rows[0].client, 3);
    assert_eq!(rows[0].available, 0);
    assert_eq!(rows[0].held, 0);
    assert!(!rows[0].locked);
}

#[test]
fn history_rejects_duplicate_ids() {
    let mut history = TransactionHistory::new();
    assert!(history.record(1, 1, 50000).is_ok());
    assert_eq!(history.record(1, 1, 70000), Err(KrakenError::DuplicateTx));
    let entry = history.get(1).unwrap();
    assert_eq!(entry.client, 1);
    assert_eq!(entry.amount, 50000);
}

#[test]
fn rows_from_text_through_engine_to_report() {
    let lines = [
        "deposit,1,1,5.0",
        "deposit,1,2,3.0",
        "withdraw,1,3,4.0",
        "dispute,1,1,",
        "chargeback,1,1",
    ];
    let mut records = Vec::new();
    for l in lines {
        records.push(parse_record_line(l).unwrap());
    }
    let mut engine = LedgerEngine::new();
    engine.process_all(&records);
    let rows = report(&engine);
    assert_eq!(rows.len(), 1);
    let r = rows[0];
    assert_eq!(r.client, 1);
    assert_eq!(format_units(r.available), "-1.0000");
    assert_eq!(format_units(r.held), "0.0000");
    assert_eq!(format_units(r.total), "-1.0000");
    assert!(r.locked);
}

#[test]
fn record_requires_amount_exactly_on_monetary_kinds() {
    assert!(TransactionRecord::new(TransactionKind::DEPOSIT, 1, 1, Some(1)).is_ok());
    assert_eq!(
        TransactionRecord::new(TransactionKind::DEPOSIT, 1, 1, None),
        Err(KrakenError::MalformedRecord)
    );
    assert_eq!(
        TransactionRecord::new(TransactionKind::DISPUTE, 1, 1, Some(1)),
        Err(KrakenError::MalformedRecord)
    );
    assert!(TransactionRecord::new(TransactionKind::CHARGEBACK, 1, 1, None).is_ok());
}

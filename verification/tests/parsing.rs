use kraken::data::{Transaction, TransactionKind, DepositTransaction, DisputeTransaction, ResolveTransaction, ChargebackTransaction, WithdrawTransaction, str_eq};
use kraken::errors::KrakenError;
use kraken::parse::{parse_amount, parse_record_fields, parse_record_line, split_commas, trimmed};
use kraken::report::format_units;

#[test]
fn amounts_parse_to_ten_thousandths() {
    assert_eq!(parse_amount("5.0"), Ok(50000));
    assert_eq!(parse_amount("1"), Ok(10000));
    assert_eq!(parse_amount("0.0001"), Ok(1));
    assert_eq!(parse_amount(" 3.14 "), Ok(31400));
    assert_eq!(parse_amount("2.5678"), Ok(25678));
    assert_eq!(parse_amount("0"), Ok(0));
    assert_eq!(parse_amount("10.05"), Ok(100500));
}

#[test]
fn malformed_amounts_are_rejected() {
    assert_eq!(parse_amount(""), Err(KrakenError::MalformedRecord));
    assert_eq!(parse_amount("abc"), Err(KrakenError::MalformedRecord));
    assert_eq!(parse_amount("-1.0"), Err(KrakenError::MalformedRecord));
    assert_eq!(parse_amount("1."), Err(KrakenError::MalformedRecord));
    assert_eq!(parse_amount(".5"), Err(KrakenError::MalformedRecord));
    assert_eq!(parse_amount("1.23456"), Err(KrakenError::MalformedRecord));
    assert_eq!(parse_amount("1.2.3"), Err(KrakenError::MalformedRecord));
    assert_eq!(parse_amount("1 2"), Err(KrakenError::MalformedRecord));
    // Larger than the 64-bit amount width.
    assert_eq!(parse_amount("99999999999999999999"), Err(KrakenError::MalformedRecord));
}

#[test]
fn rows_parse_into_records() {
    let r = parse_record_line("deposit, 1, 1, 5.0").unwrap();
    assert_eq!(r.kind, TransactionKind::DEPOSIT);
    assert_eq!(r.client, 1);
    assert_eq!(r.tx, 1);
    assert_eq!(r.amount, Some(50000));

    let w = parse_record_line("withdraw,42,7,0.5").unwrap();
    assert_eq!(w.kind, TransactionKind::WITHDRAW);
    assert_eq!(w.amount, Some(5000));

    // A reference record with an empty trailing amount column, or none.
    let d = parse_record_line("dispute, 1, 1,").unwrap();
    assert_eq!(d.kind, TransactionKind::DISPUTE);
    assert_eq!(d.amount, None);
    let d2 = parse_record_line("dispute,1,1").unwrap();
    assert_eq!(d2.amount, None);
}

#[test]
fn malformed_rows_are_rejected() {
    // Missing amount on a monetary kind.
    assert_eq!(parse_record_line("deposit,1,1"), Err(KrakenError::MalformedRecord));
    assert_eq!(parse_record_line("deposit,1,1,"), Err(KrakenError::MalformedRecord));
    // Amount present on a reference kind.
    assert_eq!(parse_record_line("dispute,1,1,5.0"), Err(KrakenError::MalformedRecord));
    // Unknown or wrongly cased kind.
    assert_eq!(parse_record_line("frob,1,1,5.0"), Err(KrakenError::MalformedRecord));
    assert_eq!(parse_record_line("Deposit,1,1,5.0"), Err(KrakenError::MalformedRecord));
    // Client id beyond 16 bits, transaction id beyond 32 bits.
    assert_eq!(parse_record_line("deposit,65536,1,5.0"), Err(KrakenError::MalformedRecord));
    assert_eq!(parse_record_line("deposit,1,4294967296,5.0"), Err(KrakenError::MalformedRecord));
    // Too few or too many columns.
    assert_eq!(parse_record_line("deposit,1"), Err(KrakenError::MalformedRecord));
    assert_eq!(parse_record_line("deposit,1,1,5.0,x"), Err(KrakenError::MalformedRecord));
    assert_eq!(parse_record_line(""), Err(KrakenError::MalformedRecord));
}

#[test]
fn fields_parse_with_whitespace_tolerated() {
    let r = parse_record_fields(" deposit ", " 65535 ", " 4294967295 ", Some(" 1.0 ")).unwrap();
    assert_eq!(r.client, 65535);
    assert_eq!(r.tx, 4294967295);
    assert_eq!(r.amount, Some(10000));
    let d = parse_record_fields("resolve", "1", "2", None).unwrap();
    assert_eq!(d.kind, TransactionKind::RESOLVE);
    assert_eq!(d.tx, 2);
}

#[test]
fn splitting_keeps_every_column() {
    let parts = split_commas("a,b c,,d");
    assert_eq!(parts, vec![(0, 1), (2, 5), (6, 6), (7, 8)]);
    assert_eq!(split_commas(""), vec![(0, 0)]);
    assert_eq!(split_commas(","), vec![(0, 0), (1, 1)]);
}

#[test]
fn trimming_removes_surrounding_whitespace() {
    assert_eq!(trimmed("  x y\t"), "x y");
    assert_eq!(trimmed("\r"), "");
    assert_eq!(trimmed("abc"), "abc");
}

#[test]
fn amounts_format_to_four_decimal_places() {
    assert_eq!(format_units(50000), "5.0000");
    assert_eq!(format_units(0), "0.0000");
    assert_eq!(format_units(-10000), "-1.0000");
    assert_eq!(format_units(1), "0.0001");
    assert_eq!(format_units(12345), "1.2345");
    assert_eq!(format_units(40000), "4.0000");
    assert_eq!(format_units(123456789), "12345.6789");
    assert_eq!(format_units(-5), "-0.0005");
}

#[test]
fn kind_tags_round_trip() {
    assert_eq!(TransactionKind::try_from(0), Ok(TransactionKind::DEPOSIT));
    assert_eq!(TransactionKind::try_from(1), Ok(TransactionKind::WITHDRAW));
    assert_eq!(TransactionKind::try_from(2), Ok(TransactionKind::DISPUTE));
    assert_eq!(TransactionKind::try_from(3), Ok(TransactionKind::RESOLVE));
    assert_eq!(TransactionKind::try_from(4), Ok(TransactionKind::CHARGEBACK));
    assert_eq!(TransactionKind::try_from(5), Err(KrakenError::EnumError));
    for v in 0u8..5 {
        assert_eq!(TransactionKind::try_from(v).unwrap().into(), v);
    }
}

#[test]
fn kind_names_parse_case_sensitively() {
    assert_eq!(TransactionKind::try_from_str("deposit"), Ok(TransactionKind::DEPOSIT));
    assert_eq!(TransactionKind::try_from_str("chargeback"), Ok(TransactionKind::CHARGEBACK));
    assert_eq!(TransactionKind::try_from_str("DEPOSIT"), Err(KrakenError::EnumError));
    assert_eq!(TransactionKind::try_from_str("deposits"), Err(KrakenError::EnumError));
    assert!(str_eq("abc", "abc"));
    assert!(!str_eq("abc", "abd"));
    assert!(!str_eq("abc", "ab"));
}

#[test]
fn per_kind_transaction_views() {
    let d = DepositTransaction { kind: 0, tx: 9, amount: 50000, client: 3 };
    assert_eq!(d.get_kind(), 0);
    assert_eq!(d.get_tx(), 9);
    assert_eq!(d.get_amount(), Some(50000));
    assert_eq!(d.get_client(), 3);
    let w = WithdrawTransaction { kind: 1, tx: 10, amount: 20000, client: 3 };
    assert_eq!(w.get_amount(), Some(20000));
    let dis = DisputeTransaction { kind: 2, tx: 9, client: 3 };
    assert_eq!(dis.get_amount(), None);
    let res = ResolveTransaction { kind: 3, tx: 9, client: 3 };
    assert_eq!(res.get_amount(), None);
    let cb = ChargebackTransaction { kind: 4, tx: 9, client: 3 };
    assert_eq!(cb.get_amount(), None);
    assert_eq!(cb.get_client(), 3);
}

#[test]
fn conversions_along_the_dispute_lifecycle() {
    let d = DepositTransaction { kind: 0, tx: 9, amount: 50000, client: 3 };
    let dis: DisputeTransaction = d.into();
    assert_eq!(dis.get_kind(), 2);
    assert_eq!(dis.tx, 9);
    assert_eq!(dis.client, 3);
    let w = WithdrawTransaction { kind: 1, tx: 10, amount: 100, client: 3 };
    let dis2 = DisputeTransaction::from(w);
    assert_eq!(dis2.get_kind(), 2);
    assert_eq!(dis2.tx, 10);
    let res = ResolveTransaction::from(dis);
    assert_eq!(res.get_kind(), 3);
    assert_eq!(res.tx, 9);
    assert_eq!(res.client, 3);
    let cb2 = ChargebackTransaction::from(dis2);
    assert_eq!(cb2.get_kind(), 4);
    assert_eq!(cb2.tx, 10);
    assert_eq!(cb2.client, 3);
}

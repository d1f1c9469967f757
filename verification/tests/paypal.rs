use comdirect_ynab::date::Date;
use comdirect_ynab::paypal::{
    build_lookup, detect_columns, match_transaction, parse_amount, parse_csv_data, parse_date,
    ColumnPositions, PaypalError, PaypalLookup, PaypalTransaction,
};

fn ymd(year: i32, month: u32, day: u32) -> Date {
    Date { year, month, day }
}

#[test]
fn parse_date_german_format() {
    assert_eq!(parse_date("15.03.2026"), Some(ymd(2026, 3, 15)));
}

#[test]
fn parse_date_iso_format() {
    assert_eq!(parse_date("2026-03-15"), Some(ymd(2026, 3, 15)));
}

#[test]
fn parse_date_other_formats_and_failures() {
    assert_eq!(parse_date(" 15/03/2026 "), Some(ymd(2026, 3, 15)));
    assert_eq!(parse_date("03/25/2026"), Some(ymd(2026, 3, 25)));
    assert_eq!(parse_date("31.02.2026"), None);
    assert_eq!(parse_date("yesterday"), None);
}

#[test]
fn parse_amount_german_format() {
    assert_eq!(parse_amount("-1.234,56"), Some(-1_234_560));
    assert_eq!(parse_amount("25,50"), Some(25_500));
}

#[test]
fn parse_amount_english_format() {
    assert_eq!(parse_amount("-1234.56"), Some(-1_234_560));
    assert_eq!(parse_amount("25.50"), Some(25_500));
}

#[test]
fn parse_amount_spaces_and_thousands() {
    assert_eq!(parse_amount("\u{a0}1,234.5 "), Some(1_234_500));
    assert_eq!(parse_amount("1 234,5"), Some(1_234_500));
    assert_eq!(parse_amount("n/a"), None);
}

#[test]
fn match_transaction_exact_date() {
    let date = ymd(2026, 3, 15);
    let mut lookup = PaypalLookup::new();
    lookup.insert((-25500, date), vec!["Amazon.de".to_string()]);
    assert_eq!(match_transaction(&lookup, -25500, date), Some("Amazon.de".to_string()));
}

#[test]
fn match_transaction_adjacent_day() {
    let date = ymd(2026, 3, 15);
    let prev = ymd(2026, 3, 14);
    let mut lookup = PaypalLookup::new();
    lookup.insert((-25500, prev), vec!["Amazon.de".to_string()]);
    assert_eq!(match_transaction(&lookup, -25500, date), Some("Amazon.de".to_string()));
}

#[test]
fn match_transaction_ambiguous() {
    let date = ymd(2026, 3, 15);
    let mut lookup = PaypalLookup::new();
    lookup.insert((-25500, date), vec!["Amazon.de".to_string(), "eBay".to_string()]);
    assert_eq!(match_transaction(&lookup, -25500, date), None);
}

#[test]
fn match_transaction_no_match() {
    let date = ymd(2026, 3, 15);
    let lookup = PaypalLookup::new();
    assert_eq!(match_transaction(&lookup, -25500, date), None);
}

#[test]
fn match_transaction_prefers_day_before_over_day_after() {
    let mut lookup = PaypalLookup::new();
    lookup.insert((-100, ymd(2026, 3, 1)), vec!["After".to_string()]);
    lookup.insert((-100, ymd(2026, 2, 28)), vec!["Before".to_string()]);
    assert_eq!(match_transaction(&lookup, -100, ymd(2026, 2, 28)), Some("Before".to_string()));
    assert_eq!(match_transaction(&lookup, -100, ymd(2026, 2, 27)), Some("Before".to_string()));
    assert_eq!(match_transaction(&lookup, -100, ymd(2026, 3, 2)), Some("After".to_string()));
}

#[test]
fn build_lookup_groups_names_in_order() {
    let d = ymd(2026, 3, 15);
    let txs = vec![
        PaypalTransaction { date: d, name: "A".to_string(), amount_milli: -1 },
        PaypalTransaction { date: d, name: "B".to_string(), amount_milli: -2 },
        PaypalTransaction { date: d, name: "C".to_string(), amount_milli: -1 },
    ];
    let lookup = build_lookup(&txs);
    assert_eq!(lookup.get((-1, d)), Some(&vec!["A".to_string(), "C".to_string()]));
    assert_eq!(match_transaction(&lookup, -2, d), Some("B".to_string()));
    assert_eq!(match_transaction(&lookup, -1, d), None);
}

#[test]
fn parse_csv_from_string() {
    let csv_data = "Datum,Name,Brutto,Währung\n\
                    15.03.2026,Amazon.de,\"-25,50\",EUR\n\
                    16.03.2026,Netflix,\"-9,99\",EUR\n";
    let transactions = parse_csv_data(csv_data.as_bytes()).unwrap();
    assert_eq!(transactions.len(), 2);
    assert_eq!(transactions[0].name, "Amazon.de");
    assert_eq!(transactions[0].amount_milli, -25500);
    assert_eq!(transactions[0].date, ymd(2026, 3, 15));
    assert_eq!(transactions[1].name, "Netflix");
}

#[test]
fn parse_csv_skips_unusable_rows() {
    let csv_data = "Date,Recipient,Gross\n\
                    2026-03-15,,1.00\n\
                    someday,Shop,1.00\n\
                    2026-03-16,Shop,lots\n\
                    2026-03-17, Shop ,2.5\n";
    let transactions = parse_csv_data(csv_data.as_bytes()).unwrap();
    assert_eq!(transactions.len(), 1);
    assert_eq!(transactions[0].name, "Shop");
    assert_eq!(transactions[0].amount_milli, 2500);
}

#[test]
fn parse_csv_reports_missing_columns() {
    assert_eq!(parse_csv_data(b"Name,Brutto\nx,1\n").unwrap_err(), PaypalError::MissingDateColumn);
    assert_eq!(parse_csv_data(b"Datum,Brutto\n").unwrap_err(), PaypalError::MissingNameColumn);
    assert_eq!(parse_csv_data(b"Datum,Name\n").unwrap_err(), PaypalError::MissingAmountColumn);
}

#[test]
fn detect_columns_handles_bom() {
    let record = vec!["\u{feff}Datum".to_string(), "Name".to_string(), "Brutto".to_string()];
    let cols = detect_columns(&record).unwrap();
    assert_eq!(cols.date, 0);
    assert_eq!(cols.name, 1);
    assert_eq!(cols.gross, 2);
}

#[test]
fn detect_columns_takes_first_match_case_insensitively() {
    let record = vec![
        " GROSS AMOUNT ".to_string(),
        "Empfänger".to_string(),
        "DATE".to_string(),
        "Datum".to_string(),
    ];
    assert_eq!(detect_columns(&record).unwrap(), ColumnPositions { date: 2, name: 1, gross: 0 });
}

#[test]
fn parse_csv_finds_columns_by_header_not_place() {
    let in_order = "Datum,Name,Brutto,Währung\n\
                    15.03.2026,Amazon.de,\"-25,50\",EUR\n\
                    16.03.2026,Netflix,\"-9,99\",EUR\n";
    let reordered = "Währung,Brutto,Datum,Name\n\
                     EUR,\"-25,50\",15.03.2026,Amazon.de\n\
                     EUR,\"-9,99\",16.03.2026,Netflix\n";
    let a = parse_csv_data(in_order.as_bytes()).unwrap();
    let b = parse_csv_data(reordered.as_bytes()).unwrap();
    assert_eq!(a.len(), b.len());
    for (x, y) in a.iter().zip(b.iter()) {
        assert_eq!((x.date, &x.name, x.amount_milli), (y.date, &y.name, y.amount_milli));
    }
    assert_eq!(
        parse_csv_data(b"Brutto,Name\nx,1\n").unwrap_err(),
        parse_csv_data(b"Name,Brutto\n1,x\n").unwrap_err()
    );
}

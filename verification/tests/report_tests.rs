use stock_report::report::{csv_header, no_quotes_message, process_symbol, run_report, SymbolOutcome};
use stock_report::series::Quote;
use stock_report::timefmt::parse_period_start;

fn q(timestamp: i64, adjclose: i64) -> Quote {
    Quote { timestamp, adjclose }
}

#[test]
fn header_line_is_fixed() {
    assert_eq!(csv_header(), "period start,symbol,price,change %,min,max,30d avg");
}

#[test]
fn diagnostic_references_the_symbol() {
    assert_eq!(no_quotes_message(&String::from("UBER")), "No quotes found 'UBER'");
}

#[test]
fn end_to_end_row_for_two_quotes() {
    // quotes (t1, 100.0), (t2, 110.0) with t1 < t2, fixed-point scale 10_000
    let quotes = Some(vec![q(1, 1_000_000), q(2, 1_100_000)]);
    match process_symbol(&String::from("ACME"), 42, &quotes) {
        SymbolOutcome::Row(row) => {
            assert_eq!(row.symbol, "ACME");
            assert_eq!(row.period_start, 42);
            // price = 110.0
            assert_eq!(row.last_price, 1_100_000);
            // change % = 10.0
            assert_eq!(row.pct_change_pct, 100_000);
            // min = 100.0, max = 110.0
            assert_eq!(row.min_price, 1_000_000);
            assert_eq!(row.max_price, 1_100_000);
            // two observations never fill the 30-observation window
            assert_eq!(row.trailing_sma, 0);
        }
        SymbolOutcome::NoQuotes(_) => panic!("expected a row"),
    }
}

#[test]
fn quotes_are_sorted_before_the_statistics_run() {
    // same quotes, handed over newest first: the row must not change
    let quotes = Some(vec![q(2, 1_100_000), q(1, 1_000_000)]);
    match process_symbol(&String::from("ACME"), 42, &quotes) {
        SymbolOutcome::Row(row) => {
            assert_eq!(row.last_price, 1_100_000);
            assert_eq!(row.pct_change_pct, 100_000);
        }
        SymbolOutcome::NoQuotes(_) => panic!("expected a row"),
    }
}

#[test]
fn trailing_sma_appears_once_the_window_fits() {
    // 31 quotes: 0.0 then thirty times 1.0
    let mut quotes = Vec::new();
    quotes.push(q(0, 0));
    for t in 1..=30 {
        quotes.push(q(t, 10_000));
    }
    match process_symbol(&String::from("ACME"), 0, &Some(quotes)) {
        SymbolOutcome::Row(row) => {
            // last 30 observations are all 1.0
            assert_eq!(row.trailing_sma, 10_000);
            assert_eq!(row.last_price, 10_000);
            // first price 0.0: denominator substituted, relative equals absolute
            assert_eq!(row.pct_change_pct, 1_000_000);
            assert_eq!(row.min_price, 0);
            assert_eq!(row.max_price, 10_000);
        }
        SymbolOutcome::NoQuotes(_) => panic!("expected a row"),
    }
}

#[test]
fn failed_fetch_and_empty_fetch_both_yield_the_diagnostic() {
    match process_symbol(&String::from("XYZ"), 0, &None) {
        SymbolOutcome::NoQuotes(msg) => assert_eq!(msg, "No quotes found 'XYZ'"),
        SymbolOutcome::Row(_) => panic!("expected a diagnostic"),
    }
    match process_symbol(&String::from("XYZ"), 0, &Some(vec![])) {
        SymbolOutcome::NoQuotes(msg) => assert_eq!(msg, "No quotes found 'XYZ'"),
        SymbolOutcome::Row(_) => panic!("expected a diagnostic"),
    }
}

#[test]
fn failures_are_isolated_and_row_order_follows_symbol_order() {
    // timestamps deliberately unrelated to the symbol order
    let entries = vec![
        (String::from("A"), Some(vec![q(900, 10_000), q(901, 20_000)])),
        (String::from("B"), None),
        (String::from("C"), Some(vec![q(1, 30_000)])),
        (String::from("D"), Some(vec![])),
    ];
    let report = run_report(7, &entries);
    assert_eq!(report.rows.len(), 2);
    assert_eq!(report.rows[0].symbol, "A");
    assert_eq!(report.rows[0].period_start, 7);
    assert_eq!(report.rows[1].symbol, "C");
    assert_eq!(report.rows[1].last_price, 30_000);
    assert_eq!(report.diagnostics.len(), 2);
    assert_eq!(report.diagnostics[0], "No quotes found 'B'");
    assert_eq!(report.diagnostics[1], "No quotes found 'D'");
}

#[test]
fn period_start_parses_known_dates() {
    assert_eq!(parse_period_start("1970-01-01T00:00:00Z"), Some(0));
    assert_eq!(parse_period_start("2020-01-01T00:00:00Z"), Some(1_577_836_800));
    assert_eq!(parse_period_start("not a date"), None);
    assert_eq!(parse_period_start(""), None);
}

use stock_report::render::{csv_line, fmt_fixed, fmt_fixed_wide};
use stock_report::report::{process_symbol, SymbolOutcome};
use stock_report::series::Quote;

fn q(timestamp: i64, adjclose: i64) -> Quote {
    Quote { timestamp, adjclose }
}

#[test]
fn fixed_point_values_render_as_decimals() {
    assert_eq!(fmt_fixed(0), "0");
    assert_eq!(fmt_fixed(10_000), "1");
    assert_eq!(fmt_fixed(1_100_000), "110");
    assert_eq!(fmt_fixed(15_000), "1.5");
    assert_eq!(fmt_fixed(-12_500), "-1.25");
    assert_eq!(fmt_fixed(5), "0.0005");
    assert_eq!(fmt_fixed(10_010), "1.001");
    assert_eq!(fmt_fixed(-10_000), "-1");
    assert_eq!(fmt_fixed_wide(100_000), "10");
    assert_eq!(fmt_fixed_wide(-5_000), "-0.5");
}

#[test]
fn csv_line_renders_the_whole_row() {
    let quotes = Some(vec![q(1, 1_000_000), q(2, 1_100_000)]);
    match process_symbol(&String::from("ACME"), 42, &quotes) {
        SymbolOutcome::Row(row) => {
            let line = csv_line(&row).expect("period start is a valid timestamp");
            assert_eq!(line, "1970-01-01T00:00:42+00:00,ACME,110,10%,$100,$110,$0");
        }
        SymbolOutcome::NoQuotes(_) => panic!("expected a row"),
    }
}

use stock_report::series::{PriceSeries, Quote};

fn q(timestamp: i64, adjclose: i64) -> Quote {
    Quote { timestamp, adjclose }
}

#[test]
fn from_prices_keeps_the_given_order() {
    let s = PriceSeries::from_prices(vec![30_000, 10_000, 20_000]);
    assert_eq!(s.len(), 3);
    assert_eq!(s.price_at(0), 30_000);
    assert_eq!(s.price_at(1), 10_000);
    assert_eq!(s.price_at(2), 20_000);
}

#[test]
fn from_quotes_sorts_by_timestamp() {
    let quotes = vec![q(3, 30_000), q(1, 10_000), q(2, 20_000)];
    let s = PriceSeries::from_quotes(&quotes);
    assert_eq!(s.len(), 3);
    assert_eq!(s.price_at(0), 10_000);
    assert_eq!(s.price_at(1), 20_000);
    assert_eq!(s.price_at(2), 30_000);
}

#[test]
fn from_quotes_keeps_duplicate_timestamps() {
    let quotes = vec![q(5, 10_000), q(5, 20_000)];
    let s = PriceSeries::from_quotes(&quotes);
    assert_eq!(s.len(), 2);
    let (a, b) = (s.price_at(0), s.price_at(1));
    assert!((a == 10_000 && b == 20_000) || (a == 20_000 && b == 10_000));
}

#[test]
fn from_quotes_empty_gives_empty_series() {
    let s = PriceSeries::from_quotes(&vec![]);
    assert!(s.is_empty());
    assert_eq!(s.len(), 0);
}

#[test]
fn from_quotes_passes_zero_and_negative_prices_through() {
    let quotes = vec![q(2, -10_000), q(1, 0)];
    let s = PriceSeries::from_quotes(&quotes);
    assert_eq!(s.price_at(0), 0);
    assert_eq!(s.price_at(1), -10_000);
}

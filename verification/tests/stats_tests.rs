use stock_report::series::PriceSeries;
use stock_report::stats::{max, min, n_window_sma, price_diff};

fn series(prices: Vec<i64>) -> PriceSeries {
    PriceSeries::from_prices(prices)
}

#[test]
fn empty_series_all_statistics_absent() {
    let s = series(vec![]);
    assert_eq!(price_diff(&s), None);
    assert_eq!(max(&s), None);
    assert_eq!(min(&s), None);
    assert_eq!(n_window_sma(0, &s), None);
    assert_eq!(n_window_sma(1, &s), None);
    assert_eq!(n_window_sma(2, &s), None);
    assert_eq!(n_window_sma(30, &s), None);
}

#[test]
fn price_diff_zero_first_price_substitutes_unit_denominator() {
    // prices 0.0 and 10.0 in fixed-point (scale 10_000)
    let s = series(vec![0, 100_000]);
    assert_eq!(price_diff(&s), Some((100_000, 100_000)));
}

#[test]
fn price_diff_ordinary_relative_change() {
    // prices 5.0 and 10.0: absolute 5.0, relative 1.0
    let s = series(vec![50_000, 100_000]);
    assert_eq!(price_diff(&s), Some((50_000, 10_000)));
}

#[test]
fn price_diff_ignores_the_path_between_ends() {
    let noisy = series(vec![50_000, 999_999, -4, 100_000]);
    let direct = series(vec![50_000, 100_000]);
    assert_eq!(price_diff(&noisy), price_diff(&direct));
}

#[test]
fn price_diff_negative_first_price() {
    // prices -1.0 and -3.0: absolute -2.0, relative 2.0
    let s = series(vec![-10_000, -30_000]);
    assert_eq!(price_diff(&s), Some((-20_000, 20_000)));
}

#[test]
fn max_and_min_over_mixed_signs() {
    // prices 3.0, -1.0, 7.0, 2.0
    let s = series(vec![30_000, -10_000, 70_000, 20_000]);
    assert_eq!(max(&s), Some(70_000));
    assert_eq!(min(&s), Some(-10_000));
}

#[test]
fn max_and_min_all_negative() {
    let s = series(vec![-30_000, -10_000, -70_000]);
    assert_eq!(max(&s), Some(-10_000));
    assert_eq!(min(&s), Some(-70_000));
}

#[test]
fn sma_counts_and_means_each_window() {
    // prices 1.0, 2.0, 3.0; window 2: means 1.5, 2.5
    let s = series(vec![10_000, 20_000, 30_000]);
    assert_eq!(n_window_sma(2, &s), Some(vec![15_000, 25_000]));
}

#[test]
fn sma_absent_for_degenerate_window_but_empty_when_too_short() {
    let s = series(vec![10_000, 20_000, 30_000]);
    // window of one or fewer: no result at all
    assert_eq!(n_window_sma(1, &s), None);
    assert_eq!(n_window_sma(0, &s), None);
    // window longer than the series: a present, empty result
    assert_eq!(n_window_sma(5, &s), Some(vec![]));
}

#[test]
fn sma_mean_rounds_toward_zero() {
    let s = series(vec![-3, -4]);
    assert_eq!(n_window_sma(2, &s), Some(vec![-3]));
    let t = series(vec![3, 4]);
    assert_eq!(n_window_sma(2, &t), Some(vec![3]));
}

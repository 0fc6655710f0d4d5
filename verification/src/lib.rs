//! Verified time-series analytics for a stock-report tool.
//!
//! Prices are adjusted closing prices in fixed-point form: the number `1.0`
//! is stored as [`stats::PRICE_SCALE`] units of an `i64`. A [`series::PriceSeries`]
//! is built from per-symbol quotes sorted by timestamp; the statistics over it
//! (change over the window, minimum, maximum, trailing simple moving average)
//! and the per-symbol report pipeline are verified against exact contracts.

pub mod render;
pub mod report;
pub mod series;
pub mod stats;
pub mod timefmt;

//! The run's "from" date: parsing the configured date string into a Unix
//! timestamp through the `chrono` crate.

use vstd::prelude::*;

verus! {

/// The Unix timestamp that `chrono` reads from a date string in its relaxed
/// RFC 3339 form, or nothing when the string is malformed. The result is a
/// function of the characters of the string alone.
pub uninterp spec fn utc_timestamp_of(s: Seq<char>) -> Option<i64>;

/// Relies on chrono's `FromStr` for `DateTime<Utc>` (a relaxed RFC 3339
/// parser) and `DateTime::timestamp`: both depend only on the characters of
/// the input string.
#[verifier::external_body]
fn parse_datetime_utc(s: &str) -> (r: Option<i64>)
    ensures
        r == utc_timestamp_of(s@),
{
    match s.parse::<chrono::DateTime<chrono::Utc>>() {
        Ok(d) => Some(d.timestamp()),
        Err(_) => None,
    }
}

/// The start of the reporting window, as a Unix timestamp, read from the
/// configured date string. A malformed date gives nothing: the caller must
/// treat that as a fatal startup condition, not a per-symbol failure.
pub fn parse_period_start(s: &str) -> (r: Option<i64>)
    ensures
        r == utc_timestamp_of(s@),
{
    parse_datetime_utc(s)
}

} // verus!

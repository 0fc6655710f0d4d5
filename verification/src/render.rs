//! Rendering report values as text: fixed-point prices as decimal numbers,
//! the period start as an RFC 3339 date, and whole CSV data lines.

use vstd::prelude::*;

verus! {

use vstd::math::abs;
use vstd::string::StringExecFns;

use crate::report::ReportRow;
use crate::stats::PRICE_SCALE;

/// The decimal digit character for `d`.
pub open spec fn digit_char(d: nat) -> char {
    if d == 0 {
        '0'
    } else if d == 1 {
        '1'
    } else if d == 2 {
        '2'
    } else if d == 3 {
        '3'
    } else if d == 4 {
        '4'
    } else if d == 5 {
        '5'
    } else if d == 6 {
        '6'
    } else if d == 7 {
        '7'
    } else if d == 8 {
        '8'
    } else {
        '9'
    }
}

/// The decimal digits of `n`, most significant first, without leading zeros
/// (a single zero for `n == 0`).
pub open spec fn dec_digits(n: nat) -> Seq<char>
    decreases n,
{
    if n < 10 {
        seq![digit_char(n)]
    } else {
        dec_digits(n / 10).push(digit_char(n % 10))
    }
}

/// The last `width` decimal digits of `n`, zero-padded on the left.
pub open spec fn pad_digits(n: nat, width: nat) -> Seq<char>
    decreases width,
{
    if width == 0 {
        Seq::empty()
    } else {
        pad_digits(n / 10, (width - 1) as nat).push(digit_char(n % 10))
    }
}

/// The last `width` decimal digits of `n`, zero-padded on the left, with
/// trailing zeros removed.
pub open spec fn frac_digits(n: nat, width: nat) -> Seq<char>
    decreases width,
{
    if width == 0 {
        Seq::empty()
    } else if n % 10 == 0 {
        frac_digits(n / 10, (width - 1) as nat)
    } else {
        pad_digits(n, width)
    }
}

/// A fixed-point price as decimal text: an optional sign, the whole part,
/// and — only when it is not zero — the fractional part with its trailing
/// zeros removed (so `1.5` renders as `1.5`, and `110.0` as `110`).
pub open spec fn spec_fmt_fixed(v: int) -> Seq<char> {
    let m = abs(v) as nat;
    let whole = m / (PRICE_SCALE as nat);
    let frac = m % (PRICE_SCALE as nat);
    let digits = if frac == 0 {
        dec_digits(whole)
    } else {
        dec_digits(whole) + "."@ + frac_digits(frac, 4)
    };
    if v < 0 {
        "-"@ + digits
    } else {
        digits
    }
}

fn digit_str(d: u128) -> (r: &'static str)
    requires
        d < 10,
    ensures
        r@ == seq![digit_char(d as nat)],
{
    proof {
        reveal_strlit("0");
        reveal_strlit("1");
        reveal_strlit("2");
        reveal_strlit("3");
        reveal_strlit("4");
        reveal_strlit("5");
        reveal_strlit("6");
        reveal_strlit("7");
        reveal_strlit("8");
        reveal_strlit("9");
    }
    let s = if d == 0 {
        "0"
    } else if d == 1 {
        "1"
    } else if d == 2 {
        "2"
    } else if d == 3 {
        "3"
    } else if d == 4 {
        "4"
    } else if d == 5 {
        "5"
    } else if d == 6 {
        "6"
    } else if d == 7 {
        "7"
    } else if d == 8 {
        "8"
    } else {
        "9"
    };
    proof {
        assert(s@ =~= seq![digit_char(d as nat)]);
    }
    s
}

fn fmt_u128(n: u128) -> (r: String)
    ensures
        r@ == dec_digits(n as nat),
    decreases n,
{
    if n < 10 {
        digit_str(n).to_owned()
    } else {
        let mut s = fmt_u128(n / 10);
        s.append(digit_str(n % 10));
        proof {
            assert(dec_digits((n / 10) as nat) + seq![digit_char((n % 10) as nat)]
                =~= dec_digits(n as nat));
        }
        s
    }
}

fn fmt_pad(n: u128, width: u128) -> (r: String)
    ensures
        r@ == pad_digits(n as nat, width as nat),
    decreases width,
{
    if width == 0 {
        String::new()
    } else {
        let mut s = fmt_pad(n / 10, width - 1);
        s.append(digit_str(n % 10));
        proof {
            assert(pad_digits((n / 10) as nat, (width - 1) as nat)
                + seq![digit_char((n % 10) as nat)] =~= pad_digits(n as nat, width as nat));
        }
        s
    }
}

fn fmt_frac(n: u128, width: u128) -> (r: String)
    ensures
        r@ == frac_digits(n as nat, width as nat),
    decreases width,
{
    if width == 0 {
        String::new()
    } else if n % 10 == 0 {
        fmt_frac(n / 10, width - 1)
    } else {
        fmt_pad(n, width)
    }
}

/// A fixed-point price (`i128`, as the change column uses) as decimal text.
pub fn fmt_fixed_wide(v: i128) -> (r: String)
    ensures
        r@ == spec_fmt_fixed(v as int),
{
    let m: u128 = if v == i128::MIN {
        170_141_183_460_469_231_731_687_303_715_884_105_728u128
    } else if v < 0 {
        (-v) as u128
    } else {
        v as u128
    };
    let whole = m / 10_000;
    let frac = m % 10_000;
    let mut s = if v < 0 {
        let minus = "-".to_owned();
        proof {
            reveal_strlit("-");
        }
        minus
    } else {
        String::new()
    };
    let digits = fmt_u128(whole);
    s.append(digits.as_str());
    if frac != 0 {
        s.append(".");
        let frac_text = fmt_frac(frac, 4);
        s.append(frac_text.as_str());
    }
    proof {
        assert(m as nat == abs(v as int));
        assert(whole as nat == (m as nat) / (PRICE_SCALE as nat));
        assert(frac as nat == (m as nat) % (PRICE_SCALE as nat));
        assert(s@ =~= spec_fmt_fixed(v as int));
    }
    s
}

/// A fixed-point price as decimal text.
pub fn fmt_fixed(v: i64) -> (r: String)
    ensures
        r@ == spec_fmt_fixed(v as int),
{
    fmt_fixed_wide(v as i128)
}

/// The RFC 3339 text that `chrono` renders a Unix timestamp as, in UTC, or
/// nothing when the timestamp lies outside chrono's representable range.
/// The result is a function of the timestamp alone.
pub uninterp spec fn rfc3339_utc_of(ts: i64) -> Option<Seq<char>>;

/// Relies on chrono's `DateTime::from_timestamp` (absent exactly when the
/// timestamp is out of chrono's range) and `DateTime::to_rfc3339`: both
/// depend only on the timestamp.
#[verifier::external_body]
fn format_rfc3339_utc(ts: i64) -> (r: Option<String>)
    ensures
        r is Some <==> rfc3339_utc_of(ts) is Some,
        r matches Some(s) ==> s@ == rfc3339_utc_of(ts)->Some_0,
{
    match chrono::DateTime::from_timestamp(ts, 0) {
        Some(d) => Some(d.to_rfc3339()),
        None => None,
    }
}

/// The CSV data line for one report row, defined when the row's period
/// start renders as a date.
pub open spec fn spec_csv_line(row: ReportRow) -> Seq<char> {
    rfc3339_utc_of(row.period_start)->Some_0 + ","@ + row.symbol@ + ","@ + spec_fmt_fixed(
        row.last_price as int,
    ) + ","@ + spec_fmt_fixed(row.pct_change_pct as int) + "%,$"@ + spec_fmt_fixed(
        row.min_price as int,
    ) + ",$"@ + spec_fmt_fixed(row.max_price as int) + ",$"@ + spec_fmt_fixed(
        row.trailing_sma as int,
    )
}

/// The CSV data line for one report row: the period start as an RFC 3339
/// date, the symbol, the last price, the change in percent, and the
/// dollar-prefixed minimum, maximum and trailing moving average. Nothing is
/// rendered only when the period start is outside chrono's range.
pub fn csv_line(row: &ReportRow) -> (r: Option<String>)
    ensures
        r is Some <==> rfc3339_utc_of(row.period_start) is Some,
        r matches Some(s) ==> s@ == spec_csv_line(*row),
{
    match format_rfc3339_utc(row.period_start) {
        None => None,
        Some(start) => {
            let mut s = start;
            s.append(",");
            s.append(row.symbol.as_str());
            s.append(",");
            let last_text = fmt_fixed(row.last_price);
            s.append(last_text.as_str());
            s.append(",");
            let pct_text = fmt_fixed_wide(row.pct_change_pct);
            s.append(pct_text.as_str());
            s.append("%,$");
            let min_text = fmt_fixed(row.min_price);
            s.append(min_text.as_str());
            s.append(",$");
            let max_text = fmt_fixed(row.max_price);
            s.append(max_text.as_str());
            s.append(",$");
            let sma_text = fmt_fixed(row.trailing_sma);
            s.append(sma_text.as_str());
            Some(s)
        },
    }
}

} // verus!

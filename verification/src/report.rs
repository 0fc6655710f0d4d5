//! The report pipeline: one row per symbol with data, one diagnostic per
//! symbol without, in the order the symbols were requested.

use vstd::prelude::*;

verus! {

use vstd::string::StringExecFns;

use crate::series::{Quote, PriceSeries, is_chronological_of, prices_of};
use crate::stats::{
    self, spec_price_diff, spec_max_opt, spec_min_opt, spec_sma, window_mean,
};

/// The window, in observations, of the trailing simple moving average that
/// the report shows.
pub const SMA_WINDOW: usize = 30;

/// One output record of the report.
pub struct ReportRow {
    /// The run's single requested "from" timestamp, the same for every row.
    pub period_start: i64,
    /// The symbol this row reports on.
    pub symbol: String,
    /// The chronologically last price of the window.
    pub last_price: i64,
    /// The relative change over the window, times one hundred (a percentage
    /// when the first price is not zero), in fixed-point form.
    pub pct_change_pct: i128,
    /// The smallest price of the window.
    pub min_price: i64,
    /// The largest price of the window.
    pub max_price: i64,
    /// The mean of the most recent `SMA_WINDOW` prices, or zero when the
    /// window does not fit.
    pub trailing_sma: i64,
}

/// What processing one symbol produces: a report row, or a diagnostic line
/// for the error channel.
pub enum SymbolOutcome {
    Row(ReportRow),
    NoQuotes(String),
}

/// The whole run's output: data rows and diagnostics, each in symbol order.
pub struct Report {
    pub rows: Vec<ReportRow>,
    pub diagnostics: Vec<String>,
}

/// The diagnostic line for a symbol that yielded no quotes.
pub open spec fn diag_message(sym: Seq<char>) -> Seq<char> {
    "No quotes found '"@ + sym + "'"@
}

/// The relative change of the series times one hundred (fixed-point).
pub open spec fn spec_pct_change_pct(s: Seq<i64>) -> int {
    spec_price_diff(s)->Some_0.1 * 100
}

/// The trailing moving average shown in a row: the last value of the
/// `SMA_WINDOW`-sized moving average, or zero when no window fits.
pub open spec fn spec_trailing_sma(s: Seq<i64>) -> int {
    if s.len() >= SMA_WINDOW {
        window_mean(s, s.len() - (SMA_WINDOW as int), SMA_WINDOW as int)
    } else {
        0
    }
}

/// The row that a non-empty chronological price sequence `s` yields for
/// `symbol` and the run's start timestamp.
pub open spec fn row_ok(row: ReportRow, symbol: Seq<char>, start: i64, s: Seq<i64>) -> bool {
    &&& s.len() > 0
    &&& row.symbol@ == symbol
    &&& row.period_start == start
    &&& row.last_price == s.last()
    &&& row.min_price as int == spec_min_opt(s)->Some_0
    &&& row.max_price as int == spec_max_opt(s)->Some_0
    &&& row.pct_change_pct as int == spec_pct_change_pct(s)
    &&& row.trailing_sma as int == spec_trailing_sma(s)
}

/// The row for one fetched entry: its fields are the statistics of some
/// chronological rearrangement of the entry's quotes.
pub open spec fn row_for_entry(row: ReportRow, e: (String, Option<Vec<Quote>>), start: i64) -> bool {
    exists|sq: Seq<Quote>| #[trigger] is_chronological_of(sq, e.1->Some_0@)
        && row_ok(row, e.0@, start, prices_of(sq))
}

/// The fetch for this entry succeeded with at least one quote.
pub open spec fn has_data(e: (String, Option<Vec<Quote>>)) -> bool {
    e.1 matches Some(q) && q@.len() > 0
}

/// How many of the entries have data (and so yield a row).
pub open spec fn count_ok(entries: Seq<(String, Option<Vec<Quote>>)>) -> int
    decreases entries.len(),
{
    if entries.len() == 0 {
        0
    } else {
        count_ok(entries.drop_last()) + if has_data(entries.last()) {
            1int
        } else {
            0int
        }
    }
}

proof fn lemma_count_ok_bounds(entries: Seq<(String, Option<Vec<Quote>>)>)
    ensures
        0 <= count_ok(entries) <= entries.len(),
    decreases entries.len(),
{
    if entries.len() > 0 {
        lemma_count_ok_bounds(entries.drop_last());
    }
}

proof fn lemma_count_ok_step(entries: Seq<(String, Option<Vec<Quote>>)>, k: int)
    requires
        0 <= k < entries.len(),
    ensures
        count_ok(entries.subrange(0, k + 1)) == count_ok(entries.subrange(0, k)) + if has_data(
            entries[k],
        ) {
            1int
        } else {
            0int
        },
{
    assert(entries.subrange(0, k + 1).drop_last() =~= entries.subrange(0, k));
    assert(entries.subrange(0, k + 1).last() == entries[k]);
}

proof fn lemma_count_ok_mono(entries: Seq<(String, Option<Vec<Quote>>)>, a: int, b: int)
    requires
        0 <= a <= b <= entries.len(),
    ensures
        count_ok(entries.subrange(0, a)) <= count_ok(entries.subrange(0, b)),
        count_ok(entries.subrange(0, b)) - count_ok(entries.subrange(0, a)) <= b - a,
    decreases b - a,
{
    if a < b {
        lemma_count_ok_step(entries, b - 1);
        lemma_count_ok_mono(entries, a, b - 1);
    }
}

/// The header line of the CSV report.
pub fn csv_header() -> (r: String)
    ensures
        r@ == "period start,symbol,price,change %,min,max,30d avg"@,
{
    String::from_str("period start,symbol,price,change %,min,max,30d avg")
}

/// The diagnostic line emitted for a symbol whose fetch failed or returned
/// no quotes.
pub fn no_quotes_message(symbol: &String) -> (r: String)
    ensures
        r@ == diag_message(symbol@),
{
    let mut m = String::from_str("No quotes found '");
    m.append(symbol.as_str());
    m.append("'");
    m
}

/// Process one symbol's fetch outcome: `None` stands for a failed fetch,
/// `Some` for the fetched quotes, in any order. A failed or empty fetch
/// yields the diagnostic; otherwise the quotes are sorted chronologically
/// and summarized into one row. An undefined change or moving average never
/// fails the row: the pipeline substitutes zero.
pub fn process_symbol(symbol: &String, period_start: i64, quotes: &Option<Vec<Quote>>) -> (r:
    SymbolOutcome)
    ensures
        match r {
            SymbolOutcome::Row(row) => quotes matches Some(q) && q@.len() > 0
                && exists|sq: Seq<Quote>| #[trigger] is_chronological_of(sq, quotes->Some_0@)
                    && row_ok(row, symbol@, period_start, prices_of(sq)),
            SymbolOutcome::NoQuotes(msg) => (quotes is None || quotes->Some_0@.len() == 0)
                && msg@ == diag_message(symbol@),
        },
{
    match quotes {
        None => SymbolOutcome::NoQuotes(no_quotes_message(symbol)),
        Some(q) => {
            if q.len() == 0 {
                SymbolOutcome::NoQuotes(no_quotes_message(symbol))
            } else {
                let series = PriceSeries::from_quotes(q);
                let n = series.len();
                let last_price = series.price_at(n - 1);
                let max_price = stats::max(&series).unwrap();
                let min_price = stats::min(&series).unwrap();
                let pct_change = match stats::price_diff(&series) {
                    Some(d) => d.1,
                    None => 0,
                };
                proof {
                    stats::lemma_price_diff_rel_bound(series@);
                }
                let pct_change_pct = pct_change * 100;
                let sma = match stats::n_window_sma(SMA_WINDOW, &series) {
                    Some(v) => v,
                    None => Vec::new(),
                };
                let trailing_sma = if sma.len() > 0 {
                    sma[sma.len() - 1]
                } else {
                    0
                };
                let row = ReportRow {
                    period_start,
                    symbol: symbol.clone(),
                    last_price,
                    pct_change_pct,
                    min_price,
                    max_price,
                    trailing_sma,
                };
                proof {
                    let sq = choose|sq: Seq<Quote>|
                        #[trigger] is_chronological_of(sq, q@) && series@ == prices_of(sq);
                    assert(series@.len() == q@.len());
                    let target = spec_sma(series@, SMA_WINDOW as int);
                    assert(target is Some);
                    assert(sma@.map_values(|x: i64| x as int) == target->Some_0);
                    if series@.len() >= SMA_WINDOW {
                        let count = series@.len() - (SMA_WINDOW as int) + 1;
                        assert(target->Some_0 == Seq::new(
                            count as nat,
                            |i: int| window_mean(series@, i, SMA_WINDOW as int),
                        ));
                        assert(sma@.len() == count);
                        assert(sma@.map_values(|x: i64| x as int)[count - 1] == window_mean(
                            series@,
                            count - 1,
                            SMA_WINDOW as int,
                        ));
                        assert(sma@[count - 1] as int == window_mean(
                            series@,
                            series@.len() - (SMA_WINDOW as int),
                            SMA_WINDOW as int,
                        ));
                    } else {
                        assert(sma@.len() == 0);
                    }
                    assert(row_ok(row, symbol@, period_start, prices_of(sq)));
                    assert(is_chronological_of(sq, quotes->Some_0@));
                }
                SymbolOutcome::Row(row)
            }
        },
    }
}

/// Build the whole report from each symbol's fetch outcome, in the order the
/// symbols were requested. Every entry with data yields exactly one row, at
/// the position given by the entries with data before it; every other entry
/// yields exactly one diagnostic, likewise in order. A failure is isolated
/// to its symbol: it never stops the run.
#[verifier::rlimit(60)]
pub fn run_report(period_start: i64, entries: &Vec<(String, Option<Vec<Quote>>)>) -> (r: Report)
    ensures
        r.rows@.len() == count_ok(entries@),
        r.diagnostics@.len() == entries@.len() - count_ok(entries@),
        forall|i: int| 0 <= i < entries@.len() && has_data(#[trigger] entries@[i])
            ==> row_for_entry(r.rows@[count_ok(entries@.subrange(0, i))], entries@[i], period_start),
        forall|i: int| 0 <= i < entries@.len() && !has_data(#[trigger] entries@[i])
            ==> r.diagnostics@[i - count_ok(entries@.subrange(0, i))]@
                == diag_message(entries@[i].0@),
{
    let mut rows: Vec<ReportRow> = Vec::new();
    let mut diagnostics: Vec<String> = Vec::new();
    let mut i: usize = 0;
    while i < entries.len()
        invariant
            i <= entries@.len(),
            rows@.len() == count_ok(entries@.subrange(0, i as int)),
            diagnostics@.len() == i - count_ok(entries@.subrange(0, i as int)),
            forall|k: int| 0 <= k < i && has_data(#[trigger] entries@[k])
                ==> row_for_entry(
                    rows@[count_ok(entries@.subrange(0, k))],
                    entries@[k],
                    period_start,
                ),
            forall|k: int| 0 <= k < i && !has_data(#[trigger] entries@[k])
                ==> diagnostics@[k - count_ok(entries@.subrange(0, k))]@
                    == diag_message(entries@[k].0@),
        decreases entries@.len() - i,
    {
        let entry = &entries[i];
        let outcome = process_symbol(&entry.0, period_start, &entry.1);
        proof {
            lemma_count_ok_bounds(entries@.subrange(0, i as int));
            lemma_count_ok_step(entries@, i as int);
        }
        match outcome {
            SymbolOutcome::Row(row) => {
                rows.push(row);
            },
            SymbolOutcome::NoQuotes(msg) => {
                diagnostics.push(msg);
            },
        }
        proof {
            assert forall|k: int| 0 <= k < i + 1 && has_data(#[trigger] entries@[k]) implies
                row_for_entry(
                    rows@[count_ok(entries@.subrange(0, k))],
                    entries@[k],
                    period_start,
                ) by {
                lemma_count_ok_bounds(entries@.subrange(0, k));
                lemma_count_ok_step(entries@, k);
                if k < i {
                    lemma_count_ok_mono(entries@, k + 1, i as int);
                }
            }
            assert forall|k: int| 0 <= k < i + 1 && !has_data(#[trigger] entries@[k]) implies
                diagnostics@[k - count_ok(entries@.subrange(0, k))]@
                    == diag_message(entries@[k].0@) by {
                lemma_count_ok_bounds(entries@.subrange(0, k));
                lemma_count_ok_step(entries@, k);
                if k < i {
                    lemma_count_ok_mono(entries@, k + 1, i as int);
                }
            }
        }
        i += 1;
    }
    proof {
        assert(entries@.subrange(0, entries@.len() as int) =~= entries@);
    }
    Report { rows, diagnostics }
}

} // verus!

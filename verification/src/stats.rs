//! Descriptive statistics over a price series, with exact fixed-point
//! contracts.

use vstd::prelude::*;

verus! {

use crate::series::PriceSeries;
use vstd::arithmetic::div_mod::{
    lemma_div_pos_is_pos, lemma_div_nonincreasing, lemma_div_is_ordered,
    lemma_div_multiples_vanish,
};
use vstd::math::abs;

/// Fixed-point scale: the price `1.0` is stored as this many units.
pub const PRICE_SCALE: i64 = 10_000;

/// Integer division rounding toward zero, the rounding used for every
/// fixed-point ratio in this crate. (The `/` of specifications rounds
/// toward negative infinity instead.)
pub open spec fn div_trunc(x: int, d: int) -> int {
    if x == 0 {
        0
    } else if x > 0 && d > 0 {
        x / d
    } else if x < 0 && d < 0 {
        (x * -1) / (d * -1)
    } else if x < 0 {
        ((x * -1) / d) * -1
    } else {
        (x / (d * -1)) * -1
    }
}

/// The sum of a sequence of prices, as an unbounded integer.
pub open spec fn seq_sum(s: Seq<i64>) -> int
    decreases s.len(),
{
    if s.len() == 0 {
        0
    } else {
        seq_sum(s.drop_last()) + s.last()
    }
}

/// Truncating division never grows the magnitude of its dividend.
proof fn lemma_div_trunc_magnitude(x: int, d: int)
    requires
        d != 0,
    ensures
        -abs(x) <= div_trunc(x, d) <= abs(x),
{
    if x == 0 {
    } else if x > 0 && d > 0 {
        lemma_div_pos_is_pos(x, d);
        lemma_div_nonincreasing(x, d);
    } else if x < 0 && d < 0 {
        lemma_div_pos_is_pos(x * -1, d * -1);
        lemma_div_nonincreasing(x * -1, d * -1);
    } else if x < 0 {
        lemma_div_pos_is_pos(x * -1, d);
        lemma_div_nonincreasing(x * -1, d);
    } else {
        lemma_div_pos_is_pos(x, d * -1);
        lemma_div_nonincreasing(x, d * -1);
    }
}

/// Truncating division of two `i128` values, away from the one quotient
/// that does not fit back into an `i128`.
fn div_trunc_i128(a: i128, b: i128) -> (q: i128)
    requires
        b != 0,
        a != i128::MIN,
    ensures
        q as int == div_trunc(a as int, b as int),
{
    proof {
        lemma_div_trunc_magnitude(a as int, b as int);
    }
    match a.checked_div(b) {
        Some(q) => q,
        None => vstd::pervasive::unreached(),
    }
}

/// What `price_diff` returns: absent on an empty series; otherwise the
/// absolute change from the first to the last price, and the relative
/// change as a fixed-point ratio of the absolute change to the first
/// price. A first price of exactly zero is substituted with a denominator
/// of `1.0` (so the relative figure then equals the absolute one) — a
/// documented convention, not a true percentage in that case.
pub open spec fn spec_price_diff(s: Seq<i64>) -> Option<(int, int)> {
    if s.len() == 0 {
        None
    } else {
        let first = s[0] as int;
        let last = s[s.len() - 1] as int;
        let absolute = last - first;
        let denom = if first == 0 { PRICE_SCALE as int } else { first };
        Some((absolute, div_trunc(absolute * PRICE_SCALE, denom)))
    }
}

/// An optional pair of `i128` results as its mathematical value.
pub open spec fn view_diff(r: Option<(i128, i128)>) -> Option<(int, int)> {
    match r {
        Some(p) => Some((p.0 as int, p.1 as int)),
        None => None,
    }
}

/// The absolute and relative price change between the beginning and the end
/// of the series, or absent when the series is empty. Only the first and
/// last prices matter; the path between them does not.
pub fn price_diff(series: &PriceSeries) -> (r: Option<(i128, i128)>)
    ensures
        view_diff(r) == spec_price_diff(series@),
{
    if series.is_empty() {
        None
    } else {
        let n = series.len();
        let first = series.price_at(0);
        let last = series.price_at(n - 1);
        let absolute: i128 = last as i128 - first as i128;
        let denom: i128 = if first == 0 {
            PRICE_SCALE as i128
        } else {
            first as i128
        };
        proof {
            assert(absolute * (PRICE_SCALE as i128) == absolute * 10_000);
        }
        let relative = div_trunc_i128(absolute * (PRICE_SCALE as i128), denom);
        Some((absolute, relative))
    }
}

/// The relative change reported by `price_diff` on a non-empty series is
/// small enough to scale further (say by one hundred) without leaving the
/// range of an `i128`.
pub proof fn lemma_price_diff_rel_bound(s: Seq<i64>)
    requires
        s.len() > 0,
    ensures
        -(0x1_0000_0000_0000_0000 * (PRICE_SCALE as int)) <= spec_price_diff(s)->Some_0.1
            <= 0x1_0000_0000_0000_0000 * (PRICE_SCALE as int),
{
    let first = s[0] as int;
    let absolute = (s[s.len() - 1] as int) - first;
    let denom = if first == 0 {
        PRICE_SCALE as int
    } else {
        first
    };
    lemma_div_trunc_magnitude(absolute * PRICE_SCALE, denom);
    assert(absolute * PRICE_SCALE == absolute * 10_000);
}

/// The sum of any sequence of prices is bounded by its length times the
/// extreme representable prices.
proof fn lemma_seq_sum_bounds(s: Seq<i64>)
    ensures
        s.len() * (i64::MIN as int) <= seq_sum(s) <= s.len() * (i64::MAX as int),
    decreases s.len(),
{
    if s.len() > 0 {
        lemma_seq_sum_bounds(s.drop_last());
    }
}

/// The mean of a non-empty window of prices is itself a representable price.
proof fn lemma_mean_in_range(s: Seq<i64>)
    requires
        s.len() > 0,
    ensures
        i64::MIN as int <= div_trunc(seq_sum(s), s.len() as int) <= i64::MAX as int,
{
    let n = s.len() as int;
    let sum = seq_sum(s);
    lemma_seq_sum_bounds(s);
    if sum > 0 {
        lemma_div_pos_is_pos(sum, n);
        lemma_div_is_ordered(sum, n * (i64::MAX as int), n);
        lemma_div_multiples_vanish(i64::MAX as int, n);
    } else if sum < 0 {
        lemma_div_pos_is_pos(sum * -1, n);
        lemma_div_is_ordered(sum * -1, n * (-(i64::MIN as int)), n);
        lemma_div_multiples_vanish(-(i64::MIN as int), n);
    }
}

/// The arithmetic mean (rounded toward zero) of the window of `n` prices
/// starting at position `i`.
pub open spec fn window_mean(s: Seq<i64>, i: int, n: int) -> int {
    div_trunc(seq_sum(s.subrange(i, i + n)), n)
}

/// What `n_window_sma` returns: absent for an empty series or a window of
/// one or fewer (a moving average is undefined there — a policy, not an
/// error); an empty sequence when the series is shorter than the window
/// (no window fits, still a present result); otherwise one mean per
/// window start position, in series order.
pub open spec fn spec_sma(s: Seq<i64>, n: int) -> Option<Seq<int>> {
    if s.len() == 0 || n <= 1 {
        None
    } else if n > s.len() {
        Some(Seq::empty())
    } else {
        Some(Seq::new((s.len() - n + 1) as nat, |i: int| window_mean(s, i, n)))
    }
}

/// An optional vector of prices as its mathematical value.
pub open spec fn view_sma(r: Option<Vec<i64>>) -> Option<Seq<int>> {
    match r {
        Some(v) => Some(v@.map_values(|x: i64| x as int)),
        None => None,
    }
}

/// The simple moving average over every contiguous window of `n` prices.
pub fn n_window_sma(n: usize, series: &PriceSeries) -> (r: Option<Vec<i64>>)
    ensures
        view_sma(r) == spec_sma(series@, n as int),
{
    if series.is_empty() || n <= 1 {
        return None;
    }
    let len = series.len();
    if n > len {
        let empty: Vec<i64> = Vec::new();
        proof {
            assert(empty@.map_values(|x: i64| x as int) =~= Seq::<int>::empty());
        }
        return Some(empty);
    }
    let mut out: Vec<i64> = Vec::new();
    let mut start: usize = 0;
    while start <= len - n
        invariant
            1 < n <= len,
            len == series@.len(),
            start <= len - n + 1,
            out@.len() == start,
            forall|k: int| 0 <= k < start
                ==> #[trigger] (out@[k] as int) == window_mean(series@, k, n as int),
        decreases len - n + 1 - start,
    {
        let mut acc: i128 = 0;
        let mut j: usize = 0;
        while j < n
            invariant
                1 < n <= len,
                len == series@.len(),
                start + n <= len,
                j <= n,
                acc == seq_sum(series@.subrange(start as int, start + j)),
        decreases n - j,
        {
            proof {
                lemma_seq_sum_bounds(series@.subrange(start as int, start + j));
                assert(series@.subrange(start as int, start + j + 1)
                    =~= series@.subrange(start as int, start + j).push(series@[start + j]));
                assert(series@.subrange(start as int, start + j + 1).drop_last()
                    =~= series@.subrange(start as int, start + j));
            }
            acc = acc + series.price_at(start + j) as i128;
            j += 1;
        }
        proof {
            lemma_mean_in_range(series@.subrange(start as int, start + n));
            lemma_seq_sum_bounds(series@.subrange(start as int, start + n));
        }
        let m = div_trunc_i128(acc, n as i128);
        out.push(m as i64);
        start += 1;
    }
    proof {
        assert(out@.map_values(|x: i64| x as int) =~= Seq::new(
            (series@.len() - n + 1) as nat,
            |i: int| window_mean(series@, i, n as int),
        ));
    }
    Some(out)
}

/// Law: the change statistic reads only the first and the last price — a
/// monotonic or noisy path between two series with the same ends does not
/// affect the result.
pub proof fn lemma_price_diff_ends_only(s: Seq<i64>, t: Seq<i64>)
    requires
        s.len() > 0,
        t.len() > 0,
        s[0] == t[0],
        s[s.len() - 1] == t[t.len() - 1],
    ensures
        spec_price_diff(s) == spec_price_diff(t),
{
}

/// Law: an empty series defines no statistic — change, minimum and maximum
/// are absent, and the moving average is absent for every window size.
pub proof fn lemma_empty_series_all_absent(s: Seq<i64>)
    requires
        s.len() == 0,
    ensures
        spec_price_diff(s) is None,
        spec_max_opt(s) is None,
        spec_min_opt(s) is None,
        forall|n: int| spec_sma(s, n) is None,
{
}

/// Law: for a non-empty series of length `L` and a window `1 < n <= L`, the
/// moving average is present with exactly `L - n + 1` values, each the mean
/// of its `n`-price window.
pub proof fn lemma_sma_exact_windows(s: Seq<i64>, n: int)
    requires
        s.len() > 0,
        1 < n <= s.len(),
    ensures
        spec_sma(s, n) is Some,
        spec_sma(s, n)->Some_0.len() == s.len() - n + 1,
        forall|i: int| 0 <= i <= s.len() - n
            ==> spec_sma(s, n)->Some_0[i] == div_trunc(seq_sum(s.subrange(i, i + n)), n),
{
}

/// Law: on a non-empty series the two degenerate window sizes differ — a
/// window larger than the series is not a failure (the result is present
/// and empty), while a window of one or fewer yields no result at all.
pub proof fn lemma_sma_degenerate_windows(s: Seq<i64>, n: int)
    requires
        s.len() > 0,
    ensures
        n <= 1 ==> spec_sma(s, n) is None,
        n > s.len() && n > 1 ==> spec_sma(s, n) is Some && spec_sma(s, n)->Some_0.len() == 0,
{
}

/// The largest price of the series, folded pairwise starting from the
/// smallest representable price (so all-negative series are handled).
pub open spec fn spec_max(s: Seq<i64>) -> int
    decreases s.len(),
{
    if s.len() == 0 {
        i64::MIN as int
    } else {
        let m = spec_max(s.drop_last());
        if s.last() as int > m {
            s.last() as int
        } else {
            m
        }
    }
}

/// The smallest price of the series, folded pairwise starting from the
/// largest representable price.
pub open spec fn spec_min(s: Seq<i64>) -> int
    decreases s.len(),
{
    if s.len() == 0 {
        i64::MAX as int
    } else {
        let m = spec_min(s.drop_last());
        if (s.last() as int) < m {
            s.last() as int
        } else {
            m
        }
    }
}

/// What `max` returns: absent on an empty series.
pub open spec fn spec_max_opt(s: Seq<i64>) -> Option<int> {
    if s.len() == 0 {
        None
    } else {
        Some(spec_max(s))
    }
}

/// What `min` returns: absent on an empty series.
pub open spec fn spec_min_opt(s: Seq<i64>) -> Option<int> {
    if s.len() == 0 {
        None
    } else {
        Some(spec_min(s))
    }
}

/// An `Option<i64>` result as its mathematical value.
pub open spec fn view_opt(r: Option<i64>) -> Option<int> {
    match r {
        Some(v) => Some(v as int),
        None => None,
    }
}

proof fn lemma_spec_max_props(s: Seq<i64>)
    requires
        s.len() > 0,
    ensures
        s.contains(spec_max(s) as i64),
        i64::MIN <= spec_max(s) <= i64::MAX,
        forall|i: int| 0 <= i < s.len() ==> s[i] as int <= spec_max(s),
    decreases s.len(),
{
    if s.len() == 1 {
        assert(s[0] == s.last());
    } else {
        lemma_spec_max_props(s.drop_last());
        if !(s.last() as int > spec_max(s.drop_last())) {
            let w = choose|i: int| 0 <= i < s.drop_last().len() && s.drop_last()[i] == spec_max(s) as i64;
            assert(s[w] == spec_max(s) as i64);
        }
        assert forall|i: int| 0 <= i < s.len() implies s[i] as int <= spec_max(s) by {
            if i < s.len() - 1 {
                assert(s[i] == s.drop_last()[i]);
            }
        }
    }
}

proof fn lemma_spec_min_props(s: Seq<i64>)
    requires
        s.len() > 0,
    ensures
        s.contains(spec_min(s) as i64),
        i64::MIN <= spec_min(s) <= i64::MAX,
        forall|i: int| 0 <= i < s.len() ==> s[i] as int >= spec_min(s),
    decreases s.len(),
{
    if s.len() == 1 {
        assert(s[0] == s.last());
    } else {
        lemma_spec_min_props(s.drop_last());
        if !((s.last() as int) < spec_min(s.drop_last())) {
            let w = choose|i: int| 0 <= i < s.drop_last().len() && s.drop_last()[i] == spec_min(s) as i64;
            assert(s[w] == spec_min(s) as i64);
        }
        assert forall|i: int| 0 <= i < s.len() implies s[i] as int >= spec_min(s) by {
            if i < s.len() - 1 {
                assert(s[i] == s.drop_last()[i]);
            }
        }
    }
}

/// The largest price in the series, or absent when the series is empty.
pub fn max(series: &PriceSeries) -> (r: Option<i64>)
    ensures
        view_opt(r) == spec_max_opt(series@),
        r matches Some(m) ==> series@.contains(m)
            && forall|i: int| 0 <= i < series@.len() ==> series@[i] <= m,
{
    if series.is_empty() {
        None
    } else {
        let mut acc = i64::MIN;
        let mut i: usize = 0;
        while i < series.len()
            invariant
                i <= series@.len(),
                acc as int == spec_max(series@.subrange(0, i as int)),
            decreases series@.len() - i,
        {
            let v = series.price_at(i);
            if v > acc {
                acc = v;
            }
            proof {
                assert(series@.subrange(0, i + 1).drop_last() =~= series@.subrange(0, i as int));
            }
            i += 1;
        }
        proof {
            assert(series@.subrange(0, series@.len() as int) =~= series@);
            lemma_spec_max_props(series@);
        }
        Some(acc)
    }
}

/// The smallest price in the series, or absent when the series is empty.
pub fn min(series: &PriceSeries) -> (r: Option<i64>)
    ensures
        view_opt(r) == spec_min_opt(series@),
        r matches Some(m) ==> series@.contains(m)
            && forall|i: int| 0 <= i < series@.len() ==> series@[i] >= m,
{
    if series.is_empty() {
        None
    } else {
        let mut acc = i64::MAX;
        let mut i: usize = 0;
        while i < series.len()
            invariant
                i <= series@.len(),
                acc as int == spec_min(series@.subrange(0, i as int)),
            decreases series@.len() - i,
        {
            let v = series.price_at(i);
            if v < acc {
                acc = v;
            }
            proof {
                assert(series@.subrange(0, i + 1).drop_last() =~= series@.subrange(0, i as int));
            }
            i += 1;
        }
        proof {
            assert(series@.subrange(0, series@.len() as int) =~= series@);
            lemma_spec_min_props(series@);
        }
        Some(acc)
    }
}

} // verus!


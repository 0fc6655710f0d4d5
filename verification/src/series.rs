//! Quotes and the chronologically ordered price series built from them.

use vstd::prelude::*;

verus! {

use vstd::seq_lib::lemma_multiset_commutative;
use vstd::seq_lib::group_to_multiset_ensures;
use vstd::multiset::group_multiset_axioms;

/// One historical quote for a symbol: the time it was observed and its
/// adjusted closing price in fixed-point form (`1.0` is `PRICE_SCALE` units).
#[derive(Clone, Copy, PartialEq, Eq, Structural, Debug)]
pub struct Quote {
    pub timestamp: i64,
    pub adjclose: i64,
}

/// The quotes stand in chronological (non-decreasing timestamp) order.
pub open spec fn sorted_by_time(s: Seq<Quote>) -> bool {
    forall|i: int, j: int| 0 <= i <= j < s.len() ==> s[i].timestamp <= s[j].timestamp
}

/// The adjusted closing prices of the quotes, in the same order.
pub open spec fn prices_of(s: Seq<Quote>) -> Seq<i64> {
    s.map_values(|q: Quote| q.adjclose)
}

/// `sq` is a chronological rearrangement of the quotes `q`.
pub open spec fn is_chronological_of(sq: Seq<Quote>, q: Seq<Quote>) -> bool {
    &&& sorted_by_time(sq)
    &&& sq.to_multiset() == q.to_multiset()
    &&& sq.len() == q.len()
}

/// Inserting an element anywhere into a sequence adds it to the sequence's
/// multiset, and leaves everything else alone.
proof fn lemma_insert_to_multiset(s: Seq<Quote>, i: int, a: Quote)
    requires
        0 <= i <= s.len(),
    ensures
        s.insert(i, a).to_multiset() == s.to_multiset().insert(a),
{
    broadcast use group_to_multiset_ensures;
    broadcast use group_multiset_axioms;

    let pre = s.subrange(0, i);
    let post = s.subrange(i, s.len() as int);
    lemma_multiset_commutative(pre.push(a), post);
    lemma_multiset_commutative(pre, post);
    assert(pre + post =~= s);
    assert(s.insert(i, a).to_multiset() =~= s.to_multiset().insert(a));
}

/// Rearrange quotes into chronological order. Ties in the timestamp are kept
/// in no particular order: only the multiset of quotes is promised.
fn sort_quotes(quotes: &Vec<Quote>) -> (r: Vec<Quote>)
    ensures
        is_chronological_of(r@, quotes@),
{
    broadcast use group_to_multiset_ensures;

    let mut out: Vec<Quote> = Vec::new();
    let mut i: usize = 0;
    while i < quotes.len()
        invariant
            i <= quotes.len(),
            sorted_by_time(out@),
            out@.to_multiset() == quotes@.subrange(0, i as int).to_multiset(),
            out@.len() == i,
        decreases quotes.len() - i,
    {
        let q = quotes[i];
        let mut j: usize = 0;
        while j < out.len() && out[j].timestamp <= q.timestamp
            invariant
                j <= out@.len(),
                forall|k: int| 0 <= k < j ==> out@[k].timestamp <= q.timestamp,
            decreases out.len() - j,
        {
            j += 1;
        }
        let ghost old_out = out@;
        out.insert(j, q);
        proof {
            old_out.insert_ensures(j as int, q);
            lemma_insert_to_multiset(old_out, j as int, q);
            assert(quotes@.subrange(0, i + 1)
                =~= quotes@.subrange(0, i as int).push(quotes@[i as int]));
            vstd::seq_lib::to_multiset_build(quotes@.subrange(0, i as int), quotes@[i as int]);
            assert forall|a: int, b: int| 0 <= a <= b < out@.len() implies
                out@[a].timestamp <= out@[b].timestamp by {
                if a < j && b < j {
                    assert(out@[a] == old_out[a] && out@[b] == old_out[b]);
                } else if a < j && b == j {
                    assert(out@[a] == old_out[a]);
                } else if a < j && b > j {
                    assert(out@[a] == old_out[a] && out@[b] == old_out[b - 1]);
                } else if a == j && b > j {
                    assert(out@[b] == old_out[b - 1]);
                } else if a == j && b == j {
                } else {
                    assert(out@[a] == old_out[a - 1] && out@[b] == old_out[b - 1]);
                }
            }
        }
        i += 1;
    }
    proof {
        assert(quotes@.subrange(0, quotes@.len() as int) =~= quotes@);
    }
    out
}

/// A finite, chronologically ordered sequence of adjusted closing prices for
/// one symbol and one fetch window. May be empty.
pub struct PriceSeries {
    prices: Vec<i64>,
}

impl View for PriceSeries {
    type V = Seq<i64>;

    closed spec fn view(&self) -> Seq<i64> {
        self.prices@
    }
}

impl PriceSeries {
    /// A series directly from already-ordered prices.
    pub fn from_prices(prices: Vec<i64>) -> (r: PriceSeries)
        ensures
            r@ == prices@,
    {
        PriceSeries { prices }
    }

    /// Build the series for one symbol: sort the quotes by timestamp
    /// (any input order, duplicates included, values passed through
    /// unvalidated), then keep the adjusted closing prices.
    pub fn from_quotes(quotes: &Vec<Quote>) -> (r: PriceSeries)
        ensures
            exists|sq: Seq<Quote>| #[trigger] is_chronological_of(sq, quotes@) && r@ == prices_of(sq),
            r@.len() == quotes@.len(),
    {
        let sorted = sort_quotes(quotes);
        let mut prices: Vec<i64> = Vec::new();
        let mut i: usize = 0;
        while i < sorted.len()
            invariant
                i <= sorted@.len(),
                prices@ == prices_of(sorted@.subrange(0, i as int)),
            decreases sorted.len() - i,
        {
            prices.push(sorted[i].adjclose);
            proof {
                assert(sorted@.subrange(0, i + 1).drop_last() =~= sorted@.subrange(0, i as int));
                assert(prices_of(sorted@.subrange(0, i + 1))
                    =~= prices_of(sorted@.subrange(0, i as int)).push(sorted@[i as int].adjclose));
            }
            i += 1;
        }
        proof {
            assert(sorted@.subrange(0, sorted@.len() as int) =~= sorted@);
        }
        PriceSeries { prices }
    }

    /// How many prices the series holds.
    pub fn len(&self) -> (n: usize)
        ensures
            n == self@.len(),
    {
        self.prices.len()
    }

    /// Whether the series holds no prices at all.
    pub fn is_empty(&self) -> (b: bool)
        ensures
            b == (self@.len() == 0),
    {
        self.prices.len() == 0
    }

    /// The price at position `i` in chronological order.
    pub fn price_at(&self, i: usize) -> (p: i64)
        requires
            i < self@.len(),
        ensures
            p == self@[i as int],
    {
        self.prices[i]
    }
}

} // verus!

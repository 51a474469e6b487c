//! The quote store: per-symbol top-of-book quotes keyed by timestamp, built
//! once by a builder and immutable afterwards.
//!
//! Quotes for one timestamp keep their insertion order; a point lookup by
//! `(date, symbol)` returns the last quote inserted for that pair, so a
//! repeated pair behaves as last-writer-wins without dropping any entry.

use vstd::prelude::*;

verus! {

use crate::clock::{Clock, Frequency};
use crate::uist::{QuoteV, UistQuote};

/// Mathematical contents of a [`Penelope`]: for each stored date, in strictly
/// increasing date order, the quotes of that date in insertion order.
pub type PenelopeV = Seq<(i64, Seq<QuoteV>)>;

/// Relies on `str`'s `PartialEq`: two string slices compare equal exactly
/// when their character sequences are equal.
#[verifier::external_body]
pub(crate) fn str_eq(a: &str, b: &str) -> (r: bool)
    ensures
        r == (a@ == b@),
{
    a == b
}

/// Relies on `rand::Rng::gen_range` over the thread-local generator: a value
/// drawn from the given half-open range. Nothing but the bounds can be
/// promised of a random draw.
#[verifier::external_body]
fn random_price(lo: u64, hi: u64) -> (r: u64)
    requires
        lo < hi,
    ensures
        lo <= r < hi,
{
    let mut rng = rand::thread_rng();
    rand::Rng::gen_range(&mut rng, lo..hi)
}

/// The store is sorted by date, every date holds at least one quote, and
/// every quote carries the date it is stored under.
pub open spec fn penelope_wf(pv: PenelopeV) -> bool {
    &&& forall|i: int, j: int| 0 <= i < j < pv.len() ==> (#[trigger] pv[i]).0 < (#[trigger] pv[j]).0
    &&& forall|i: int| 0 <= i < pv.len() ==> (#[trigger] pv[i]).1.len() > 0
    &&& forall|i: int, k: int|
        0 <= i < pv.len() && 0 <= k < pv[i].1.len() ==> (#[trigger] pv[i].1[k]).date == pv[i].0
}

/// The quotes stored at a date, if the date is indexed at all.
pub open spec fn quotes_at(pv: PenelopeV, date: i64) -> Option<Seq<QuoteV>>
    decreases pv.len(),
{
    if pv.len() == 0 {
        None
    } else if pv[0].0 == date {
        Some(pv[0].1)
    } else {
        quotes_at(pv.drop_first(), date)
    }
}

/// The last quote for a symbol within one date's quotes: the writer that
/// wins when a `(date, symbol)` pair was inserted more than once.
pub open spec fn last_match(qs: Seq<QuoteV>, sym: Seq<char>) -> Option<QuoteV>
    decreases qs.len(),
{
    if qs.len() == 0 {
        None
    } else if qs.last().symbol == sym {
        Some(qs.last())
    } else {
        last_match(qs.drop_last(), sym)
    }
}

/// The quote a point lookup by `(date, symbol)` returns.
pub open spec fn quote_for(pv: PenelopeV, date: i64, sym: Seq<char>) -> Option<QuoteV> {
    match quotes_at(pv, date) {
        Some(qs) => last_match(qs, sym),
        None => None,
    }
}

/// The smallest stored date strictly greater than `date`.
pub open spec fn next_date_spec(pv: PenelopeV, date: i64) -> Option<i64>
    decreases pv.len(),
{
    if pv.len() == 0 {
        None
    } else if pv[0].0 > date {
        Some(pv[0].0)
    } else {
        next_date_spec(pv.drop_first(), date)
    }
}

/// The sequence of stored dates, in increasing order.
pub open spec fn dates_of(pv: PenelopeV) -> Seq<i64> {
    pv.map_values(|e: (i64, Seq<QuoteV>)| e.0)
}

/// The earliest stored date.
pub open spec fn first_date_of(pv: PenelopeV) -> i64 {
    pv[0].0
}

/// The latest stored date.
pub open spec fn last_date_of(pv: PenelopeV) -> i64 {
    pv[pv.len() - 1].0
}

/// A time-keyed store of quotes: each stored timestamp maps to the quotes
/// inserted for it, in insertion order. Immutable once built.
#[derive(Debug)]
pub struct Penelope {
    entries: Vec<(i64, Vec<UistQuote>)>,
}

impl View for Penelope {
    type V = PenelopeV;

    closed spec fn view(&self) -> PenelopeV {
        self.entries@.map_values(|e: (i64, Vec<UistQuote>)| (e.0, e.1@.map_values(|q: UistQuote| q@)))
    }
}

/// If no entry among the first `n` carries the date, the lookup answer is
/// decided by the remaining entries alone.
proof fn lemma_quotes_at_skip(pv: PenelopeV, date: i64, n: int)
    requires
        0 <= n <= pv.len(),
        forall|k: int| 0 <= k < n ==> (#[trigger] pv[k]).0 != date,
    ensures
        quotes_at(pv, date) == quotes_at(pv.skip(n), date),
    decreases n,
{
    if n > 0 {
        assert(pv.drop_first().skip(n - 1) =~= pv.skip(n));
        lemma_quotes_at_skip(pv.drop_first(), date, n - 1);
    } else {
        assert(pv.skip(0) =~= pv);
    }
}

/// If no quote at position `j` or later matches the symbol, the last match
/// is decided by the first `j` quotes alone.
proof fn lemma_last_match_take(qs: Seq<QuoteV>, sym: Seq<char>, j: int)
    requires
        0 <= j <= qs.len(),
        forall|k: int| j <= k < qs.len() ==> (#[trigger] qs[k]).symbol != sym,
    ensures
        last_match(qs, sym) == last_match(qs.take(j), sym),
    decreases qs.len() - j,
{
    if j < qs.len() {
        lemma_last_match_take(qs, sym, j + 1);
        assert(qs.take(j + 1).drop_last() =~= qs.take(j));
        assert(qs.take(j + 1).last() == qs[j]);
    } else {
        assert(qs.take(j) =~= qs);
    }
}

impl Clone for Penelope {
    fn clone(&self) -> (r: Self)
        ensures
            r@ == self@,
    {
        let mut entries: Vec<(i64, Vec<UistQuote>)> = Vec::new();
        let n = self.entries.len();
        let mut i: usize = 0;
        while i < n
            invariant
                0 <= i <= n == self.entries@.len(),
                entries@.len() == i,
                forall|k: int| 0 <= k < i ==> (#[trigger] entries@[k]).0 == self.entries@[k].0,
                forall|k: int|
                    0 <= k < i ==> (#[trigger] entries@[k]).1@.map_values(|q: UistQuote| q@)
                        == self.entries@[k].1@.map_values(|q: UistQuote| q@),
            decreases n - i,
        {
            let qs = self.entries[i].1.clone();
            proof {
                assert(qs@.map_values(|q: UistQuote| q@) =~= self.entries@[i as int].1@.map_values(
                    |q: UistQuote| q@,
                ));
            }
            entries.push((self.entries[i].0, qs));
            i = i + 1;
        }
        let r = Penelope { entries };
        proof {
            assert(r@ =~~= self@);
        }
        r
    }
}

impl Penelope {
    /// Point lookup: the last quote inserted for `(date, symbol)`, or `None`
    /// when the date is not indexed or the symbol absent at that date.
    pub fn get_quote(&self, date: &i64, symbol: &str) -> (r: Option<UistQuote>)
        ensures
            match r {
                Some(q) => quote_for(self@, *date, symbol@) == Some(q@),
                None => quote_for(self@, *date, symbol@) is None,
            },
    {
        let n = self.entries.len();
        let mut i: usize = 0;
        while i < n
            invariant
                0 <= i <= n == self.entries@.len(),
                forall|k: int| 0 <= k < i ==> (#[trigger] self@[k]).0 != *date,
            decreases n - i,
        {
            if self.entries[i].0 == *date {
                let qs: &Vec<UistQuote> = &self.entries[i].1;
                proof {
                    lemma_quotes_at_skip(self@, *date, i as int);
                    assert(self@.skip(i as int)[0] == self@[i as int]);
                    assert(quotes_at(self@, *date) == Some(self@[i as int].1));
                }
                let m = qs.len();
                let mut j: usize = m;
                while j > 0
                    invariant
                        0 <= j <= m == qs@.len(),
                        self@[i as int].1 == qs@.map_values(|q: UistQuote| q@),
                        quotes_at(self@, *date) == Some(self@[i as int].1),
                        forall|k: int| j <= k < m ==> (#[trigger] qs@[k]).symbol@ != symbol@,
                    decreases j,
                {
                    if str_eq(qs[j - 1].symbol.as_str(), symbol) {
                        let q = qs[j - 1].clone();
                        proof {
                            let qv = self@[i as int].1;
                            lemma_last_match_take(qv, symbol@, j as int);
                            assert(qv.take(j as int).last() == qv[j - 1]);
                            assert(qv[j - 1] == qs@[j - 1]@);
                        }
                        return Some(q);
                    }
                    j = j - 1;
                }
                proof {
                    let qv = self@[i as int].1;
                    lemma_last_match_take(qv, symbol@, 0);
                    assert(qv.take(0) =~= Seq::<QuoteV>::empty());
                }
                return None;
            }
            i = i + 1;
        }
        proof {
            lemma_quotes_at_skip(self@, *date, n as int);
            assert(self@.skip(n as int) =~= Seq::<(i64, Seq<QuoteV>)>::empty());
        }
        None
    }

    /// Bulk lookup: all quotes at a date, in insertion order, or `None` when
    /// the date is not indexed.
    pub fn get_quotes(&self, date: &i64) -> (r: Option<Vec<UistQuote>>)
        ensures
            match r {
                Some(v) => quotes_at(self@, *date) == Some(v@.map_values(|q: UistQuote| q@)),
                None => quotes_at(self@, *date) is None,
            },
    {
        let n = self.entries.len();
        let mut i: usize = 0;
        while i < n
            invariant
                0 <= i <= n == self.entries@.len(),
                forall|k: int| 0 <= k < i ==> (#[trigger] self@[k]).0 != *date,
            decreases n - i,
        {
            if self.entries[i].0 == *date {
                let v = self.entries[i].1.clone();
                proof {
                    lemma_quotes_at_skip(self@, *date, i as int);
                    assert(self@.skip(i as int)[0] == self@[i as int]);
                    assert(v@.map_values(|q: UistQuote| q@) =~= self@[i as int].1);
                }
                return Some(v);
            }
            i = i + 1;
        }
        proof {
            lemma_quotes_at_skip(self@, *date, n as int);
            assert(self@.skip(n as int) =~= Seq::<(i64, Seq<QuoteV>)>::empty());
        }
        None
    }

    /// Whether the date is indexed.
    pub fn has_date(&self, date: &i64) -> (r: bool)
        ensures
            r == (quotes_at(self@, *date) is Some),
    {
        let n = self.entries.len();
        let mut i: usize = 0;
        while i < n
            invariant
                0 <= i <= n == self.entries@.len(),
                forall|k: int| 0 <= k < i ==> (#[trigger] self@[k]).0 != *date,
            decreases n - i,
        {
            if self.entries[i].0 == *date {
                proof {
                    lemma_quotes_at_skip(self@, *date, i as int);
                    assert(self@.skip(i as int)[0] == self@[i as int]);
                }
                return true;
            }
            i = i + 1;
        }
        proof {
            lemma_quotes_at_skip(self@, *date, n as int);
            assert(self@.skip(n as int) =~= Seq::<(i64, Seq<QuoteV>)>::empty());
        }
        false
    }

    /// The earliest stored date.
    pub fn get_first_date(&self) -> (r: i64)
        requires
            self@.len() > 0,
        ensures
            r == self@[0].0,
    {
        self.entries[0].0
    }

    /// A store of random quotes for the symbols `ABC` and `BCD`, one pair per
    /// date over `length` consecutive dates starting at 100, with the clock
    /// its schedule defines. For trials that do not depend on price levels.
    pub fn random(length: i64) -> (r: (Penelope, Clock))
        requires
            1 <= length <= 1000000,
        ensures
            penelope_wf(r.0@),
            r.0@.len() == length,
            forall|i: int| 0 <= i < length ==> (#[trigger] r.0@[i]).0 == 100 + i,
            forall|i: int|
                0 <= i < length ==> (#[trigger] r.0@[i]).1.len() == 2
                    && r.0@[i].1[0].symbol == "ABC"@ && r.0@[i].1[1].symbol == "BCD"@
                    && 90 <= r.0@[i].1[0].bid < 100 && 90 <= r.0@[i].1[0].ask < 100
                    && 90 <= r.0@[i].1[1].bid < 100 && 90 <= r.0@[i].1[1].ask < 100,
            r.1@.wf(),
            r.1@.schedule == dates_of(r.0@),
            r.1@.pos == 0,
            r.1@.frequency == Frequency::Second,
    {
        let mut entries: Vec<(i64, Vec<UistQuote>)> = Vec::new();
        let mut dates: Vec<i64> = Vec::new();
        let mut date: i64 = 100;
        while date < 100 + length
            invariant
                1 <= length <= 1000000,
                100 <= date <= 100 + length,
                entries@.len() == date - 100,
                dates@.len() == date - 100,
                forall|i: int| 0 <= i < entries@.len() ==> (#[trigger] entries@[i]).0 == 100 + i,
                forall|i: int| 0 <= i < dates@.len() ==> (#[trigger] dates@[i]) == 100 + i,
                forall|i: int|
                    0 <= i < entries@.len() ==> (#[trigger] entries@[i]).1@.len() == 2
                        && entries@[i].1@[0]@.symbol == "ABC"@
                        && entries@[i].1@[1]@.symbol == "BCD"@
                        && entries@[i].1@[0]@.date == 100 + i
                        && entries@[i].1@[1]@.date == 100 + i
                        && 90 <= entries@[i].1@[0]@.bid < 100
                        && 90 <= entries@[i].1@[0]@.ask < 100
                        && 90 <= entries@[i].1@[1]@.bid < 100
                        && 90 <= entries@[i].1@[1]@.ask < 100,
            decreases 100 + length - date,
        {
            let mut qs: Vec<UistQuote> = Vec::new();
            qs.push(UistQuote {
                bid: random_price(90, 100),
                ask: random_price(90, 100),
                date,
                symbol: "ABC".to_owned(),
            });
            qs.push(UistQuote {
                bid: random_price(90, 100),
                ask: random_price(90, 100),
                date,
                symbol: "BCD".to_owned(),
            });
            entries.push((date, qs));
            dates.push(date);
            date = date + 1;
        }
        let store = Penelope { entries };
        proof {
            assert(dates@ =~= dates_of(store@));
        }
        let clock = Clock::new(dates, Frequency::Second);
        (store, clock)
    }

    /// The smallest stored date strictly after `date`, if any.
    pub fn get_next_date(&self, date: &i64) -> (r: Option<i64>)
        ensures
            r == next_date_spec(self@, *date),
    {
        let n = self.entries.len();
        let mut i: usize = 0;
        proof {
            assert(self@.skip(0) =~= self@);
        }
        while i < n
            invariant
                0 <= i <= n == self.entries@.len(),
                next_date_spec(self@, *date) == next_date_spec(self@.skip(i as int), *date),
            decreases n - i,
        {
            if self.entries[i].0 > *date {
                proof {
                    assert(self@.skip(i as int)[0] == self@[i as int]);
                }
                return Some(self.entries[i].0);
            }
            proof {
                assert(self@.skip(i as int)[0] == self@[i as int]);
                assert(self@.skip(i as int).drop_first() =~= self@.skip(i + 1 as int));
            }
            i = i + 1;
        }
        proof {
            assert(self@.skip(n as int) =~= Seq::<(i64, Seq<QuoteV>)>::empty());
        }
        None
    }
}

/// When the first match sits at `idx`, the lookup returns that entry.
proof fn lemma_quotes_at_found(pv: PenelopeV, date: i64, idx: int)
    requires
        0 <= idx < pv.len(),
        pv[idx].0 == date,
        forall|k: int| 0 <= k < idx ==> (#[trigger] pv[k]).0 != date,
    ensures
        quotes_at(pv, date) == Some(pv[idx].1),
{
    lemma_quotes_at_skip(pv, date, idx);
    assert(pv.skip(idx)[0] == pv[idx]);
}

/// Replacing the entry at `idx` by one with the same date leaves lookups of
/// every other date unchanged.
proof fn lemma_quotes_at_update(pv: PenelopeV, idx: int, e: (i64, Seq<QuoteV>), d2: i64)
    requires
        0 <= idx < pv.len(),
        e.0 == pv[idx].0,
        d2 != pv[idx].0,
    ensures
        quotes_at(pv.update(idx, e), d2) == quotes_at(pv, d2),
    decreases idx,
{
    let pv2 = pv.update(idx, e);
    if idx == 0 {
        assert(pv2.drop_first() =~= pv.drop_first());
    } else {
        if pv[0].0 == d2 {
            assert(pv2[0] == pv[0]);
        } else {
            assert(pv2.drop_first() =~= pv.drop_first().update(idx - 1, e));
            lemma_quotes_at_update(pv.drop_first(), idx - 1, e, d2);
        }
    }
}

/// Inserting an entry for one date leaves lookups of every other date
/// unchanged.
proof fn lemma_quotes_at_insert(pv: PenelopeV, idx: int, e: (i64, Seq<QuoteV>), d2: i64)
    requires
        0 <= idx <= pv.len(),
        d2 != e.0,
    ensures
        quotes_at(pv.insert(idx, e), d2) == quotes_at(pv, d2),
    decreases idx,
{
    let pv2 = pv.insert(idx, e);
    if idx == 0 {
        assert(pv2[0] == e);
        assert(pv2.drop_first() =~= pv);
    } else {
        assert(pv2[0] == pv[0]);
        if pv[0].0 != d2 {
            assert(pv2.drop_first() =~= pv.drop_first().insert(idx - 1, e));
            lemma_quotes_at_insert(pv.drop_first(), idx - 1, e, d2);
        }
    }
}

/// Accepts `(bid, ask, date, symbol)` tuples in any order and arranges them
/// into a [`Penelope`]; at finalization the set of stored dates defines the
/// clock schedule.
#[derive(Debug)]
pub struct PenelopeBuilder {
    entries: Vec<(i64, Vec<UistQuote>)>,
}

impl View for PenelopeBuilder {
    type V = PenelopeV;

    closed spec fn view(&self) -> PenelopeV {
        self.entries@.map_values(|e: (i64, Vec<UistQuote>)| (e.0, e.1@.map_values(|q: UistQuote| q@)))
    }
}

impl PenelopeBuilder {
    /// An empty builder.
    pub fn new() -> (r: Self)
        ensures
            r@ =~= Seq::<(i64, Seq<QuoteV>)>::empty(),
            penelope_wf(r@),
    {
        PenelopeBuilder { entries: Vec::new() }
    }

    /// Record one quote. The quote joins the ones already stored for its
    /// date, after them in insertion order; lookups of other dates are
    /// untouched. Nothing is deduplicated: a repeated `(date, symbol)` pair
    /// stays stored, and point lookups return the newest one.
    pub fn add_quote(&mut self, bid: u64, ask: u64, date: i64, symbol: &str)
        requires
            penelope_wf(old(self)@),
        ensures
            penelope_wf(final(self)@),
            ({
                let q = QuoteV { bid, ask, date, symbol: symbol@ };
                match quotes_at(old(self)@, date) {
                    Some(qs) => quotes_at(final(self)@, date) == Some(qs.push(q)),
                    None => quotes_at(final(self)@, date) == Some(seq![q]),
                }
            }),
            forall|d: i64| d != date ==> quotes_at(final(self)@, d) == quotes_at(old(self)@, d),
            final(self)@.len() > 0,
            first_date_of(final(self)@) == if old(self)@.len() == 0 {
                date
            } else if date < first_date_of(old(self)@) {
                date
            } else {
                first_date_of(old(self)@)
            },
            last_date_of(final(self)@) == if old(self)@.len() == 0 {
                date
            } else if date > last_date_of(old(self)@) {
                date
            } else {
                last_date_of(old(self)@)
            },
    {
        let ghost pv0 = self@;
        let ghost qv = QuoteV { bid, ask, date, symbol: symbol@ };
        let q = UistQuote { bid, ask, date, symbol: symbol.to_owned() };
        let n = self.entries.len();
        let mut idx: usize = 0;
        while idx < n && self.entries[idx].0 < date
            invariant
                0 <= idx <= n == self.entries@.len(),
                forall|k: int| 0 <= k < idx ==> (#[trigger] self@[k]).0 < date,
            decreases n - idx,
        {
            idx = idx + 1;
        }
        if idx < n && self.entries[idx].0 == date {
            let mut e = self.entries.remove(idx);
            e.1.push(q);
            self.entries.insert(idx, e);
            proof {
                let pv2 = self@;
                assert(pv2 =~~= pv0.update(idx as int, (date, pv0[idx as int].1.push(qv))));
                lemma_quotes_at_found(pv0, date, idx as int);
                lemma_quotes_at_found(pv2, date, idx as int);
                assert forall|d: i64| d != date implies quotes_at(pv2, d) == quotes_at(
                    pv0,
                    d,
                ) by {
                    lemma_quotes_at_update(pv0, idx as int, pv2[idx as int], d);
                }
                assert(penelope_wf(pv2)) by {
                    assert(forall|i: int| 0 <= i < pv2.len() ==> (#[trigger] pv2[i]).0 == pv0[i].0);
                    assert(forall|i: int, k: int|
                        0 <= i < pv2.len() && 0 <= k < pv2[i].1.len() && i != idx
                            ==> (#[trigger] pv2[i].1[k]).date == pv2[i].0);
                    assert(forall|k: int|
                        0 <= k < pv2[idx as int].1.len()
                            ==> (#[trigger] pv2[idx as int].1[k]).date == date);
                }
            }
        } else {
            let mut v: Vec<UistQuote> = Vec::new();
            v.push(q);
            self.entries.insert(idx, (date, v));
            proof {
                let pv2 = self@;
                assert(pv2 =~~= pv0.insert(idx as int, (date, seq![qv])));
                assert(forall|k: int| idx <= k < pv0.len() ==> (#[trigger] pv0[k]).0 > date);
                assert(forall|k: int| 0 <= k < pv0.len() ==> (#[trigger] pv0[k]).0 != date);
                lemma_quotes_at_skip(pv0, date, pv0.len() as int);
                assert(pv0.skip(pv0.len() as int) =~= Seq::<(i64, Seq<QuoteV>)>::empty());
                assert(forall|k: int| 0 <= k < idx ==> (#[trigger] pv2[k]) == pv0[k]);
                lemma_quotes_at_found(pv2, date, idx as int);
                assert(pv2[idx as int].1 =~= seq![qv]);
                assert forall|d: i64| d != date implies quotes_at(pv2, d) == quotes_at(
                    pv0,
                    d,
                ) by {
                    lemma_quotes_at_insert(pv0, idx as int, (date, seq![qv]), d);
                }
                assert(penelope_wf(pv2)) by {
                    assert(forall|i: int| 0 <= i < idx ==> (#[trigger] pv2[i]).0 == pv0[i].0);
                    assert(forall|i: int|
                        idx < i < pv2.len() ==> (#[trigger] pv2[i]).0 == pv0[i - 1].0);
                    assert(forall|i: int, k: int|
                        0 <= i < pv2.len() && 0 <= k < pv2[i].1.len() && i != idx
                            ==> (#[trigger] pv2[i].1[k]).date == pv2[i].0);
                }
            }
        }
    }

    /// Finish the build: the store as filled, and a clock whose schedule the
    /// stored dates define, per [`schedule_spec`].
    #[verifier::loop_isolation(false)]
    pub fn build_with_frequency(self, frequency: Frequency) -> (r: (Penelope, Clock))
        requires
            penelope_wf(self@),
            self@.len() > 0,
            frequency != Frequency::Fixed ==> last_date_of(self@) - first_date_of(self@)
                + freq_step(frequency) <= i64::MAX,
            frequency != Frequency::Fixed ==> (last_date_of(self@) - first_date_of(self@))
                / freq_step(frequency) + 1 <= usize::MAX,
        ensures
            r.0@ == self@,
            penelope_wf(r.0@),
            r.1@.wf(),
            r.1@.schedule == schedule_spec(self@, frequency),
            r.1@.pos == 0,
            r.1@.frequency == frequency,
    {
        let n = self.entries.len();
        let mut dates: Vec<i64> = Vec::new();
        if let Frequency::Fixed = frequency {
            let mut i: usize = 0;
            while i < n
                invariant
                    0 <= i <= n,
                    dates@ =~= dates_of(self@).take(i as int),
                decreases n - i,
            {
                dates.push(self.entries[i].0);
                proof {
                    assert(dates@ =~= dates_of(self@).take(i + 1 as int));
                }
                i = i + 1;
            }
            proof {
                assert(dates@ =~= dates_of(self@));
            }
        } else {
            let first = self.entries[0].0;
            let last = self.entries[n - 1].0;
            let step: i64 = match frequency {
                Frequency::Second => 1,
                Frequency::Minute => 60,
                Frequency::Daily => 86400,
                Frequency::Fixed => 1,
            };
            let ghost span = dense_schedule(first, last, step as int);
            let count = (last - first) / step + 1;
            proof {
                assert(span.len() == count);
            }
            let mut k: i64 = 0;
            while k < count
                invariant
                    0 <= k <= count,
                    dates@ =~= span.take(k as int),
                decreases count - k,
            {
                proof {
                    lemma_dense_step_bound(first as int, last as int, step as int, k as int);
                }
                dates.push(first + k * step);
                proof {
                    assert(dates@ =~= span.take(k + 1 as int));
                }
                k = k + 1;
            }
            proof {
                assert(dates@ =~= span);
                assert forall|i: int, j: int| 0 <= i < j < span.len() implies span[i]
                    < span[j] by {
                    lemma_dense_step_bound(first as int, last as int, step as int, j);
                    assert(i * step < j * step) by (nonlinear_arith)
                        requires
                            i < j,
                            step > 0,
                    ;
                }
            }
        }
        let clock = Clock::new(dates, frequency);
        (Penelope { entries: self.entries }, clock)
    }
}

/// The tick length of a frequency; `Fixed` has none and keeps the stored
/// dates themselves.
pub open spec fn freq_step(f: Frequency) -> int {
    match f {
        Frequency::Second => 1,
        Frequency::Minute => 60,
        Frequency::Daily => 86400,
        Frequency::Fixed => 0,
    }
}

/// The evenly spaced timestamps from `first` to `last` at the given step.
pub open spec fn dense_schedule(first: i64, last: i64, step: int) -> Seq<i64>
    recommends
        0 < step,
        first <= last,
{
    Seq::new((((last - first) / step) + 1) as nat, |i: int| (first + i * step) as i64)
}

/// The clock schedule a store defines: at `Fixed` frequency the stored dates
/// themselves; at any other frequency every step of that frequency from the
/// first stored date to the last, whether or not a quote sits on it.
pub open spec fn schedule_spec(pv: PenelopeV, f: Frequency) -> Seq<i64> {
    if f == Frequency::Fixed {
        dates_of(pv)
    } else {
        dense_schedule(pv[0].0, pv[pv.len() - 1].0, freq_step(f))
    }
}

/// Every step of a dense schedule stays at or below its last date.
proof fn lemma_dense_step_bound(first: int, last: int, step: int, k: int)
    requires
        0 < step,
        first <= last,
        0 <= k <= (last - first) / step,
    ensures
        0 <= k * step <= last - first,
{
    let q = (last - first) / step;
    vstd::arithmetic::div_mod::lemma_fundamental_div_mod(last - first, step);
    vstd::arithmetic::div_mod::lemma_mod_bound(last - first, step);
    assert(q * step <= last - first);
    assert(0 <= k * step <= q * step) by (nonlinear_arith)
        requires
            0 <= k <= q,
            step > 0,
    ;
}

} // verus!

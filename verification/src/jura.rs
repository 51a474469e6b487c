//! The multi-tenant backtest server core: a registry that maps session ids
//! to isolated engines, created on demand against named datasets, and the
//! request/response surface over it.
//!
//! Sessions are fully isolated: an operation addressed to one session never
//! alters another, and session ids are monotonic and never reused.

use vstd::prelude::*;

verus! {

use crate::clock::{Clock, ClockV};
use crate::penelope::{Penelope, PenelopeV, quotes_at, str_eq};
use crate::uist::{
    InfoMessage, InitMessage, Order, OrderBookV, OrderId, OrderV, Trade, TradeV, UistQuote,
    UistV1, UistV1V, delete_spec, orders_view, tick_spec, trades_view,
};

pub type BacktestId = u64;

/// Mathematical value of a [`Dataset`].
#[verifier::ext_equal]
pub ghost struct DatasetV {
    pub quotes: PenelopeV,
    pub clock: ClockV,
}

/// A named, immutable collection of quotes plus the clock template derived
/// from it; sessions are started by copying both.
#[derive(Debug)]
pub struct Dataset {
    pub quotes: Penelope,
    pub clock: Clock,
}

impl View for Dataset {
    type V = DatasetV;

    open spec fn view(&self) -> DatasetV {
        DatasetV { quotes: self.quotes@, clock: self.clock@ }
    }
}

/// Mathematical value of a [`BacktestState`].
#[verifier::ext_equal]
pub ghost struct BacktestStateV {
    pub id: BacktestId,
    pub exchange: UistV1V,
    pub dataset_name: Seq<char>,
}

/// One running session: its id, its own engine, and the name of the dataset
/// it was started from.
#[derive(Debug)]
pub struct BacktestState {
    pub id: BacktestId,
    pub exchange: UistV1,
    pub dataset_name: String,
}

impl View for BacktestState {
    type V = BacktestStateV;

    open spec fn view(&self) -> BacktestStateV {
        BacktestStateV {
            id: self.id,
            exchange: self.exchange@,
            dataset_name: self.dataset_name@,
        }
    }
}

/// The sessions as a map from id to session state; a repeated id keeps the
/// later entry, but a well-formed registry has no repeats.
pub open spec fn backtests_map(s: Seq<BacktestState>) -> Map<BacktestId, BacktestStateV>
    decreases s.len(),
{
    if s.len() == 0 {
        Map::empty()
    } else {
        backtests_map(s.drop_last()).insert(s.last().id, s.last()@)
    }
}

/// The datasets as a map from name to dataset.
pub open spec fn datasets_map(s: Seq<(String, Dataset)>) -> Map<Seq<char>, DatasetV>
    decreases s.len(),
{
    if s.len() == 0 {
        Map::empty()
    } else {
        datasets_map(s.drop_last()).insert(s.last().0@, s.last().1@)
    }
}

/// Mathematical state of the registry.
#[verifier::ext_equal]
pub ghost struct AppStateV {
    pub backtests: Map<BacktestId, BacktestStateV>,
    pub last: BacktestId,
    pub datasets: Map<Seq<char>, DatasetV>,
}

/// No session id repeats.
pub open spec fn distinct_ids(s: Seq<BacktestState>) -> bool {
    forall|i: int, j: int|
        0 <= i < j < s.len() ==> (#[trigger] s[i]).id != (#[trigger] s[j]).id
}

/// No dataset name repeats.
pub open spec fn distinct_names(s: Seq<(String, Dataset)>) -> bool {
    forall|i: int, j: int|
        0 <= i < j < s.len() ==> (#[trigger] s[i]).0@ != (#[trigger] s[j]).0@
}

/// An id absent from every entry is absent from the map.
proof fn lemma_backtests_map_absent(s: Seq<BacktestState>, id: BacktestId)
    requires
        forall|i: int| 0 <= i < s.len() ==> (#[trigger] s[i]).id != id,
    ensures
        !backtests_map(s).contains_key(id),
    decreases s.len(),
{
    if s.len() > 0 {
        assert(forall|i: int| 0 <= i < s.drop_last().len() ==> (#[trigger] s.drop_last()[i])
            == s[i]);
        lemma_backtests_map_absent(s.drop_last(), id);
    }
}

/// With distinct ids, the entry at `i` is the map's value at its id.
proof fn lemma_backtests_map_found(s: Seq<BacktestState>, i: int)
    requires
        distinct_ids(s),
        0 <= i < s.len(),
    ensures
        backtests_map(s).contains_key(s[i].id),
        backtests_map(s)[s[i].id] == s[i]@,
    decreases s.len(),
{
    if i == s.len() - 1 {
    } else {
        assert(forall|k: int| 0 <= k < s.drop_last().len() ==> (#[trigger] s.drop_last()[k])
            == s[k]);
        lemma_backtests_map_found(s.drop_last(), i);
        assert(s.last().id != s[i].id);
    }
}

/// With distinct ids, replacing the entry at `i` by one with the same id
/// updates the map at that id alone.
proof fn lemma_backtests_map_update(s: Seq<BacktestState>, i: int, b: BacktestState)
    requires
        distinct_ids(s),
        0 <= i < s.len(),
        b.id == s[i].id,
    ensures
        backtests_map(s.update(i, b)) == backtests_map(s).insert(b.id, b@),
    decreases s.len(),
{
    let s2 = s.update(i, b);
    if i == s.len() - 1 {
        assert(s2.drop_last() =~= s.drop_last());
        assert(s2.last() == b);
        assert(backtests_map(s).insert(s.last().id, s.last()@).insert(b.id, b@)
            =~= backtests_map(s.drop_last()).insert(b.id, b@));
    } else {
        assert(forall|k: int| 0 <= k < s.drop_last().len() ==> (#[trigger] s.drop_last()[k])
            == s[k]);
        lemma_backtests_map_update(s.drop_last(), i, b);
        assert(s2.drop_last() =~= s.drop_last().update(i, b));
        assert(s2.last() == s.last());
        assert(s.last().id != b.id);
        assert(backtests_map(s.drop_last()).insert(b.id, b@).insert(s.last().id, s.last()@)
            =~= backtests_map(s.drop_last()).insert(s.last().id, s.last()@).insert(b.id, b@));
    }
}

/// A name absent from every entry is absent from the map.
proof fn lemma_datasets_map_absent(s: Seq<(String, Dataset)>, name: Seq<char>)
    requires
        forall|i: int| 0 <= i < s.len() ==> (#[trigger] s[i]).0@ != name,
    ensures
        !datasets_map(s).contains_key(name),
    decreases s.len(),
{
    if s.len() > 0 {
        assert(forall|i: int| 0 <= i < s.drop_last().len() ==> (#[trigger] s.drop_last()[i])
            == s[i]);
        lemma_datasets_map_absent(s.drop_last(), name);
    }
}

/// With distinct names, the entry at `i` is the map's value at its name.
proof fn lemma_datasets_map_found(s: Seq<(String, Dataset)>, i: int)
    requires
        distinct_names(s),
        0 <= i < s.len(),
    ensures
        datasets_map(s).contains_key(s[i].0@),
        datasets_map(s)[s[i].0@] == s[i].1@,
    decreases s.len(),
{
    if i == s.len() - 1 {
    } else {
        assert(forall|k: int| 0 <= k < s.drop_last().len() ==> (#[trigger] s.drop_last()[k])
            == s[k]);
        lemma_datasets_map_found(s.drop_last(), i);
        assert(s.last().0@ != s[i].0@);
    }
}

/// The registry: every live session keyed by id, the last id handed out,
/// and the datasets sessions can be started from.
pub struct AppState {
    backtests: Vec<BacktestState>,
    last: BacktestId,
    datasets: Vec<(String, Dataset)>,
}

impl View for AppState {
    type V = AppStateV;

    closed spec fn view(&self) -> AppStateV {
        AppStateV {
            backtests: backtests_map(self.backtests@),
            last: self.last,
            datasets: datasets_map(self.datasets@),
        }
    }
}

impl AppState {
    /// Ids are unique and never exceed the counter, every engine is
    /// well-formed, dataset names are unique and each dataset's clock is
    /// well-formed.
    pub closed spec fn wf(&self) -> bool {
        &&& distinct_ids(self.backtests@)
        &&& forall|i: int|
            0 <= i < self.backtests@.len() ==> (#[trigger] self.backtests@[i]).id <= self.last
        &&& forall|i: int|
            0 <= i < self.backtests@.len() ==> (#[trigger] self.backtests@[i]).exchange@.wf()
        &&& distinct_names(self.datasets@)
        &&& forall|i: int|
            0 <= i < self.datasets@.len() ==> (#[trigger] self.datasets@[i]).1.clock@.wf()
    }

    /// A registry over the given datasets, with no session yet.
    pub fn create(datasets: Vec<(String, Dataset)>) -> (r: Self)
        requires
            distinct_names(datasets@),
            forall|i: int| 0 <= i < datasets@.len() ==> (#[trigger] datasets@[i]).1.clock@.wf(),
        ensures
            r.wf(),
            r@.backtests == Map::<BacktestId, BacktestStateV>::empty(),
            r@.last == 0,
            r@.datasets == datasets_map(datasets@),
    {
        AppState { backtests: Vec::new(), last: 0, datasets }
    }

    /// A registry holding one dataset and one session over it, with id 0.
    pub fn single(name: &str, data: Dataset) -> (r: Self)
        requires
            data.clock@.wf(),
        ensures
            r.wf(),
            r@.last == 1,
            r@.datasets == Map::<Seq<char>, DatasetV>::empty().insert(name@, data@),
            r@.backtests.dom() == Set::<BacktestId>::empty().insert(0),
            r@.backtests[0].id == 0,
            r@.backtests[0].dataset_name == name@,
            fresh_session(r@.backtests[0].exchange, data@, name@),
    {
        let exchange = UistV1::new(data.clock.clone(), data.quotes.clone(), name);
        let backtest = BacktestState { id: 0, exchange, dataset_name: name.to_owned() };
        let mut backtests: Vec<BacktestState> = Vec::new();
        backtests.push(backtest);
        let mut datasets: Vec<(String, Dataset)> = Vec::new();
        datasets.push((name.to_owned(), data));
        let r = AppState { backtests, last: 1, datasets };
        proof {
            assert(r.backtests@.drop_last() =~= Seq::<BacktestState>::empty());
            assert(r.backtests@.last() == r.backtests@[0]);
            assert(backtests_map(Seq::<BacktestState>::empty()) == Map::<
                BacktestId,
                BacktestStateV,
            >::empty());
            assert(r.datasets@.drop_last() =~= Seq::<(String, Dataset)>::empty());
            assert(r.datasets@.last() == r.datasets@[0]);
            assert(datasets_map(Seq::<(String, Dataset)>::empty()) == Map::<
                Seq<char>,
                DatasetV,
            >::empty());
            assert(r@.backtests.dom() =~= Set::<BacktestId>::empty().insert(0));
        }
        r
    }

    /// Start a new session over the named dataset: a fresh engine over
    /// copies of the dataset's clock and quotes, under an id one past the
    /// last one handed out. Unknown names leave the registry unchanged.
    #[verifier::loop_isolation(false)]
    pub fn new_backtest(&mut self, dataset_name: &str) -> (r: Option<(BacktestId, InitMessage)>)
        requires
            old(self).wf(),
            old(self)@.last < u64::MAX,
        ensures
            final(self).wf(),
            match r {
                None => final(self)@ == old(self)@ && !old(self)@.datasets.contains_key(
                    dataset_name@,
                ),
                Some((id, msg)) => {
                    let data = old(self)@.datasets[dataset_name@];
                    &&& old(self)@.datasets.contains_key(dataset_name@)
                    &&& id == old(self)@.last + 1
                    &&& final(self)@.last == id
                    &&& final(self)@.datasets == old(self)@.datasets
                    &&& !old(self)@.backtests.contains_key(id)
                    &&& final(self)@.backtests == old(self)@.backtests.insert(
                        id,
                        final(self)@.backtests[id],
                    )
                    &&& final(self)@.backtests[id].id == id
                    &&& final(self)@.backtests[id].dataset_name == dataset_name@
                    &&& fresh_session(final(self)@.backtests[id].exchange, data, dataset_name@)
                    &&& msg.start == data.clock.now()
                    &&& msg.frequency == crate::clock::frequency_code(data.clock.frequency)
                },
            },
    {
        let n = self.datasets.len();
        let mut i: usize = 0;
        while i < n
            invariant
                *self == *old(self),
                0 <= i <= n == self.datasets@.len(),
                forall|k: int| 0 <= k < i ==> (#[trigger] self.datasets@[k]).0@ != dataset_name@,
            decreases n - i,
        {
            if str_eq(self.datasets[i].0.as_str(), dataset_name) {
                proof {
                    lemma_datasets_map_found(self.datasets@, i as int);
                }
                let new_id = self.last + 1;
                let exchange = UistV1::new(
                    self.datasets[i].1.clock.clone(),
                    self.datasets[i].1.quotes.clone(),
                    dataset_name,
                );
                let msg = exchange.init();
                let backtest = BacktestState {
                    id: new_id,
                    exchange,
                    dataset_name: dataset_name.to_owned(),
                };
                proof {
                    assert(forall|k: int|
                        0 <= k < self.backtests@.len() ==> (#[trigger] self.backtests@[k]).id
                            != new_id);
                    lemma_backtests_map_absent(self.backtests@, new_id);
                    assert(self.backtests@.push(backtest).drop_last() =~= self.backtests@);
                }
                self.backtests.push(backtest);
                self.last = new_id;
                return Some((new_id, msg));
            }
            i = i + 1;
        }
        proof {
            lemma_datasets_map_absent(self.datasets@, dataset_name@);
        }
        None
    }

    /// Start a new session over the named dataset, reporting its id, or
    /// `None` for an unknown name.
    pub fn init(&mut self, dataset_name: String) -> (r: Option<BacktestId>)
        requires
            old(self).wf(),
            old(self)@.last < u64::MAX,
        ensures
            final(self).wf(),
            match r {
                None => final(self)@ == old(self)@ && !old(self)@.datasets.contains_key(
                    dataset_name@,
                ),
                Some(id) => {
                    let data = old(self)@.datasets[dataset_name@];
                    &&& old(self)@.datasets.contains_key(dataset_name@)
                    &&& id == old(self)@.last + 1
                    &&& final(self)@.last == id
                    &&& final(self)@.datasets == old(self)@.datasets
                    &&& !old(self)@.backtests.contains_key(id)
                    &&& final(self)@.backtests == old(self)@.backtests.insert(
                        id,
                        final(self)@.backtests[id],
                    )
                    &&& final(self)@.backtests[id].id == id
                    &&& final(self)@.backtests[id].dataset_name == dataset_name@
                    &&& fresh_session(final(self)@.backtests[id].exchange, data, dataset_name@)
                },
            },
    {
        match self.new_backtest(dataset_name.as_str()) {
            Some((id, _msg)) => Some(id),
            None => None,
        }
    }

    /// One tick of the addressed session, per [`tick_spec`]; `None` for an
    /// unknown id. No other session changes.
    #[verifier::loop_isolation(false)]
    pub fn tick(&mut self, backtest_id: BacktestId) -> (r: Option<(bool, Vec<Trade>, Vec<Order>)>)
        requires
            old(self).wf(),
            old(self)@.backtests.contains_key(backtest_id)
                ==> old(self)@.backtests[backtest_id].exchange.book.last_inserted + old(
                self,
            )@.backtests[backtest_id].exchange.buffer.len() <= u64::MAX,
        ensures
            final(self).wf(),
            match r {
                None => final(self)@ == old(self)@ && !old(self)@.backtests.contains_key(
                    backtest_id,
                ),
                Some(t) => {
                    &&& old(self)@.backtests.contains_key(backtest_id)
                    &&& tick_spec(
                        old(self)@.backtests[backtest_id].exchange,
                        final(self)@.backtests[backtest_id].exchange,
                        t.0,
                        trades_view(t.1@),
                        orders_view(t.2@),
                    )
                    &&& final(self)@.backtests == old(self)@.backtests.insert(
                        backtest_id,
                        final(self)@.backtests[backtest_id],
                    )
                    &&& final(self)@.backtests[backtest_id].id == backtest_id
                    &&& final(self)@.backtests[backtest_id].dataset_name == old(
                        self,
                    )@.backtests[backtest_id].dataset_name
                    &&& final(self)@.last == old(self)@.last
                    &&& final(self)@.datasets == old(self)@.datasets
                },
            },
    {
        let n = self.backtests.len();
        let mut i: usize = 0;
        while i < n
            invariant
                *self == *old(self),
                0 <= i <= n == self.backtests@.len(),
                forall|k: int| 0 <= k < i ==> (#[trigger] self.backtests@[k]).id != backtest_id,
            decreases n - i,
        {
            if self.backtests[i].id == backtest_id {
                proof {
                    lemma_backtests_map_found(self.backtests@, i as int);
                }
                let ghost s0 = self.backtests@;
                let mut b = self.backtests.remove(i);
                let t = b.exchange.tick();
                let ghost b2 = b;
                self.backtests.insert(i, b);
                proof {
                    assert(self.backtests@ =~= s0.update(i as int, b2));
                    lemma_backtests_map_update(s0, i as int, b2);
                    assert(distinct_ids(self.backtests@)) by {
                        assert(forall|k: int|
                            0 <= k < self.backtests@.len() ==> (#[trigger] self.backtests@[k]).id
                                == s0[k].id);
                    }
                }
                return Some(t);
            }
            i = i + 1;
        }
        proof {
            lemma_backtests_map_absent(self.backtests@, backtest_id);
        }
        None
    }

    /// Buffer an order into the addressed session; `None` for an unknown
    /// id. No other session changes.
    #[verifier::loop_isolation(false)]
    pub fn insert_order(&mut self, order: Order, backtest_id: BacktestId) -> (r: Option<()>)
        requires
            old(self).wf(),
        ensures
            final(self).wf(),
            match r {
                None => final(self)@ == old(self)@ && !old(self)@.backtests.contains_key(
                    backtest_id,
                ),
                Some(_) => {
                    &&& old(self)@.backtests.contains_key(backtest_id)
                    &&& final(self)@.backtests == old(self)@.backtests.insert(
                        backtest_id,
                        final(self)@.backtests[backtest_id],
                    )
                    &&& final(self)@.backtests[backtest_id] == (BacktestStateV {
                        exchange: UistV1V {
                            buffer: old(self)@.backtests[backtest_id].exchange.buffer.push(
                                order@,
                            ),
                            ..old(self)@.backtests[backtest_id].exchange
                        },
                        ..old(self)@.backtests[backtest_id]
                    })
                    &&& final(self)@.last == old(self)@.last
                    &&& final(self)@.datasets == old(self)@.datasets
                },
            },
    {
        let n = self.backtests.len();
        let mut i: usize = 0;
        while i < n
            invariant
                *self == *old(self),
                0 <= i <= n == self.backtests@.len(),
                forall|k: int| 0 <= k < i ==> (#[trigger] self.backtests@[k]).id != backtest_id,
            decreases n - i,
        {
            if self.backtests[i].id == backtest_id {
                proof {
                    lemma_backtests_map_found(self.backtests@, i as int);
                }
                let ghost s0 = self.backtests@;
                let mut b = self.backtests.remove(i);
                b.exchange.insert_order(order);
                let ghost b2 = b;
                self.backtests.insert(i, b);
                proof {
                    assert(self.backtests@ =~= s0.update(i as int, b2));
                    lemma_backtests_map_update(s0, i as int, b2);
                    assert(distinct_ids(self.backtests@)) by {
                        assert(forall|k: int|
                            0 <= k < self.backtests@.len() ==> (#[trigger] self.backtests@[k]).id
                                == s0[k].id);
                    }
                }
                return Some(());
            }
            i = i + 1;
        }
        proof {
            lemma_backtests_map_absent(self.backtests@, backtest_id);
        }
        None
    }

    /// Delete the order with the given id from the addressed session's
    /// book; an unknown order id is a silent no-op. `None` for an unknown
    /// session. No other session changes.
    #[verifier::loop_isolation(false)]
    pub fn delete_order(&mut self, order_id: OrderId, backtest_id: BacktestId) -> (r: Option<()>)
        requires
            old(self).wf(),
        ensures
            final(self).wf(),
            match r {
                None => final(self)@ == old(self)@ && !old(self)@.backtests.contains_key(
                    backtest_id,
                ),
                Some(_) => {
                    &&& old(self)@.backtests.contains_key(backtest_id)
                    &&& final(self)@.backtests == old(self)@.backtests.insert(
                        backtest_id,
                        final(self)@.backtests[backtest_id],
                    )
                    &&& final(self)@.backtests[backtest_id] == (BacktestStateV {
                        exchange: UistV1V {
                            book: OrderBookV {
                                orders: delete_spec(
                                    old(self)@.backtests[backtest_id].exchange.book.orders,
                                    order_id,
                                ),
                                last_inserted: old(
                                    self,
                                )@.backtests[backtest_id].exchange.book.last_inserted,
                            },
                            ..old(self)@.backtests[backtest_id].exchange
                        },
                        ..old(self)@.backtests[backtest_id]
                    })
                    &&& final(self)@.last == old(self)@.last
                    &&& final(self)@.datasets == old(self)@.datasets
                },
            },
    {
        let n = self.backtests.len();
        let mut i: usize = 0;
        while i < n
            invariant
                *self == *old(self),
                0 <= i <= n == self.backtests@.len(),
                forall|k: int| 0 <= k < i ==> (#[trigger] self.backtests@[k]).id != backtest_id,
            decreases n - i,
        {
            if self.backtests[i].id == backtest_id {
                proof {
                    lemma_backtests_map_found(self.backtests@, i as int);
                }
                let ghost s0 = self.backtests@;
                let mut b = self.backtests.remove(i);
                b.exchange.delete_order(order_id);
                let ghost b2 = b;
                self.backtests.insert(i, b);
                proof {
                    assert(self.backtests@ =~= s0.update(i as int, b2));
                    lemma_backtests_map_update(s0, i as int, b2);
                    assert(distinct_ids(self.backtests@)) by {
                        assert(forall|k: int|
                            0 <= k < self.backtests@.len() ==> (#[trigger] self.backtests@[k]).id
                                == s0[k].id);
                    }
                }
                return Some(());
            }
            i = i + 1;
        }
        proof {
            lemma_backtests_map_absent(self.backtests@, backtest_id);
        }
        None
    }

    /// The quotes at the addressed session's current time, empty when the
    /// time is not indexed; `None` for an unknown session.
    #[verifier::loop_isolation(false)]
    pub fn fetch_quotes(&self, backtest_id: BacktestId) -> (r: Option<Vec<UistQuote>>)
        requires
            self.wf(),
        ensures
            match r {
                None => !self@.backtests.contains_key(backtest_id),
                Some(v) => {
                    let ex = self@.backtests[backtest_id].exchange;
                    &&& self@.backtests.contains_key(backtest_id)
                    &&& match quotes_at(ex.quotes, ex.clock.now()) {
                        Some(qs) => v@.map_values(|q: UistQuote| q@) == qs,
                        None => v@.len() == 0,
                    }
                },
            },
    {
        let n = self.backtests.len();
        let mut i: usize = 0;
        while i < n
            invariant
                0 <= i <= n == self.backtests@.len(),
                forall|k: int| 0 <= k < i ==> (#[trigger] self.backtests@[k]).id != backtest_id,
            decreases n - i,
        {
            if self.backtests[i].id == backtest_id {
                proof {
                    lemma_backtests_map_found(self.backtests@, i as int);
                }
                return Some(self.backtests[i].exchange.fetch_quotes());
            }
            i = i + 1;
        }
        proof {
            lemma_backtests_map_absent(self.backtests@, backtest_id);
        }
        None
    }

    /// Version and dataset of the addressed session; `None` for an unknown
    /// session.
    #[verifier::loop_isolation(false)]
    pub fn info(&self, backtest_id: BacktestId) -> (r: Option<InfoMessage>)
        requires
            self.wf(),
        ensures
            match r {
                None => !self@.backtests.contains_key(backtest_id),
                Some(msg) => {
                    &&& self@.backtests.contains_key(backtest_id)
                    &&& msg.version@ == "1.0"@
                    &&& msg.dataset@ == self@.backtests[backtest_id].exchange.dataset
                },
            },
    {
        let n = self.backtests.len();
        let mut i: usize = 0;
        while i < n
            invariant
                0 <= i <= n == self.backtests@.len(),
                forall|k: int| 0 <= k < i ==> (#[trigger] self.backtests@[k]).id != backtest_id,
            decreases n - i,
        {
            if self.backtests[i].id == backtest_id {
                proof {
                    lemma_backtests_map_found(self.backtests@, i as int);
                }
                return Some(self.backtests[i].exchange.info());
            }
            i = i + 1;
        }
        proof {
            lemma_backtests_map_absent(self.backtests@, backtest_id);
        }
        None
    }
}

/// What a just-started session looks like: the dataset's clock and quotes,
/// an empty book with the id counter at zero, no fills and no buffered
/// orders.
pub open spec fn fresh_session(ex: UistV1V, data: DatasetV, name: Seq<char>) -> bool {
    &&& ex.clock == data.clock
    &&& ex.quotes == data.quotes
    &&& ex.dataset == name
    &&& ex.book.orders == Seq::<OrderV>::empty()
    &&& ex.book.last_inserted == 0
    &&& ex.trade_log == Seq::<TradeV>::empty()
    &&& ex.buffer == Seq::<OrderV>::empty()
}

/// The error kinds the protocol surface reports; both are answered with a
/// client error status, never fatal to the server.
#[derive(Clone, Copy, Debug, PartialEq, Eq, Structural)]
pub enum JuraV1Error {
    UnknownBacktest,
    UnknownDataset,
}

/// Wire shape of a tick answer.
#[derive(Debug)]
pub struct TickResponse {
    pub has_next: bool,
    pub executed_trades: Vec<Trade>,
    pub inserted_orders: Vec<Order>,
}

/// Wire shape of an order insertion request.
#[derive(Debug)]
pub struct InsertOrderRequest {
    pub order: Order,
}

/// Wire shape of an order deletion request.
#[derive(Clone, Copy, Debug)]
pub struct DeleteOrderRequest {
    pub order_id: OrderId,
}

/// Wire shape of a quote fetch answer.
#[derive(Debug)]
pub struct FetchQuotesResponse {
    pub quotes: Vec<UistQuote>,
}

/// Wire shape of a session start answer.
#[derive(Clone, Copy, Debug)]
pub struct InitResponse {
    pub backtest_id: BacktestId,
    pub start: i64,
    pub frequency: u8,
}

/// Wire shape of a session info answer.
#[derive(Debug)]
pub struct InfoResponse {
    pub version: String,
    pub dataset: String,
}

/// Tick the addressed session; an unknown id is answered `UnknownBacktest`
/// and changes nothing.
pub fn tick(app: &mut AppState, backtest_id: BacktestId) -> (r: Result<TickResponse, JuraV1Error>)
    requires
        old(app).wf(),
        old(app)@.backtests.contains_key(backtest_id)
            ==> old(app)@.backtests[backtest_id].exchange.book.last_inserted + old(
            app,
        )@.backtests[backtest_id].exchange.buffer.len() <= u64::MAX,
    ensures
        final(app).wf(),
        match r {
            Err(e) => e == JuraV1Error::UnknownBacktest && final(app)@ == old(app)@ && !old(
                app,
            )@.backtests.contains_key(backtest_id),
            Ok(resp) => {
                &&& old(app)@.backtests.contains_key(backtest_id)
                &&& tick_spec(
                    old(app)@.backtests[backtest_id].exchange,
                    final(app)@.backtests[backtest_id].exchange,
                    resp.has_next,
                    trades_view(resp.executed_trades@),
                    orders_view(resp.inserted_orders@),
                )
                &&& final(app)@.backtests == old(app)@.backtests.insert(
                    backtest_id,
                    final(app)@.backtests[backtest_id],
                )
                &&& final(app)@.last == old(app)@.last
                &&& final(app)@.datasets == old(app)@.datasets
            },
        },
{
    match app.tick(backtest_id) {
        Some(t) => Ok(
            TickResponse { has_next: t.0, executed_trades: t.1, inserted_orders: t.2 },
        ),
        None => Err(JuraV1Error::UnknownBacktest),
    }
}

/// Buffer an order into the addressed session; an unknown id is answered
/// `UnknownBacktest` and changes nothing.
pub fn insert_order(
    app: &mut AppState,
    request: InsertOrderRequest,
    backtest_id: BacktestId,
) -> (r: Result<(), JuraV1Error>)
    requires
        old(app).wf(),
    ensures
        final(app).wf(),
        match r {
            Err(e) => e == JuraV1Error::UnknownBacktest && final(app)@ == old(app)@ && !old(
                app,
            )@.backtests.contains_key(backtest_id),
            Ok(_) => {
                &&& old(app)@.backtests.contains_key(backtest_id)
                &&& final(app)@.backtests == old(app)@.backtests.insert(
                    backtest_id,
                    final(app)@.backtests[backtest_id],
                )
                &&& final(app)@.backtests[backtest_id] == (BacktestStateV {
                    exchange: UistV1V {
                        buffer: old(app)@.backtests[backtest_id].exchange.buffer.push(
                            request.order@,
                        ),
                        ..old(app)@.backtests[backtest_id].exchange
                    },
                    ..old(app)@.backtests[backtest_id]
                })
                &&& final(app)@.last == old(app)@.last
                &&& final(app)@.datasets == old(app)@.datasets
            },
        },
{
    match app.insert_order(request.order, backtest_id) {
        Some(_) => Ok(()),
        None => Err(JuraV1Error::UnknownBacktest),
    }
}

/// Delete an order from the addressed session's book; an unknown session id
/// is answered `UnknownBacktest` and changes nothing. An unknown order id in
/// a known session is a silent no-op, as the book promises.
pub fn delete_order(
    app: &mut AppState,
    request: DeleteOrderRequest,
    backtest_id: BacktestId,
) -> (r: Result<(), JuraV1Error>)
    requires
        old(app).wf(),
    ensures
        final(app).wf(),
        match r {
            Err(e) => e == JuraV1Error::UnknownBacktest && final(app)@ == old(app)@ && !old(
                app,
            )@.backtests.contains_key(backtest_id),
            Ok(_) => {
                &&& old(app)@.backtests.contains_key(backtest_id)
                &&& final(app)@.backtests == old(app)@.backtests.insert(
                    backtest_id,
                    final(app)@.backtests[backtest_id],
                )
                &&& final(app)@.backtests[backtest_id] == (BacktestStateV {
                    exchange: UistV1V {
                        book: OrderBookV {
                            orders: delete_spec(
                                old(app)@.backtests[backtest_id].exchange.book.orders,
                                request.order_id,
                            ),
                            last_inserted: old(
                                app,
                            )@.backtests[backtest_id].exchange.book.last_inserted,
                        },
                        ..old(app)@.backtests[backtest_id].exchange
                    },
                    ..old(app)@.backtests[backtest_id]
                })
                &&& final(app)@.last == old(app)@.last
                &&& final(app)@.datasets == old(app)@.datasets
            },
        },
{
    match app.delete_order(request.order_id, backtest_id) {
        Some(_) => Ok(()),
        None => Err(JuraV1Error::UnknownBacktest),
    }
}

/// The quotes at the addressed session's current time; an unknown id is
/// answered `UnknownBacktest`.
pub fn fetch_quotes(app: &AppState, backtest_id: BacktestId) -> (r: Result<
    FetchQuotesResponse,
    JuraV1Error,
>)
    requires
        app.wf(),
    ensures
        match r {
            Err(e) => e == JuraV1Error::UnknownBacktest && !app@.backtests.contains_key(
                backtest_id,
            ),
            Ok(resp) => {
                let ex = app@.backtests[backtest_id].exchange;
                &&& app@.backtests.contains_key(backtest_id)
                &&& match quotes_at(ex.quotes, ex.clock.now()) {
                    Some(qs) => resp.quotes@.map_values(|q: UistQuote| q@) == qs,
                    None => resp.quotes@.len() == 0,
                }
            },
        },
{
    match app.fetch_quotes(backtest_id) {
        Some(quotes) => Ok(FetchQuotesResponse { quotes }),
        None => Err(JuraV1Error::UnknownBacktest),
    }
}

/// Start a new session over the named dataset; an unknown name is answered
/// `UnknownDataset` and changes nothing.
pub fn init(app: &mut AppState, dataset_name: &str) -> (r: Result<InitResponse, JuraV1Error>)
    requires
        old(app).wf(),
        old(app)@.last < u64::MAX,
    ensures
        final(app).wf(),
        match r {
            Err(e) => e == JuraV1Error::UnknownDataset && final(app)@ == old(app)@ && !old(
                app,
            )@.datasets.contains_key(dataset_name@),
            Ok(resp) => {
                let data = old(app)@.datasets[dataset_name@];
                &&& old(app)@.datasets.contains_key(dataset_name@)
                &&& resp.backtest_id == old(app)@.last + 1
                &&& final(app)@.last == resp.backtest_id
                &&& final(app)@.datasets == old(app)@.datasets
                &&& !old(app)@.backtests.contains_key(resp.backtest_id)
                &&& final(app)@.backtests == old(app)@.backtests.insert(
                    resp.backtest_id,
                    final(app)@.backtests[resp.backtest_id],
                )
                &&& fresh_session(
                    final(app)@.backtests[resp.backtest_id].exchange,
                    data,
                    dataset_name@,
                )
                &&& resp.start == data.clock.now()
                &&& resp.frequency == crate::clock::frequency_code(data.clock.frequency)
            },
        },
{
    match app.new_backtest(dataset_name) {
        Some((id, msg)) => Ok(
            InitResponse { backtest_id: id, start: msg.start, frequency: msg.frequency },
        ),
        None => Err(JuraV1Error::UnknownDataset),
    }
}

/// Version and dataset name of the addressed session; an unknown id is
/// answered `UnknownBacktest`.
pub fn info(app: &AppState, backtest_id: BacktestId) -> (r: Result<InfoResponse, JuraV1Error>)
    requires
        app.wf(),
    ensures
        match r {
            Err(e) => e == JuraV1Error::UnknownBacktest && !app@.backtests.contains_key(
                backtest_id,
            ),
            Ok(resp) => {
                &&& app@.backtests.contains_key(backtest_id)
                &&& resp.version@ == "1.0"@
                &&& resp.dataset@ == app@.backtests[backtest_id].exchange.dataset
            },
        },
{
    match app.info(backtest_id) {
        Some(msg) => Ok(InfoResponse { version: msg.version, dataset: msg.dataset }),
        None => Err(JuraV1Error::UnknownBacktest),
    }
}

} // verus!

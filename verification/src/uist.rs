//! The exchange tick engine: orders, trades, the order book and the
//! clock-driven matching loop.
//!
//! Orders received between ticks rest in a buffer; a tick first advances the
//! clock and only then lets the book execute, so no order ever fills against
//! quote data from its own placement time.

use vstd::prelude::*;

verus! {

use crate::clock::{Clock, ClockV, Frequency, frequency_code};
use crate::penelope::{Penelope, PenelopeV, quote_for, quotes_at, str_eq};

pub type OrderId = u64;

/// The side a completed trade was executed on.
#[derive(Clone, Copy, Debug, PartialEq, Eq, Structural)]
pub enum TradeType {
    Buy,
    Sell,
}

/// The order kinds the book can execute.
#[derive(Clone, Copy, Debug, PartialEq, Eq, Structural)]
pub enum OrderType {
    MarketSell,
    MarketBuy,
    LimitSell,
    LimitBuy,
    StopSell,
    StopBuy,
}

/// Whether the order kind sells inventory (rather than buys it).
pub open spec fn is_sell(t: OrderType) -> bool {
    t == OrderType::MarketSell || t == OrderType::LimitSell || t == OrderType::StopSell
}

/// The trade side an order of this kind produces when it fills.
pub open spec fn side_of(t: OrderType) -> TradeType {
    if is_sell(t) {
        TradeType::Sell
    } else {
        TradeType::Buy
    }
}

/// Mathematical value of a [`UistQuote`].
#[verifier::ext_equal]
pub ghost struct QuoteV {
    pub bid: u64,
    pub ask: u64,
    pub date: i64,
    pub symbol: Seq<char>,
}

/// A top-of-book quote: the best bid and ask for one symbol at one
/// timestamp. Immutable once stored.
#[derive(Debug)]
pub struct UistQuote {
    pub bid: u64,
    pub ask: u64,
    pub date: i64,
    pub symbol: String,
}

impl View for UistQuote {
    type V = QuoteV;

    open spec fn view(&self) -> QuoteV {
        QuoteV { bid: self.bid, ask: self.ask, date: self.date, symbol: self.symbol@ }
    }
}

impl Clone for UistQuote {
    fn clone(&self) -> (r: Self)
        ensures
            r@ == self@,
    {
        UistQuote {
            bid: self.bid,
            ask: self.ask,
            date: self.date,
            symbol: self.symbol.clone(),
        }
    }
}

impl UistQuote {
    pub fn get_bid(&self) -> (r: u64)
        ensures
            r == self@.bid,
    {
        self.bid
    }

    pub fn get_ask(&self) -> (r: u64)
        ensures
            r == self@.ask,
    {
        self.ask
    }

    pub fn get_date(&self) -> (r: i64)
        ensures
            r == self@.date,
    {
        self.date
    }

    pub fn get_symbol(&self) -> (r: &str)
        ensures
            r@ == self@.symbol,
    {
        self.symbol.as_str()
    }

    pub fn create(bid: u64, ask: u64, date: i64, symbol: String) -> (r: Self)
        ensures
            r@ == (QuoteV { bid, ask, date, symbol: symbol@ }),
    {
        UistQuote { bid, ask, date, symbol }
    }
}

/// Mathematical value of a [`Trade`].
#[verifier::ext_equal]
pub ghost struct TradeV {
    pub symbol: Seq<char>,
    pub value: u128,
    pub quantity: u64,
    pub date: i64,
    pub typ: TradeType,
}

/// A completed full fill: `value` is `quantity` times the execution price,
/// and `date` is the tick the fill happened on.
#[derive(Debug)]
pub struct Trade {
    pub symbol: String,
    pub value: u128,
    pub quantity: u64,
    pub date: i64,
    pub typ: TradeType,
}

impl View for Trade {
    type V = TradeV;

    open spec fn view(&self) -> TradeV {
        TradeV {
            symbol: self.symbol@,
            value: self.value,
            quantity: self.quantity,
            date: self.date,
            typ: self.typ,
        }
    }
}

impl Clone for Trade {
    fn clone(&self) -> (r: Self)
        ensures
            r@ == self@,
    {
        Trade {
            symbol: self.symbol.clone(),
            value: self.value,
            quantity: self.quantity,
            date: self.date,
            typ: self.typ,
        }
    }
}

impl Trade {
    pub fn new(symbol: String, value: u128, quantity: u64, date: i64, typ: TradeType) -> (r: Self)
        ensures
            r@ == (TradeV { symbol: symbol@, value, quantity, date, typ }),
    {
        Trade { symbol, value, quantity, date, typ }
    }
}

/// Mathematical value of an [`Order`].
#[verifier::ext_equal]
pub ghost struct OrderV {
    pub order_id: Option<OrderId>,
    pub order_type: OrderType,
    pub symbol: Seq<char>,
    pub shares: u64,
    pub price: Option<u64>,
}

/// An order as a client hands it in. `order_id` stays `None` until the book
/// stamps the order on its way in; market orders carry no `price`.
#[derive(Debug)]
pub struct Order {
    pub order_id: Option<OrderId>,
    pub order_type: OrderType,
    pub symbol: String,
    pub shares: u64,
    pub price: Option<u64>,
}

impl View for Order {
    type V = OrderV;

    open spec fn view(&self) -> OrderV {
        OrderV {
            order_id: self.order_id,
            order_type: self.order_type,
            symbol: self.symbol@,
            shares: self.shares,
            price: self.price,
        }
    }
}

impl Clone for Order {
    fn clone(&self) -> (r: Self)
        ensures
            r@ == self@,
    {
        Order {
            order_id: self.order_id,
            order_type: self.order_type,
            symbol: self.symbol.clone(),
            shares: self.shares,
            price: self.price,
        }
    }
}

impl Order {
    pub fn get_shares(&self) -> (r: u64)
        ensures
            r == self@.shares,
    {
        self.shares
    }

    pub fn get_symbol(&self) -> (r: &str)
        ensures
            r@ == self@.symbol,
    {
        self.symbol.as_str()
    }

    pub fn get_price(&self) -> (r: &Option<u64>)
        ensures
            *r == self@.price,
    {
        &self.price
    }

    pub fn get_order_type(&self) -> (r: &OrderType)
        ensures
            *r == self@.order_type,
    {
        &self.order_type
    }

    fn set_order_id(&mut self, order_id: u64)
        ensures
            final(self)@ == (OrderV { order_id: Some(order_id), ..old(self)@ }),
    {
        self.order_id = Some(order_id);
    }

    fn market(order_type: OrderType, symbol: String, shares: u64) -> (r: Self)
        ensures
            r@ == (OrderV { order_id: None, order_type, symbol: symbol@, shares, price: None }),
    {
        Order { order_id: None, order_type, symbol, shares, price: None }
    }

    fn delayed(order_type: OrderType, symbol: String, shares: u64, price: u64) -> (r: Self)
        ensures
            r@ == (OrderV {
                order_id: None,
                order_type,
                symbol: symbol@,
                shares,
                price: Some(price),
            }),
    {
        Order { order_id: None, order_type, symbol, shares, price: Some(price) }
    }

    pub fn market_buy(symbol: String, shares: u64) -> (r: Self)
        ensures
            r@ == (OrderV {
                order_id: None,
                order_type: OrderType::MarketBuy,
                symbol: symbol@,
                shares,
                price: None,
            }),
    {
        Order::market(OrderType::MarketBuy, symbol, shares)
    }

    pub fn market_sell(symbol: String, shares: u64) -> (r: Self)
        ensures
            r@ == (OrderV {
                order_id: None,
                order_type: OrderType::MarketSell,
                symbol: symbol@,
                shares,
                price: None,
            }),
    {
        Order::market(OrderType::MarketSell, symbol, shares)
    }

    pub fn stop_buy(symbol: String, shares: u64, price: u64) -> (r: Self)
        ensures
            r@ == (OrderV {
                order_id: None,
                order_type: OrderType::StopBuy,
                symbol: symbol@,
                shares,
                price: Some(price),
            }),
    {
        Order::delayed(OrderType::StopBuy, symbol, shares, price)
    }

    pub fn stop_sell(symbol: String, shares: u64, price: u64) -> (r: Self)
        ensures
            r@ == (OrderV {
                order_id: None,
                order_type: OrderType::StopSell,
                symbol: symbol@,
                shares,
                price: Some(price),
            }),
    {
        Order::delayed(OrderType::StopSell, symbol, shares, price)
    }

    pub fn limit_buy(symbol: String, shares: u64, price: u64) -> (r: Self)
        ensures
            r@ == (OrderV {
                order_id: None,
                order_type: OrderType::LimitBuy,
                symbol: symbol@,
                shares,
                price: Some(price),
            }),
    {
        Order::delayed(OrderType::LimitBuy, symbol, shares, price)
    }

    pub fn limit_sell(symbol: String, shares: u64, price: u64) -> (r: Self)
        ensures
            r@ == (OrderV {
                order_id: None,
                order_type: OrderType::LimitSell,
                symbol: symbol@,
                shares,
                price: Some(price),
            }),
    {
        Order::delayed(OrderType::LimitSell, symbol, shares, price)
    }
}

impl PartialEq for Order {
    /// Orders compare by symbol, kind and share count: neither the stamped
    /// id nor the limit price takes part.
    fn eq(&self, other: &Self) -> (r: bool) {
        str_eq(self.symbol.as_str(), other.symbol.as_str()) && self.order_type == other.order_type
            && self.shares == other.shares
    }
}

impl Eq for Order {

}

impl vstd::std_specs::cmp::PartialEqSpecImpl for Order {
    open spec fn obeys_eq_spec() -> bool {
        true
    }

    open spec fn eq_spec(&self, other: &Order) -> bool {
        self@.symbol == other@.symbol && self@.order_type == other@.order_type && self@.shares
            == other@.shares
    }
}

/// The sequence of views of a vector of orders.
pub open spec fn orders_view(s: Seq<Order>) -> Seq<OrderV> {
    s.map_values(|o: Order| o@)
}

/// The sequence of views of a vector of trades.
pub open spec fn trades_view(s: Seq<Trade>) -> Seq<TradeV> {
    s.map_values(|t: Trade| t@)
}

/// Whether an order fires against a quote, per the execution table: market
/// orders always fire; a limit buy needs its price at or above the ask, a
/// limit sell its price at or below the bid; stops fire on the opposite
/// comparisons. A delayed order without a price never fires.
pub open spec fn triggers(o: OrderV, q: QuoteV) -> bool {
    match o.order_type {
        OrderType::MarketBuy => true,
        OrderType::MarketSell => true,
        OrderType::LimitBuy => o.price matches Some(p) && p >= q.ask,
        OrderType::LimitSell => o.price matches Some(p) && p <= q.bid,
        OrderType::StopBuy => o.price matches Some(p) && p <= q.ask,
        OrderType::StopSell => o.price matches Some(p) && p >= q.bid,
    }
}

/// The execution price of a fired order: buys pay the ask, sells get the bid.
pub open spec fn exec_price(t: OrderType, q: QuoteV) -> u64 {
    if is_sell(t) {
        q.bid
    } else {
        q.ask
    }
}

/// The trade a fired order produces: a full fill of all its shares at the
/// top-of-book price, dated at the execution tick.
pub open spec fn fill_of(o: OrderV, q: QuoteV, date: i64) -> TradeV {
    TradeV {
        symbol: o.symbol,
        value: (exec_price(o.order_type, q) * o.shares) as u128,
        quantity: o.shares,
        date,
        typ: side_of(o.order_type),
    }
}

/// Trades a walk over the book produces at `date`: every resting order, in
/// insertion order, is held against the quote for its symbol; an order whose
/// symbol has no quote at `date` rests untouched, a fired order contributes
/// its full fill.
pub open spec fn exec_trades(book: Seq<OrderV>, ps: PenelopeV, date: i64) -> Seq<TradeV>
    decreases book.len(),
{
    if book.len() == 0 {
        Seq::empty()
    } else {
        let rest = exec_trades(book.drop_last(), ps, date);
        let o = book.last();
        match quote_for(ps, date, o.symbol) {
            Some(q) => if triggers(o, q) {
                rest.push(fill_of(o, q, date))
            } else {
                rest
            },
            None => rest,
        }
    }
}

/// Orders still resting after that walk: exactly the ones that did not fire,
/// in their original order.
pub open spec fn resting_after(book: Seq<OrderV>, ps: PenelopeV, date: i64) -> Seq<OrderV>
    decreases book.len(),
{
    if book.len() == 0 {
        Seq::empty()
    } else {
        let rest = resting_after(book.drop_last(), ps, date);
        let o = book.last();
        match quote_for(ps, date, o.symbol) {
            Some(q) => if triggers(o, q) {
                rest
            } else {
                rest.push(o)
            },
            None => rest.push(o),
        }
    }
}

/// Every order id in the sequence is assigned and below the bound.
pub open spec fn ids_assigned_below(s: Seq<OrderV>, bound: u64) -> bool {
    forall|i: int|
        0 <= i < s.len() ==> (#[trigger] s[i]).order_id is Some && s[i].order_id->Some_0 < bound
}

/// Order ids strictly increase along the sequence.
pub open spec fn ids_increasing(s: Seq<OrderV>) -> bool {
    forall|i: int, j: int|
        0 <= i < j < s.len() ==> (#[trigger] s[i]).order_id->Some_0
            < (#[trigger] s[j]).order_id->Some_0
}

/// The orders left resting are drawn from the walked book, and they keep any
/// id discipline the book had.
proof fn lemma_resting_after_membership(book: Seq<OrderV>, ps: PenelopeV, date: i64)
    ensures
        forall|k: int|
            0 <= k < resting_after(book, ps, date).len() ==> exists|i: int|
                0 <= i < book.len() && #[trigger] resting_after(book, ps, date)[k] == book[i],
        ids_increasing(book) ==> ids_increasing(resting_after(book, ps, date)),
        forall|b: u64| ids_assigned_below(book, b) ==> ids_assigned_below(
            resting_after(book, ps, date),
            b,
        ),
    decreases book.len(),
{
    if book.len() > 0 {
        let prior = book.drop_last();
        lemma_resting_after_membership(prior, ps, date);
        let r0 = resting_after(prior, ps, date);
        let r = resting_after(book, ps, date);
        assert(forall|i: int| 0 <= i < prior.len() ==> prior[i] == book[i]);
        assert forall|k: int| 0 <= k < r.len() implies exists|i: int|
            0 <= i < book.len() && #[trigger] r[k] == book[i] by {
            if k < r0.len() {
                let i = choose|i: int| 0 <= i < prior.len() && r0[k] == prior[i];
                assert(r[k] == book[i]);
            } else {
                assert(r[k] == book[book.len() - 1]);
            }
        }
        if ids_increasing(book) {
            assert forall|a: int, b: int| 0 <= a < b < r.len() implies r[a].order_id->Some_0
                < r[b].order_id->Some_0 by {
                if b < r0.len() {
                } else if r.len() > r0.len() && b == r0.len() {
                    let i = choose|i: int| 0 <= i < prior.len() && r0[a] == prior[i];
                    assert(r[b] == book[book.len() - 1]);
                    assert(r[a].order_id->Some_0 < book[book.len() - 1].order_id->Some_0);
                }
            }
        }
        assert forall|b: u64| ids_assigned_below(book, b) implies ids_assigned_below(
            r,
            b,
        ) by {
            assert(ids_assigned_below(prior, b));
        }
    }
}

/// Mathematical state of an [`OrderBook`]: the resting orders in insertion
/// order, and the id the next stamped order will get.
#[verifier::ext_equal]
pub ghost struct OrderBookV {
    pub orders: Seq<OrderV>,
    pub last_inserted: u64,
}

impl OrderBookV {
    /// Every resting order is stamped, ids grow along the book, and all of
    /// them lie below the next id to hand out.
    pub open spec fn wf(self) -> bool {
        &&& ids_assigned_below(self.orders, self.last_inserted)
        &&& ids_increasing(self.orders)
    }
}

/// The book with the first order carrying the id removed; the same book
/// when no order carries it.
pub open spec fn delete_spec(s: Seq<OrderV>, id: u64) -> Seq<OrderV>
    decreases s.len(),
{
    if s.len() == 0 {
        s
    } else if s[0].order_id == Some(id) {
        s.drop_first()
    } else {
        seq![s[0]] + delete_spec(s.drop_first(), id)
    }
}

/// When the first order carrying the id sits at `i`, deletion removes
/// exactly that position.
proof fn lemma_delete_spec_at(s: Seq<OrderV>, id: u64, i: int)
    requires
        0 <= i < s.len(),
        s[i].order_id == Some(id),
        forall|k: int| 0 <= k < i ==> (#[trigger] s[k]).order_id != Some(id),
    ensures
        delete_spec(s, id) =~= s.remove(i),
    decreases i,
{
    if i == 0 {
        assert(delete_spec(s, id) == s.drop_first());
        assert(s.drop_first() =~= s.remove(0));
    } else {
        lemma_delete_spec_at(s.drop_first(), id, i - 1);
        assert(s.drop_first().remove(i - 1) =~= s.remove(i).drop_first());
        assert(delete_spec(s, id) == seq![s[0]] + delete_spec(s.drop_first(), id));
    }
}

/// Deleting an id that no order carries changes nothing.
pub proof fn lemma_delete_spec_absent(s: Seq<OrderV>, id: u64)
    requires
        forall|k: int| 0 <= k < s.len() ==> (#[trigger] s[k]).order_id != Some(id),
    ensures
        delete_spec(s, id) =~= s,
    decreases s.len(),
{
    if s.len() > 0 {
        lemma_delete_spec_absent(s.drop_first(), id);
        assert(delete_spec(s, id) == seq![s[0]] + delete_spec(s.drop_first(), id));
        assert(seq![s[0]] + s.drop_first() =~= s);
    }
}

/// Deleting an id twice is the same as deleting it once: on a book whose
/// ids are unique, the first deletion removes the only order that carried
/// the id, so the second finds nothing to remove.
pub proof fn lemma_delete_idempotent(s: Seq<OrderV>, id: u64)
    requires
        ids_increasing(s),
    ensures
        delete_spec(delete_spec(s, id), id) == delete_spec(s, id),
    decreases s.len(),
{
    if s.len() == 0 {
    } else if s[0].order_id == Some(id) {
        let rest = s.drop_first();
        if exists|k: int| 0 <= k < rest.len() && (#[trigger] rest[k]).order_id == Some(id) {
            let k = choose|k: int| 0 <= k < rest.len() && (#[trigger] rest[k]).order_id == Some(
                id,
            );
            assert(s[0].order_id->Some_0 < s[k + 1].order_id->Some_0);
            assert(false);
        }
        lemma_delete_spec_absent(rest, id);
    } else {
        let rest = s.drop_first();
        assert(ids_increasing(rest)) by {
            assert(forall|i: int| 0 <= i < rest.len() ==> (#[trigger] rest[i]) == s[i + 1]);
        }
        lemma_delete_idempotent(rest, id);
        let d = delete_spec(s, id);
        assert(d == seq![s[0]] + delete_spec(rest, id));
        assert(d[0] == s[0]);
        assert(d.drop_first() =~= delete_spec(rest, id));
        assert(delete_spec(d, id) == seq![d[0]] + delete_spec(d.drop_first(), id));
    }
}

/// The book of resting orders: a FIFO queue that stamps each entering order
/// with the next monotonic id, and executes against the quote store on tick.
#[derive(Debug)]
pub struct OrderBook {
    inner: Vec<Order>,
    last_inserted: u64,
}

impl View for OrderBook {
    type V = OrderBookV;

    closed spec fn view(&self) -> OrderBookV {
        OrderBookV {
            orders: self.inner@.map_values(|o: Order| o@),
            last_inserted: self.last_inserted,
        }
    }
}

impl Default for OrderBook {
    fn default() -> (r: Self)
        ensures
            r@.orders =~= Seq::<OrderV>::empty(),
            r@.last_inserted == 0,
            r@.wf(),
    {
        Self::new()
    }
}

impl OrderBook {
    /// An empty book; the first stamped order will get id 0.
    pub fn new() -> (r: Self)
        ensures
            r@.orders =~= Seq::<OrderV>::empty(),
            r@.last_inserted == 0,
            r@.wf(),
    {
        OrderBook { inner: Vec::new(), last_inserted: 0 }
    }

    /// Whether no order rests in the book.
    pub fn is_empty(&self) -> (r: bool)
        ensures
            r == (self@.orders.len() == 0),
    {
        self.inner.is_empty()
    }

    /// Remove the first resting order stamped with the id; an id no resting
    /// order carries is a silent no-op.
    #[verifier::loop_isolation(false)]
    pub fn delete_order(&mut self, delete_order_id: u64)
        ensures
            final(self)@.orders == delete_spec(old(self)@.orders, delete_order_id),
            final(self)@.last_inserted == old(self)@.last_inserted,
            old(self)@.wf() ==> final(self)@.wf(),
    {
        let ghost b0 = self@.orders;
        let n = self.inner.len();
        let mut pos: usize = 0;
        while pos < n
            invariant
                0 <= pos <= n == self.inner@.len(),
                b0 == self@.orders,
                self@.last_inserted == old(self)@.last_inserted,
                forall|k: int| 0 <= k < pos ==> (#[trigger] b0[k]).order_id != Some(
                    delete_order_id,
                ),
            decreases n - pos,
        {
            let matches_id = match self.inner[pos].order_id {
                Some(oid) => oid == delete_order_id,
                None => false,
            };
            if matches_id {
                self.inner.remove(pos);
                proof {
                    lemma_delete_spec_at(b0, delete_order_id, pos as int);
                    assert(self@.orders =~= b0.remove(pos as int));
                    b0.remove_ensures(pos as int);
                    if old(self)@.wf() {
                        assert forall|i: int, j: int|
                            0 <= i < j < self@.orders.len() implies (#[trigger] self@.orders[i]).order_id->Some_0
                            < (#[trigger] self@.orders[j]).order_id->Some_0 by {
                            let oi: int = if i < pos { i } else { i + 1 };
                            let oj: int = if j < pos { j } else { j + 1 };
                            assert(self@.orders[i] == b0[oi]);
                            assert(self@.orders[j] == b0[oj]);
                            assert(b0[oi].order_id->Some_0 < b0[oj].order_id->Some_0);
                        }
                        assert forall|i: int|
                            0 <= i < self@.orders.len() implies (#[trigger] self@.orders[i]).order_id is Some
                            && self@.orders[i].order_id->Some_0 < self@.last_inserted by {
                            let oi: int = if i < pos { i } else { i + 1 };
                            assert(self@.orders[i] == b0[oi]);
                        }
                    }
                }
                return ;
            }
            pos = pos + 1;
        }
        proof {
            lemma_delete_spec_absent(b0, delete_order_id);
        }
    }

    /// Stamp the order with the next id and append it to the book.
    pub fn insert_order(&mut self, order: &mut Order)
        requires
            old(self)@.last_inserted < u64::MAX,
        ensures
            final(order)@ == (OrderV {
                order_id: Some(old(self)@.last_inserted),
                ..old(order)@
            }),
            final(self)@.orders == old(self)@.orders.push(final(order)@),
            final(self)@.last_inserted == old(self)@.last_inserted + 1,
            old(self)@.wf() ==> final(self)@.wf(),
    {
        order.set_order_id(self.last_inserted);
        self.inner.push(order.clone());
        self.last_inserted = self.last_inserted + 1;
        proof {
            assert(self@.orders =~= old(self)@.orders.push(final(order)@));
        }
    }

    /// One execution pass at `date`: walk every resting order in insertion
    /// order against the quote store, emit the fills in walk order, and keep
    /// exactly the orders that did not fire.
    #[verifier::loop_isolation(false)]
    pub fn execute_orders(&mut self, date: i64, source: &Penelope) -> (r: Vec<Trade>)
        ensures
            trades_view(r@) == exec_trades(old(self)@.orders, source@, date),
            final(self)@.orders == resting_after(old(self)@.orders, source@, date),
            final(self)@.last_inserted == old(self)@.last_inserted,
            old(self)@.wf() ==> final(self)@.wf(),
    {
        let ghost b0 = self@.orders;
        let ghost ps = source@;
        let mut trades: Vec<Trade> = Vec::new();
        let mut kept: Vec<Order> = Vec::new();
        let n = self.inner.len();
        let mut i: usize = 0;
        proof {
            assert(b0.take(0) =~= Seq::<OrderV>::empty());
            assert(trades_view(trades@) =~= Seq::<TradeV>::empty());
            assert(orders_view(kept@) =~= Seq::<OrderV>::empty());
        }
        while i < n
            invariant
                0 <= i <= n == self.inner@.len(),
                b0 == self@.orders,
                trades_view(trades@) == exec_trades(b0.take(i as int), ps, date),
                orders_view(kept@) == resting_after(b0.take(i as int), ps, date),
            decreases n - i,
        {
            let ghost prefix = b0.take(i as int);
            let ghost prefix1 = b0.take(i + 1 as int);
            proof {
                assert(prefix1.drop_last() =~= prefix);
                assert(prefix1.last() == b0[i as int]);
            }
            let ghost pre_trades = trades@;
            let ghost pre_kept = kept@;
            let o = &self.inner[i];
            proof {
                assert(o@ == b0[i as int]);
            }
            match source.get_quote(&date, o.symbol.as_str()) {
                Some(q) => {
                    proof {
                        assert(quote_for(ps, date, b0[i as int].symbol) == Some(q@));
                    }
                    let selling = order_is_sell(&o.order_type);
                    let fire = match o.order_type {
                        OrderType::MarketBuy => true,
                        OrderType::MarketSell => true,
                        OrderType::LimitBuy => match o.price {
                            Some(p) => p >= q.ask,
                            None => false,
                        },
                        OrderType::LimitSell => match o.price {
                            Some(p) => p <= q.bid,
                            None => false,
                        },
                        OrderType::StopBuy => match o.price {
                            Some(p) => p <= q.ask,
                            None => false,
                        },
                        OrderType::StopSell => match o.price {
                            Some(p) => p >= q.bid,
                            None => false,
                        },
                    };
                    proof {
                        assert(fire == triggers(b0[i as int], q@));
                    }
                    if fire {
                        let price = if selling {
                            q.bid
                        } else {
                            q.ask
                        };
                        proof {
                            lemma_u64_mul_fits(price, o.shares);
                        }
                        let value = (price as u128) * (o.shares as u128);
                        let typ = if selling {
                            TradeType::Sell
                        } else {
                            TradeType::Buy
                        };
                        trades.push(Trade {
                            symbol: o.symbol.clone(),
                            value,
                            quantity: o.shares,
                            date,
                            typ,
                        });
                        proof {
                            let tv = fill_of(b0[i as int], q@, date);
                            assert(trades@.last()@ =~= tv);
                            assert(trades_view(trades@) =~= trades_view(pre_trades).push(tv));
                            assert(exec_trades(prefix1, ps, date) == exec_trades(
                                prefix,
                                ps,
                                date,
                            ).push(tv));
                            assert(resting_after(prefix1, ps, date) == resting_after(
                                prefix,
                                ps,
                                date,
                            ));
                        }
                    } else {
                        kept.push(o.clone());
                        proof {
                            assert(kept@.last()@ =~= b0[i as int]);
                            assert(orders_view(kept@) =~= orders_view(pre_kept).push(
                                b0[i as int],
                            ));
                            assert(exec_trades(prefix1, ps, date) == exec_trades(
                                prefix,
                                ps,
                                date,
                            ));
                            assert(resting_after(prefix1, ps, date) == resting_after(
                                prefix,
                                ps,
                                date,
                            ).push(b0[i as int]));
                        }
                    }
                },
                None => {
                    proof {
                        assert(quote_for(ps, date, b0[i as int].symbol) is None);
                    }
                    kept.push(o.clone());
                    proof {
                        assert(kept@.last()@ =~= b0[i as int]);
                        assert(orders_view(kept@) =~= orders_view(pre_kept).push(b0[i as int]));
                        assert(exec_trades(prefix1, ps, date) == exec_trades(prefix, ps, date));
                        assert(resting_after(prefix1, ps, date) == resting_after(
                            prefix,
                            ps,
                            date,
                        ).push(b0[i as int]));
                    }
                },
            }
            i = i + 1;
        }
        proof {
            assert(b0.take(n as int) =~= b0);
        }
        self.inner = kept;
        proof {
            if old(self)@.wf() {
                lemma_resting_after_membership(b0, ps, date);
                assert forall|b: u64| ids_assigned_below(b0, b) implies ids_assigned_below(
                    resting_after(b0, ps, date),
                    b,
                ) by {}
            }
        }
        trades
    }
}

/// Whether the order kind sells, decided in executable code.
fn order_is_sell(t: &OrderType) -> (r: bool)
    ensures
        r == is_sell(*t),
{
    match t {
        OrderType::MarketSell => true,
        OrderType::LimitSell => true,
        OrderType::StopSell => true,
        OrderType::MarketBuy => false,
        OrderType::LimitBuy => false,
        OrderType::StopBuy => false,
    }
}

/// The product of two 64-bit values always fits the 128-bit trade value.
proof fn lemma_u64_mul_fits(a: u64, b: u64)
    ensures
        (a as int) * (b as int) <= u128::MAX as int,
{
    assert((a as int) * (b as int) <= (u64::MAX as int) * (u64::MAX as int)) by (nonlinear_arith)
        requires
            0 <= a as int <= u64::MAX as int,
            0 <= b as int <= u64::MAX as int,
    ;
}

/// The sell-side orders of a batch, in their original order.
pub open spec fn sell_part(s: Seq<OrderV>) -> Seq<OrderV>
    decreases s.len(),
{
    if s.len() == 0 {
        Seq::empty()
    } else if is_sell(s.last().order_type) {
        sell_part(s.drop_last()).push(s.last())
    } else {
        sell_part(s.drop_last())
    }
}

/// The buy-side orders of a batch, in their original order.
pub open spec fn buy_part(s: Seq<OrderV>) -> Seq<OrderV>
    decreases s.len(),
{
    if s.len() == 0 {
        Seq::empty()
    } else if is_sell(s.last().order_type) {
        buy_part(s.drop_last())
    } else {
        buy_part(s.drop_last()).push(s.last())
    }
}

/// The stable sells-before-buys arrangement of an order batch.
pub open spec fn sells_first(s: Seq<OrderV>) -> Seq<OrderV> {
    sell_part(s) + buy_part(s)
}

/// Splitting a batch into its sell and buy parts loses no order.
pub proof fn lemma_sells_first_len(s: Seq<OrderV>)
    ensures
        sells_first(s).len() == s.len(),
    decreases s.len(),
{
    if s.len() > 0 {
        lemma_sells_first_len(s.drop_last());
    }
}

/// The batch as the book stamps it: order `i` gets id `base + i`.
pub open spec fn stamp(s: Seq<OrderV>, base: u64) -> Seq<OrderV> {
    Seq::new(s.len(), |i: int| OrderV { order_id: Some((base + i) as u64), ..s[i] })
}

/// Mathematical state of a [`UistV1`] engine.
#[verifier::ext_equal]
pub ghost struct UistV1V {
    pub dataset: Seq<char>,
    pub clock: ClockV,
    pub quotes: PenelopeV,
    pub book: OrderBookV,
    pub trade_log: Seq<TradeV>,
    pub buffer: Seq<OrderV>,
}

impl UistV1V {
    /// The clock addresses its schedule and the book keeps id discipline.
    pub open spec fn wf(self) -> bool {
        &&& self.clock.wf()
        &&& self.book.wf()
    }
}

/// What one tick does. On a live clock: time advances first, the buffered
/// batch is arranged sells-before-buys, stamped with consecutive ids and
/// appended to the book, the book executes at the new time, the fills are
/// appended to the trade log, and the buffer empties; the call reports
/// whether another tick remains, the fills, and the batch as stamped. On an
/// exhausted clock: a no-op reporting `false` and empty results.
pub open spec fn tick_spec(
    pre: UistV1V,
    post: UistV1V,
    has: bool,
    trades: Seq<TradeV>,
    inserted: Seq<OrderV>,
) -> bool {
    if pre.clock.has_next() {
        let stamped = stamp(sells_first(pre.buffer), pre.book.last_inserted);
        let book1 = pre.book.orders + stamped;
        let now = pre.clock.ticked().now();
        &&& post.clock == pre.clock.ticked()
        &&& inserted == stamped
        &&& trades == exec_trades(book1, pre.quotes, now)
        &&& post.book.orders == resting_after(book1, pre.quotes, now)
        &&& post.book.last_inserted == pre.book.last_inserted + pre.buffer.len()
        &&& post.trade_log == pre.trade_log + trades
        &&& post.buffer == Seq::<OrderV>::empty()
        &&& post.quotes == pre.quotes
        &&& post.dataset == pre.dataset
        &&& has == post.clock.has_next()
    } else {
        &&& post == pre
        &&& has == false
        &&& trades == Seq::<TradeV>::empty()
        &&& inserted == Seq::<OrderV>::empty()
    }
}

/// Start message of a session: the current timestamp and the frequency tag.
#[derive(Clone, Copy, Debug)]
pub struct InitMessage {
    pub start: i64,
    pub frequency: u8,
}

/// Version and dataset of a running session.
#[derive(Debug)]
pub struct InfoMessage {
    pub version: String,
    pub dataset: String,
}

impl InfoMessage {
    /// The message for protocol version 1.0.
    pub fn v1(dataset: String) -> (r: InfoMessage)
        ensures
            r.version@ == "1.0"@,
            r.dataset@ == dataset@,
    {
        InfoMessage { version: "1.0".to_owned(), dataset }
    }
}

/// The tick engine: owns the clock, the quote store, the order book, the
/// buffer of orders received since the last tick, and the append-only log
/// of every fill of the session.
#[derive(Debug)]
pub struct UistV1 {
    dataset: String,
    clock: Clock,
    price_source: Penelope,
    orderbook: OrderBook,
    pub trade_log: Vec<Trade>,
    pub order_buffer: Vec<Order>,
}

impl View for UistV1 {
    type V = UistV1V;

    closed spec fn view(&self) -> UistV1V {
        UistV1V {
            dataset: self.dataset@,
            clock: self.clock@,
            quotes: self.price_source@,
            book: self.orderbook@,
            trade_log: trades_view(self.trade_log@),
            buffer: orders_view(self.order_buffer@),
        }
    }
}

impl UistV1 {
    /// A fresh engine over a clock and a quote store: empty book, empty
    /// buffer, empty trade log.
    pub fn new(clock: Clock, price_source: Penelope, dataset: &str) -> (r: Self)
        requires
            clock@.wf(),
        ensures
            r@.clock == clock@,
            r@.quotes == price_source@,
            r@.dataset == dataset@,
            r@.book.orders =~= Seq::<OrderV>::empty(),
            r@.book.last_inserted == 0,
            r@.trade_log =~= Seq::<TradeV>::empty(),
            r@.buffer =~= Seq::<OrderV>::empty(),
            r@.wf(),
    {
        UistV1 {
            dataset: dataset.to_owned(),
            clock,
            price_source,
            orderbook: OrderBook::default(),
            trade_log: Vec::new(),
            order_buffer: Vec::new(),
        }
    }

    /// Version and dataset of this engine.
    pub fn info(&self) -> (r: InfoMessage)
        ensures
            r.version@ == "1.0"@,
            r.dataset@ == self@.dataset,
    {
        InfoMessage::v1(self.dataset.clone())
    }

    /// Start message: where the clock stands and at which frequency.
    pub fn init(&self) -> (r: InitMessage)
        requires
            self@.clock.wf(),
        ensures
            r.start == self@.clock.now(),
            r.frequency == frequency_code(self@.clock.frequency),
    {
        InitMessage { start: self.clock.now(), frequency: self.clock.frequency().code() }
    }

    /// The quotes at the current clock time, empty when the time is not
    /// indexed.
    pub fn fetch_quotes(&self) -> (r: Vec<UistQuote>)
        requires
            self@.clock.wf(),
        ensures
            match quotes_at(self@.quotes, self@.clock.now()) {
                Some(qs) => r@.map_values(|q: UistQuote| q@) == qs,
                None => r@.len() == 0,
            },
    {
        if let Some(quotes) = self.price_source.get_quotes(&self.clock.now()) {
            return quotes;
        }
        Vec::new()
    }

    /// Accept an order into the buffer. It reaches the book only on the next
    /// tick: ids are assigned late and same-tick execution is impossible.
    pub fn insert_order(&mut self, order: Order)
        ensures
            final(self)@ == (UistV1V { buffer: old(self)@.buffer.push(order@), ..old(self)@ }),
    {
        self.order_buffer.push(order);
        proof {
            assert(orders_view(self.order_buffer@) =~= old(self)@.buffer.push(
                self.order_buffer@.last()@,
            ));
        }
    }

    /// Remove the first resting order with the id from the book. Unknown ids
    /// are a silent no-op; buffered orders are not yet stamped and cannot be
    /// deleted.
    pub fn delete_order(&mut self, order_id: OrderId)
        ensures
            final(self)@ == (UistV1V {
                book: OrderBookV {
                    orders: delete_spec(old(self)@.book.orders, order_id),
                    last_inserted: old(self)@.book.last_inserted,
                },
                ..old(self)@
            }),
            old(self)@.wf() ==> final(self)@.wf(),
    {
        self.orderbook.delete_order(order_id);
    }

    /// Arrange the buffer sells-before-buys, keeping insertion order within
    /// each side.
    fn sort_order_buffer(&mut self)
        ensures
            final(self)@ == (UistV1V {
                buffer: sells_first(old(self)@.buffer),
                ..old(self)@
            }),
    {
        let ghost buf0 = orders_view(self.order_buffer@);
        let mut sells: Vec<Order> = Vec::new();
        let mut buys: Vec<Order> = Vec::new();
        let n = self.order_buffer.len();
        let mut i: usize = 0;
        proof {
            assert(buf0.take(0) =~= Seq::<OrderV>::empty());
            assert(orders_view(sells@) =~= Seq::<OrderV>::empty());
            assert(orders_view(buys@) =~= Seq::<OrderV>::empty());
        }
        while i < n
            invariant
                0 <= i <= n == self.order_buffer@.len(),
                buf0 == orders_view(self.order_buffer@),
                orders_view(sells@) == sell_part(buf0.take(i as int)),
                orders_view(buys@) == buy_part(buf0.take(i as int)),
            decreases n - i,
        {
            let ghost prefix = buf0.take(i as int);
            let ghost prefix1 = buf0.take(i + 1 as int);
            proof {
                assert(prefix1.drop_last() =~= prefix);
                assert(prefix1.last() == buf0[i as int]);
                assert(buf0[i as int] == self.order_buffer@[i as int]@);
            }
            let o = &self.order_buffer[i];
            if order_is_sell(&o.order_type) {
                sells.push(o.clone());
                proof {
                    assert(orders_view(sells@) =~= sell_part(prefix).push(buf0[i as int]));
                }
            } else {
                buys.push(o.clone());
                proof {
                    assert(orders_view(buys@) =~= buy_part(prefix).push(buf0[i as int]));
                }
            }
            i = i + 1;
        }
        proof {
            assert(buf0.take(n as int) =~= buf0);
        }
        let mut arranged = sells;
        arranged.append(&mut buys);
        self.order_buffer = arranged;
        proof {
            assert(orders_view(self.order_buffer@) =~= sells_first(buf0));
        }
    }

    /// One tick of the session, per [`tick_spec`]: advance time before the
    /// book is touched, drain the buffer into the book sells-first, execute
    /// at the new time, log the fills. On an exhausted clock the call is an
    /// idempotent no-op that reports `(false, [], [])`.
    pub fn tick(&mut self) -> (r: (bool, Vec<Trade>, Vec<Order>))
        requires
            old(self)@.wf(),
            old(self)@.book.last_inserted + old(self)@.buffer.len() <= u64::MAX,
        ensures
            final(self)@.wf(),
            tick_spec(old(self)@, final(self)@, r.0, trades_view(r.1@), orders_view(r.2@)),
    {
        let ghost pre = self@;
        if !self.clock.has_next() {
            let r = (false, Vec::<Trade>::new(), Vec::<Order>::new());
            proof {
                assert(trades_view(r.1@) =~= Seq::<TradeV>::empty());
                assert(orders_view(r.2@) =~= Seq::<OrderV>::empty());
            }
            return r;
        }
        // Advance time before touching the book: an order buffered at the
        // old time can only see quotes of the new one.
        self.clock.tick();
        self.sort_order_buffer();
        let ghost sorted = sells_first(pre.buffer);
        proof {
            lemma_sells_first_len(pre.buffer);
        }
        let ghost base = pre.book.last_inserted;
        let mut inserted: Vec<Order> = Vec::new();
        let n = self.order_buffer.len();
        let mut i: usize = 0;
        proof {
            assert(stamp(sorted.take(0), base) =~= Seq::<OrderV>::empty());
            assert(orders_view(inserted@) =~= Seq::<OrderV>::empty());
            assert(pre.book.orders + stamp(sorted.take(0), base) =~= pre.book.orders);
        }
        while i < n
            invariant
                0 <= i <= n == self.order_buffer@.len(),
                sorted == orders_view(self.order_buffer@),
                sorted.len() == pre.buffer.len(),
                base + sorted.len() <= u64::MAX,
                self@.clock == pre.clock.ticked(),
                self@.quotes == pre.quotes,
                self@.dataset == pre.dataset,
                self@.trade_log == pre.trade_log,
                self@.book.wf(),
                self@.book.last_inserted == base + i,
                self@.book.orders == pre.book.orders + stamp(sorted.take(i as int), base),
                orders_view(inserted@) == stamp(sorted.take(i as int), base),
            decreases n - i,
        {
            let mut o = self.order_buffer[i].clone();
            proof {
                assert(o@ == sorted[i as int]);
            }
            self.orderbook.insert_order(&mut o);
            inserted.push(o);
            proof {
                assert(stamp(sorted.take(i + 1 as int), base) =~= stamp(
                    sorted.take(i as int),
                    base,
                ).push(inserted@.last()@));
                assert(self@.book.orders =~= pre.book.orders + stamp(
                    sorted.take(i + 1 as int),
                    base,
                ));
                assert(orders_view(inserted@) =~= stamp(sorted.take(i + 1 as int), base));
            }
            i = i + 1;
        }
        proof {
            assert(sorted.take(n as int) =~= sorted);
        }
        let now = self.clock.now();
        let executed_trades = self.orderbook.execute_orders(now, &self.price_source);
        let ghost book1 = pre.book.orders + stamp(sorted, base);
        let m = executed_trades.len();
        let mut k: usize = 0;
        proof {
            assert(trades_view(executed_trades@).take(0) =~= Seq::<TradeV>::empty());
            assert(pre.trade_log + trades_view(executed_trades@).take(0) =~= pre.trade_log);
        }
        while k < m
            invariant
                0 <= k <= m == executed_trades@.len(),
                self@.trade_log == pre.trade_log + trades_view(executed_trades@).take(k as int),
                self@.clock == pre.clock.ticked(),
                self@.quotes == pre.quotes,
                self@.dataset == pre.dataset,
                self@.book == (OrderBookV {
                    orders: resting_after(book1, pre.quotes, pre.clock.ticked().now()),
                    last_inserted: (base + pre.buffer.len()) as u64,
                }),
                self@.book.wf(),
                sorted == orders_view(self.order_buffer@),
            decreases m - k,
        {
            let ghost pre_log = self.trade_log@;
            self.trade_log.push(executed_trades[k].clone());
            proof {
                let ev = trades_view(executed_trades@);
                assert(self.trade_log@.last()@ == ev[k as int]);
                assert(trades_view(self.trade_log@) =~= trades_view(pre_log).push(ev[k as int]));
                assert(ev.take(k + 1 as int) =~= ev.take(k as int).push(ev[k as int]));
                assert(trades_view(self.trade_log@) =~= pre.trade_log + ev.take(k + 1 as int));
            }
            k = k + 1;
        }
        proof {
            assert(trades_view(executed_trades@).take(m as int) =~= trades_view(
                executed_trades@,
            ));
        }
        self.order_buffer.clear();
        let has_next = self.clock.has_next();
        proof {
            assert(orders_view(self.order_buffer@) =~= Seq::<OrderV>::empty());
        }
        (has_next, executed_trades, inserted)
    }
}

/// Every trade of an execution pass is dated at the date of the pass.
proof fn lemma_exec_trades_dates(book: Seq<OrderV>, ps: PenelopeV, date: i64)
    ensures
        forall|k: int|
            0 <= k < exec_trades(book, ps, date).len() ==> (#[trigger] exec_trades(
                book,
                ps,
                date,
            )[k]).date == date,
    decreases book.len(),
{
    if book.len() > 0 {
        lemma_exec_trades_dates(book.drop_last(), ps, date);
    }
}

/// No lookahead: a tick on a live clock dates every resulting trade at the
/// time the clock advanced to, which is strictly after the time at which
/// every executed order was already resting or buffered.
pub proof fn lemma_no_lookahead(
    pre: UistV1V,
    post: UistV1V,
    has: bool,
    trades: Seq<TradeV>,
    inserted: Seq<OrderV>,
)
    requires
        tick_spec(pre, post, has, trades, inserted),
        pre.clock.wf(),
        pre.clock.has_next(),
    ensures
        forall|k: int|
            0 <= k < trades.len() ==> (#[trigger] trades[k]).date == post.clock.now(),
        post.clock.now() > pre.clock.now(),
{
    let stamped = stamp(sells_first(pre.buffer), pre.book.last_inserted);
    let book1 = pre.book.orders + stamped;
    lemma_exec_trades_dates(book1, pre.quotes, pre.clock.ticked().now());
}

/// Conservation of orders: a tick on a live clock returns exactly as many
/// stamped orders as the buffer held on entry, and leaves the buffer empty.
/// (A tick on an exhausted clock is a no-op and returns nothing.)
pub proof fn lemma_conservation(
    pre: UistV1V,
    post: UistV1V,
    has: bool,
    trades: Seq<TradeV>,
    inserted: Seq<OrderV>,
)
    requires
        tick_spec(pre, post, has, trades, inserted),
        pre.clock.has_next(),
    ensures
        inserted.len() == pre.buffer.len(),
        post.buffer.len() == 0,
{
    lemma_sells_first_len(pre.buffer);
}

/// Monotonic ids: the ids a tick stamps form the block starting at the
/// book's counter, and the counter only grows; so across two ticks of one
/// session, every id of the later tick exceeds every id of the earlier one.
pub proof fn lemma_monotonic_ids(
    pre1: UistV1V,
    post1: UistV1V,
    has1: bool,
    trades1: Seq<TradeV>,
    ins1: Seq<OrderV>,
    pre2: UistV1V,
    post2: UistV1V,
    has2: bool,
    trades2: Seq<TradeV>,
    ins2: Seq<OrderV>,
)
    requires
        tick_spec(pre1, post1, has1, trades1, ins1),
        tick_spec(pre2, post2, has2, trades2, ins2),
        pre1.clock.has_next(),
        pre2.clock.has_next(),
        pre1.book.last_inserted + pre1.buffer.len() <= u64::MAX,
        pre2.book.last_inserted + pre2.buffer.len() <= u64::MAX,
        post1.book.last_inserted <= pre2.book.last_inserted,
    ensures
        forall|i: int, j: int|
            0 <= i < ins1.len() && 0 <= j < ins2.len()
                ==> (#[trigger] ins1[i]).order_id->Some_0 < (#[trigger] ins2[j]).order_id->Some_0,
{
    lemma_sells_first_len(pre1.buffer);
    lemma_sells_first_len(pre2.buffer);
    assert forall|i: int, j: int|
        0 <= i < ins1.len() && 0 <= j < ins2.len() implies (#[trigger] ins1[i]).order_id->Some_0
        < (#[trigger] ins2[j]).order_id->Some_0 by {
        assert(ins1[i].order_id == Some((pre1.book.last_inserted + i) as u64));
        assert(ins2[j].order_id == Some((pre2.book.last_inserted + j) as u64));
    }
}

/// Fill price law: a Buy trade's value is its quantity at the ask of the
/// quote looked up for its symbol at its date; a Sell trade's value is its
/// quantity at the bid.
pub proof fn lemma_fill_price_law(book: Seq<OrderV>, ps: PenelopeV, date: i64)
    ensures
        forall|k: int|
            0 <= k < exec_trades(book, ps, date).len() ==> {
                let t = #[trigger] exec_trades(book, ps, date)[k];
                &&& quote_for(ps, date, t.symbol) is Some
                &&& (t.typ == TradeType::Buy ==> t.value == (quote_for(ps, date, t.symbol)->Some_0.ask
                    * t.quantity) as u128)
                &&& (t.typ == TradeType::Sell ==> t.value == (quote_for(ps, date, t.symbol)->Some_0.bid
                    * t.quantity) as u128)
            },
    decreases book.len(),
{
    if book.len() > 0 {
        lemma_fill_price_law(book.drop_last(), ps, date);
    }
}

/// Appending a batch to the book appends its trades to the walk's output.
proof fn lemma_exec_trades_concat(a: Seq<OrderV>, b: Seq<OrderV>, ps: PenelopeV, date: i64)
    ensures
        exec_trades(a + b, ps, date) == exec_trades(a, ps, date) + exec_trades(b, ps, date),
    decreases b.len(),
{
    if b.len() == 0 {
        assert(a + b =~= a);
        assert(exec_trades(a, ps, date) + exec_trades(b, ps, date) =~= exec_trades(a, ps, date));
    } else {
        lemma_exec_trades_concat(a, b.drop_last(), ps, date);
        assert((a + b).drop_last() =~= a + b.drop_last());
        assert((a + b).last() == b.last());
        assert(exec_trades(a, ps, date) + exec_trades(b.drop_last(), ps, date).push(
            exec_trades(b, ps, date).last(),
        ) =~= (exec_trades(a, ps, date) + exec_trades(b.drop_last(), ps, date)).push(
            exec_trades(b, ps, date).last(),
        )) by {
            if exec_trades(b, ps, date).len() > exec_trades(b.drop_last(), ps, date).len() {
            }
        }
        assert(exec_trades(a + b, ps, date) =~= exec_trades(a, ps, date) + exec_trades(
            b,
            ps,
            date,
        ));
    }
}

/// Stamping a concatenation stamps the parts with consecutive id blocks.
proof fn lemma_stamp_concat(x: Seq<OrderV>, y: Seq<OrderV>, base: u64)
    requires
        base + x.len() + y.len() <= u64::MAX,
    ensures
        stamp(x + y, base) == stamp(x, base) + stamp(y, (base + x.len()) as u64),
{
    assert(stamp(x + y, base) =~= stamp(x, base) + stamp(y, (base + x.len()) as u64));
}

/// All orders of the sell part sell; all orders of the buy part buy.
proof fn lemma_parts_sides(s: Seq<OrderV>)
    ensures
        forall|i: int| 0 <= i < sell_part(s).len() ==> is_sell((#[trigger] sell_part(s)[i]).order_type),
        forall|i: int| 0 <= i < buy_part(s).len() ==> !is_sell((#[trigger] buy_part(s)[i]).order_type),
    decreases s.len(),
{
    if s.len() > 0 {
        lemma_parts_sides(s.drop_last());
    }
}

/// A walk over sell orders only emits Sell trades; over buy orders only
/// Buy trades.
proof fn lemma_exec_trades_sides(s: Seq<OrderV>, ps: PenelopeV, date: i64)
    ensures
        (forall|i: int| 0 <= i < s.len() ==> is_sell((#[trigger] s[i]).order_type)) ==> forall|
            k: int,
        |
            0 <= k < exec_trades(s, ps, date).len() ==> (#[trigger] exec_trades(s, ps, date)[k]).typ
                == TradeType::Sell,
        (forall|i: int| 0 <= i < s.len() ==> !is_sell((#[trigger] s[i]).order_type)) ==> forall|
            k: int,
        |
            0 <= k < exec_trades(s, ps, date).len() ==> (#[trigger] exec_trades(s, ps, date)[k]).typ
                == TradeType::Buy,
    decreases s.len(),
{
    if s.len() > 0 {
        lemma_exec_trades_sides(s.drop_last(), ps, date);
        assert(forall|i: int| 0 <= i < s.drop_last().len() ==> (#[trigger] s.drop_last()[i])
            == s[i]);
    }
}

/// Sells before buys: within one tick, every Sell trade produced from the
/// newly buffered batch precedes every Buy trade produced from it. The
/// trades of orders already resting before the tick come first and are not
/// constrained here.
pub proof fn lemma_sells_before_buys(
    pre: UistV1V,
    post: UistV1V,
    has: bool,
    trades: Seq<TradeV>,
    inserted: Seq<OrderV>,
)
    requires
        tick_spec(pre, post, has, trades, inserted),
        pre.clock.has_next(),
        pre.book.last_inserted + pre.buffer.len() <= u64::MAX,
    ensures
        ({
            let prior = exec_trades(pre.book.orders, pre.quotes, pre.clock.ticked().now());
            let batch = trades.skip(prior.len() as int);
            forall|i: int, j: int|
                0 <= i < j < batch.len() && (#[trigger] batch[i]).typ == TradeType::Buy
                    ==> (#[trigger] batch[j]).typ == TradeType::Buy
        }),
{
    let now = pre.clock.ticked().now();
    let base = pre.book.last_inserted;
    let buf = pre.buffer;
    let prior = exec_trades(pre.book.orders, pre.quotes, now);
    lemma_sells_first_len(buf);
    let sl = sell_part(buf);
    let bl = buy_part(buf);
    let stamped = stamp(sells_first(buf), base);
    lemma_stamp_concat(sl, bl, base);
    assert(stamped == stamp(sl, base) + stamp(bl, (base + sl.len()) as u64));
    lemma_exec_trades_concat(pre.book.orders, stamped, pre.quotes, now);
    lemma_exec_trades_concat(stamp(sl, base), stamp(bl, (base + sl.len()) as u64), pre.quotes, now);
    let st = exec_trades(stamp(sl, base), pre.quotes, now);
    let bt = exec_trades(stamp(bl, (base + sl.len()) as u64), pre.quotes, now);
    lemma_parts_sides(buf);
    assert(forall|i: int|
        0 <= i < stamp(sl, base).len() ==> is_sell((#[trigger] stamp(sl, base)[i]).order_type));
    assert(forall|i: int|
        0 <= i < stamp(bl, (base + sl.len()) as u64).len() ==> !is_sell(
            (#[trigger] stamp(bl, (base + sl.len()) as u64)[i]).order_type,
        ));
    lemma_exec_trades_sides(stamp(sl, base), pre.quotes, now);
    lemma_exec_trades_sides(stamp(bl, (base + sl.len()) as u64), pre.quotes, now);
    let batch = trades.skip(prior.len() as int);
    assert(batch =~= st + bt);
    assert forall|i: int, j: int|
        0 <= i < j < batch.len() && (#[trigger] batch[i]).typ == TradeType::Buy implies (
    #[trigger] batch[j]).typ == TradeType::Buy by {
        if i < st.len() {
            assert(batch[i] == st[i]);
            assert(batch[i].typ == TradeType::Sell);
        } else {
            assert(batch[j] == bt[j - st.len()]);
        }
    }
}

/// An engine over random quotes for use in trials that do not depend on
/// price levels, with a copy of its clock.
pub fn random_uist_generator(length: i64) -> (r: (UistV1, Clock))
    requires
        1 <= length <= 1000000,
    ensures
        r.0@.wf(),
        r.0@.dataset == "RANDOM"@,
        r.1@ == r.0@.clock,
        r.0@.clock.schedule.len() == length,
{
    let (price_source, clock) = Penelope::random(length);
    let clock_copy = clock.clone();
    (UistV1::new(clock, price_source, "RANDOM"), clock_copy)
}

} // verus!

use rotala::clock::{Clock, Frequency};
use rotala::penelope::{Penelope, PenelopeBuilder};
use rotala::uist::{Order, OrderBook, OrderType, TradeType, UistV1};

fn setup_orderbook() -> (Clock, Penelope) {
    let mut price_source_builder = PenelopeBuilder::new();
    price_source_builder.add_quote(101, 102, 100, "ABC");
    price_source_builder.add_quote(102, 103, 101, "ABC");
    price_source_builder.add_quote(105, 106, 102, "ABC");

    let (penelope, clock) = price_source_builder.build_with_frequency(Frequency::Second);
    (clock, penelope)
}

#[test]
fn test_that_multiple_orders_will_execute() {
    let (_clock, source) = setup_orderbook();
    let mut orderbook = OrderBook::new();
    let mut order = Order {
        order_id: None,
        order_type: OrderType::MarketBuy,
        symbol: "ABC".to_string(),
        shares: 25,
        price: None,
    };
    orderbook.insert_order(&mut order);
    let mut order1 = Order {
        order_id: None,
        order_type: OrderType::MarketBuy,
        symbol: "ABC".to_string(),
        shares: 25,
        price: None,
    };
    orderbook.insert_order(&mut order1);
    let mut order2 = Order {
        order_id: None,
        order_type: OrderType::MarketBuy,
        symbol: "ABC".to_string(),
        shares: 25,
        price: None,
    };
    orderbook.insert_order(&mut order2);
    let mut order3 = Order {
        order_id: None,
        order_type: OrderType::MarketBuy,
        symbol: "ABC".to_string(),
        shares: 25,
        price: None,
    };
    orderbook.insert_order(&mut order3);

    let executed = orderbook.execute_orders(100, &source);
    assert_eq!(executed.len(), 4);
}

#[test]
fn test_that_buy_market_executes() {
    let (_clock, source) = setup_orderbook();
    let mut orderbook = OrderBook::new();
    let mut order = Order {
        order_id: None,
        order_type: OrderType::MarketBuy,
        symbol: "ABC".to_string(),
        shares: 100,
        price: None,
    };

    orderbook.insert_order(&mut order);
    let mut executed = orderbook.execute_orders(100, &source);
    assert_eq!(executed.len(), 1);

    let trade = executed.pop().unwrap();
    //Trade executes at 100 so trade price should be 102
    assert_eq!(trade.value / (trade.quantity as u128), 102);
    assert_eq!(trade.date, 100);
}

#[test]
fn test_that_sell_market_executes() {
    let (_clock, source) = setup_orderbook();
    let mut orderbook = OrderBook::new();
    let mut order = Order {
        order_id: None,
        order_type: OrderType::MarketSell,
        symbol: "ABC".to_string(),
        shares: 100,
        price: None,
    };

    orderbook.insert_order(&mut order);
    let mut executed = orderbook.execute_orders(100, &source);
    assert_eq!(executed.len(), 1);

    let trade = executed.pop().unwrap();
    //Trade executes at 100 so trade price should be 101
    assert_eq!(trade.value / (trade.quantity as u128), 101);
    assert_eq!(trade.date, 100);
}

#[test]
fn test_that_buy_limit_triggers_correctly() {
    let (_clock, source) = setup_orderbook();
    let mut orderbook = OrderBook::new();
    let mut order = Order {
        order_id: None,
        order_type: OrderType::LimitBuy,
        symbol: "ABC".to_string(),
        shares: 100,
        price: Some(95),
    };
    let mut order1 = Order {
        order_id: None,
        order_type: OrderType::LimitBuy,
        symbol: "ABC".to_string(),
        shares: 100,
        price: Some(105),
    };

    orderbook.insert_order(&mut order);
    orderbook.insert_order(&mut order1);
    let mut executed = orderbook.execute_orders(100, &source);
    //Only one order should execute on this tick
    assert_eq!(executed.len(), 1);

    let trade = executed.pop().unwrap();
    //Limit order has price of 105 but should execute at the ask, which is 102
    assert_eq!(trade.value / (trade.quantity as u128), 102);
    assert_eq!(trade.date, 100);
}

#[test]
fn test_that_sell_limit_triggers_correctly() {
    let (_clock, source) = setup_orderbook();
    let mut orderbook = OrderBook::new();
    let mut order = Order {
        order_id: None,
        order_type: OrderType::LimitSell,
        symbol: "ABC".to_string(),
        shares: 100,
        price: Some(95),
    };
    let mut order1 = Order {
        order_id: None,
        order_type: OrderType::LimitSell,
        symbol: "ABC".to_string(),
        shares: 100,
        price: Some(105),
    };

    orderbook.insert_order(&mut order);
    orderbook.insert_order(&mut order1);
    let mut executed = orderbook.execute_orders(100, &source);
    //Only one order should execute on this tick
    assert_eq!(executed.len(), 1);

    let trade = executed.pop().unwrap();
    //Limit order has price of 95 but should execute at the bid, which is 101
    assert_eq!(trade.value / (trade.quantity as u128), 101);
    assert_eq!(trade.date, 100);
}

#[test]
fn test_that_buy_stop_triggers_correctly() {
    //We are short from 90, and we put a StopBuy of 95 & 105 to take
    //off the position. If we are quoted 101/102 then 95 order
    //should be executed.

    let (_clock, source) = setup_orderbook();
    let mut orderbook = OrderBook::new();
    let mut order = Order {
        order_id: None,
        order_type: OrderType::StopBuy,
        symbol: "ABC".to_string(),
        shares: 100,
        price: Some(95),
    };
    let mut order1 = Order {
        order_id: None,
        order_type: OrderType::StopBuy,
        symbol: "ABC".to_string(),
        shares: 100,
        price: Some(105),
    };

    orderbook.insert_order(&mut order);
    orderbook.insert_order(&mut order1);
    let mut executed = orderbook.execute_orders(100, &source);
    //Only one order should execute on this tick
    assert_eq!(executed.len(), 1);

    let trade = executed.pop().unwrap();
    //Stop order has price of 95 but should execute at the ask, which is 102
    assert_eq!(trade.value / (trade.quantity as u128), 102);
    assert_eq!(trade.date, 100);
}

#[test]
fn test_that_sell_stop_triggers_correctly() {
    //Long from 110, we place orders to exit at 99 and 105.
    //If we are quoted 101/102 then our 105 StopSell is executed.

    let (_clock, source) = setup_orderbook();
    let mut orderbook = OrderBook::new();
    let mut order = Order {
        order_id: None,
        order_type: OrderType::StopSell,
        symbol: "ABC".to_string(),
        shares: 100,
        price: Some(99),
    };
    let mut order1 = Order {
        order_id: None,
        order_type: OrderType::StopSell,
        symbol: "ABC".to_string(),
        shares: 100,
        price: Some(105),
    };

    orderbook.insert_order(&mut order);
    orderbook.insert_order(&mut order1);
    let mut executed = orderbook.execute_orders(100, &source);
    //Only one order should execute on this tick
    assert_eq!(executed.len(), 1);

    let trade = executed.pop().unwrap();
    //Stop order has price of 105 but should execute at the bid, which is 101
    assert_eq!(trade.value / (trade.quantity as u128), 101);
    assert_eq!(trade.date, 100);
}

#[test]
fn test_that_order_for_nonexistent_stock_fails_silently_orderbook() {
    let (_clock, source) = setup_orderbook();
    let mut orderbook = OrderBook::new();
    let mut order = Order {
        order_id: None,
        order_type: OrderType::MarketBuy,
        symbol: "XYZ".to_string(),
        shares: 100,
        price: None,
    };

    orderbook.insert_order(&mut order);
    let executed = orderbook.execute_orders(100, &source);
    assert_eq!(executed.len(), 0);
}

#[test]
fn test_that_order_with_missing_price_executes_later_orderbook() {
    let mut price_source_builder = PenelopeBuilder::new();
    price_source_builder.add_quote(101, 102, 100, "ABC");
    price_source_builder.add_quote(105, 106, 102, "ABC");

    let (price_source, mut clock) = price_source_builder.build_with_frequency(Frequency::Second);

    clock.tick();

    let mut orderbook = OrderBook::new();
    let mut order = Order {
        order_id: None,
        order_type: OrderType::MarketBuy,
        symbol: "ABC".to_string(),
        shares: 100,
        price: None,
    };
    orderbook.insert_order(&mut order);
    let orders = orderbook.execute_orders(101, &price_source);
    //Trades cannot execute without prices
    assert_eq!(orders.len(), 0);
    assert!(!orderbook.is_empty());

    //Order executes now with prices
    let mut orders = orderbook.execute_orders(102, &price_source);
    assert_eq!(orders.len(), 1);

    let trade = orders.pop().unwrap();
    assert_eq!(trade.value / (trade.quantity as u128), 106);
    assert_eq!(trade.date, 102);
}

fn setup() -> UistV1 {
    let mut source_builder = PenelopeBuilder::new();
    source_builder.add_quote(101, 102, 100, "ABC");
    source_builder.add_quote(102, 103, 101, "ABC");
    source_builder.add_quote(105, 106, 102, "ABC");

    let (source, clock) = source_builder.build_with_frequency(Frequency::Second);

    UistV1::new(clock, source, "FAKE")
}

#[test]
fn uist_v1_test_that_buy_market_executes_incrementing_trade_log() {
    let mut exchange = setup();

    exchange.insert_order(Order::market_buy("ABC".to_string(), 100));
    exchange.tick();

    assert_eq!(exchange.trade_log.len(), 1);
}

#[test]
fn uist_v1_test_that_multiple_orders_are_executed_on_same_tick() {
    let mut exchange = setup();

    exchange.insert_order(Order::market_buy("ABC".to_string(), 25));
    exchange.insert_order(Order::market_buy("ABC".to_string(), 25));
    exchange.insert_order(Order::market_buy("ABC".to_string(), 25));
    exchange.insert_order(Order::market_buy("ABC".to_string(), 25));

    exchange.tick();
    assert_eq!(exchange.trade_log.len(), 4);
}

#[test]
fn uist_v1_test_that_multiple_orders_are_executed_on_consecutive_tick() {
    let mut exchange = setup();
    exchange.insert_order(Order::market_buy("ABC".to_string(), 25));
    exchange.insert_order(Order::market_buy("ABC".to_string(), 25));
    exchange.tick();

    exchange.insert_order(Order::market_buy("ABC".to_string(), 25));
    exchange.insert_order(Order::market_buy("ABC".to_string(), 25));
    exchange.tick();

    assert_eq!(exchange.trade_log.len(), 4);
}

#[test]
fn uist_v1_test_that_buy_market_executes_on_next_tick() {
    //Verifies that trades do not execute instaneously removing lookahead bias
    let mut exchange = setup();

    exchange.insert_order(Order::market_buy("ABC".to_string(), 100));
    exchange.tick();

    assert_eq!(exchange.trade_log.len(), 1);
    let trade = exchange.trade_log.remove(0);
    //Trade executes at 101 so trade price should be 103
    assert_eq!(trade.value / (trade.quantity as u128), 103);
    assert_eq!(trade.date, 101);
}

#[test]
fn uist_v1_test_that_sell_market_executes_on_next_tick() {
    //Verifies that trades do not execute instaneously removing lookahead bias
    let mut exchange = setup();

    exchange.insert_order(Order::market_sell("ABC".to_string(), 100));
    exchange.tick();

    assert_eq!(exchange.trade_log.len(), 1);
    let trade = exchange.trade_log.remove(0);
    //Trade executes at 101 so trade price should be 102
    assert_eq!(trade.value / (trade.quantity as u128), 102);
    assert_eq!(trade.date, 101);
}

#[test]
fn uist_v1_test_that_order_for_nonexistent_stock_fails_silently() {
    let mut exchange = setup();

    exchange.insert_order(Order::market_buy("XYZ".to_string(), 100));
    exchange.tick();

    assert_eq!(exchange.trade_log.len(), 0);
}

#[test]
fn uist_v1_test_that_order_buffer_clears() {
    //Sounds redundant but accidentally removing the clear could cause unusual errors elsewhere
    let mut exchange = setup();

    exchange.insert_order(Order::market_buy("ABC".to_string(), 100));
    exchange.tick();

    assert!(exchange.order_buffer.is_empty());
}

#[test]
fn uist_v1_test_that_order_with_missing_price_executes_later() {
    let mut source_builder = PenelopeBuilder::new();
    source_builder.add_quote(101, 102, 100, "ABC");
    source_builder.add_quote(105, 106, 102, "ABC");

    let (source, clock) = source_builder.build_with_frequency(Frequency::Second);

    let mut exchange = UistV1::new(clock, source, "FAKE");

    exchange.insert_order(Order::market_buy("ABC".to_string(), 100));
    exchange.tick();
    //Orderbook should have one order and trade log has no executed trades
    assert_eq!(exchange.trade_log.len(), 0);

    exchange.tick();
    //Order should execute now
    assert_eq!(exchange.trade_log.len(), 1);
}

#[test]
fn test_that_sells_are_executed_before_buy() {
    let mut exchange = setup();

    exchange.insert_order(Order::market_buy("ABC".to_string(), 100));
    exchange.insert_order(Order::market_buy("ABC".to_string(), 100));
    exchange.insert_order(Order::market_sell("ABC".to_string(), 100));
    let res = exchange.tick();

    assert_eq!(res.1.len(), 3);
    assert_eq!(res.1.get(0).unwrap().typ, TradeType::Sell)
}

#[test]
fn test_random_uist_generator_quotes_stay_in_band() {
    let (mut exchange, clock) = rotala::uist::random_uist_generator(3000);
    assert_eq!(clock.now(), 100);
    let quotes = exchange.fetch_quotes();
    assert_eq!(quotes.len(), 2);
    for q in &quotes {
        assert!((90..100).contains(&q.bid));
        assert!((90..100).contains(&q.ask));
    }
    exchange.insert_order(Order::market_buy("ABC".to_string(), 10));
    let (has_next, trades, inserted) = exchange.tick();
    assert!(has_next);
    assert_eq!(trades.len(), 1);
    assert_eq!(inserted.len(), 1);
    let unit = trades[0].value / (trades[0].quantity as u128);
    assert!((90..100).contains(&(unit as u64)));
}

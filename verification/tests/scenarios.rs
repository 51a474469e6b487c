use rotala::clock::Frequency;
use rotala::penelope::PenelopeBuilder;
use rotala::uist::{Order, TradeType, UistV1};

fn two_tick_exchange() -> UistV1 {
    let mut builder = PenelopeBuilder::new();
    builder.add_quote(101, 102, 100, "ABC");
    builder.add_quote(102, 103, 101, "ABC");
    let (source, clock) = builder.build_with_frequency(Frequency::Second);
    UistV1::new(clock, source, "FAKE")
}

#[test]
fn scenario_market_buy_next_tick() {
    // An order inserted at time 100 executes only at 101, at the ask of 101.
    let mut exchange = two_tick_exchange();
    exchange.insert_order(Order::market_buy("ABC".to_string(), 100));
    let (has_next, trades, inserted) = exchange.tick();

    assert!(!has_next);
    assert_eq!(trades.len(), 1);
    assert_eq!(trades[0].value, 10300);
    assert_eq!(trades[0].quantity, 100);
    assert_eq!(trades[0].date, 101);
    assert_eq!(trades[0].typ, TradeType::Buy);
    assert_eq!(inserted.len(), 1);
    assert_eq!(exchange.trade_log.len(), 1);
    assert!(exchange.order_buffer.is_empty());
}

#[test]
fn scenario_four_orders_one_tick() {
    let mut exchange = two_tick_exchange();
    for _ in 0..4 {
        exchange.insert_order(Order::market_buy("ABC".to_string(), 25));
    }
    let (_, trades, _) = exchange.tick();
    assert_eq!(trades.len(), 4);
    for t in &trades {
        assert_eq!(t.value, 25 * 103);
        assert_eq!(t.date, 101);
    }
}

#[test]
fn scenario_limit_buy_tick() {
    // With quotes 102/103 at the execution tick, only the limit at 105
    // fires (105 >= 103); it executes at the ask, 103. The limit at 95
    // stays resting.
    let mut exchange = two_tick_exchange();
    exchange.insert_order(Order::limit_buy("ABC".to_string(), 100, 95));
    exchange.insert_order(Order::limit_buy("ABC".to_string(), 100, 105));
    let (_, trades, inserted) = exchange.tick();

    assert_eq!(inserted.len(), 2);
    assert_eq!(trades.len(), 1);
    assert_eq!(trades[0].value / (trades[0].quantity as u128), 103);
    assert_eq!(trades[0].typ, TradeType::Buy);
}

#[test]
fn scenario_stop_sell_above_bid() {
    // With a bid of 102 at the execution tick, the stop at 105 fires
    // (105 >= 102) and sells at the bid; the stop at 99 does not.
    let mut exchange = two_tick_exchange();
    exchange.insert_order(Order::stop_sell("ABC".to_string(), 100, 99));
    exchange.insert_order(Order::stop_sell("ABC".to_string(), 100, 105));
    let (_, trades, _) = exchange.tick();

    assert_eq!(trades.len(), 1);
    assert_eq!(trades[0].value / (trades[0].quantity as u128), 102);
    assert_eq!(trades[0].typ, TradeType::Sell);
}

#[test]
fn scenario_unknown_symbol_rests_silently() {
    let mut builder = PenelopeBuilder::new();
    builder.add_quote(101, 102, 100, "ABC");
    builder.add_quote(102, 103, 101, "ABC");
    builder.add_quote(105, 106, 102, "ABC");
    let (source, clock) = builder.build_with_frequency(Frequency::Second);
    let mut exchange = UistV1::new(clock, source, "FAKE");

    exchange.insert_order(Order::market_buy("XYZ".to_string(), 100));
    exchange.tick();
    assert_eq!(exchange.trade_log.len(), 0);
    exchange.tick();
    assert_eq!(exchange.trade_log.len(), 0);
}

#[test]
fn scenario_sells_precede_buys() {
    let mut exchange = two_tick_exchange();
    exchange.insert_order(Order::market_buy("ABC".to_string(), 100));
    exchange.insert_order(Order::market_buy("ABC".to_string(), 100));
    exchange.insert_order(Order::market_sell("ABC".to_string(), 100));
    let (_, trades, _) = exchange.tick();

    assert_eq!(trades.len(), 3);
    assert_eq!(trades[0].typ, TradeType::Sell);
    assert_eq!(trades[1].typ, TradeType::Buy);
    assert_eq!(trades[2].typ, TradeType::Buy);
}

#[test]
fn scenario_delayed_quote() {
    // Quotes at 100 and 102 only: the first tick lands on 101 where no
    // quote exists and the order rests; the second tick fills it at 106.
    let mut builder = PenelopeBuilder::new();
    builder.add_quote(101, 102, 100, "ABC");
    builder.add_quote(105, 106, 102, "ABC");
    let (source, clock) = builder.build_with_frequency(Frequency::Second);
    let mut exchange = UistV1::new(clock, source, "FAKE");

    exchange.insert_order(Order::market_buy("ABC".to_string(), 100));
    let (_, first, _) = exchange.tick();
    assert_eq!(first.len(), 0);

    let (_, second, _) = exchange.tick();
    assert_eq!(second.len(), 1);
    assert_eq!(second[0].value, 10600);
    assert_eq!(second[0].date, 102);
}

#[test]
fn scenario_exhausted_clock_tick_is_no_op() {
    let mut exchange = two_tick_exchange();
    let (has_next, _, _) = exchange.tick();
    assert!(!has_next);

    exchange.insert_order(Order::market_buy("ABC".to_string(), 100));
    let (has_next, trades, inserted) = exchange.tick();
    assert!(!has_next);
    assert_eq!(trades.len(), 0);
    assert_eq!(inserted.len(), 0);
    assert_eq!(exchange.trade_log.len(), 0);
    // No state change after exhaustion: the buffered order stays buffered.
    assert_eq!(exchange.order_buffer.len(), 1);
}

#[test]
fn scenario_delete_is_idempotent() {
    // Three ticks of schedule; the resting limit order is deleted after it
    // got its id, and deleting it twice more changes nothing.
    let mut builder = PenelopeBuilder::new();
    builder.add_quote(101, 102, 100, "ABC");
    builder.add_quote(102, 103, 101, "ABC");
    builder.add_quote(120, 121, 102, "ABC");
    let (source, clock) = builder.build_with_frequency(Frequency::Second);
    let mut exchange = UistV1::new(clock, source, "FAKE");

    // A limit buy far below the market rests forever until deleted.
    exchange.insert_order(Order::limit_buy("ABC".to_string(), 100, 50));
    let (_, trades, inserted) = exchange.tick();
    assert_eq!(trades.len(), 0);
    let id = inserted[0].order_id.unwrap();

    exchange.delete_order(id);
    exchange.delete_order(id);
    exchange.delete_order(9999);

    let (_, trades, _) = exchange.tick();
    assert_eq!(trades.len(), 0);
    assert_eq!(exchange.trade_log.len(), 0);
}

#[test]
fn scenario_order_ids_grow_across_ticks() {
    let mut builder = PenelopeBuilder::new();
    builder.add_quote(101, 102, 100, "ABC");
    builder.add_quote(102, 103, 101, "ABC");
    builder.add_quote(105, 106, 102, "ABC");
    let (source, clock) = builder.build_with_frequency(Frequency::Second);
    let mut exchange = UistV1::new(clock, source, "FAKE");

    exchange.insert_order(Order::market_buy("ABC".to_string(), 10));
    exchange.insert_order(Order::market_sell("ABC".to_string(), 10));
    let (_, _, first_batch) = exchange.tick();
    // Ids follow the sells-first arrangement, not arrival order.
    assert_eq!(first_batch[0].order_id, Some(0));
    assert_eq!(first_batch[1].order_id, Some(1));
    assert_eq!(first_batch[0].order_type, rotala::uist::OrderType::MarketSell);

    exchange.insert_order(Order::market_buy("ABC".to_string(), 10));
    let (_, _, second_batch) = exchange.tick();
    assert_eq!(second_batch[0].order_id, Some(2));
}

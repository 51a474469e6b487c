use rotala::clock::Frequency;
use rotala::jura::{
    AppState, Dataset, DeleteOrderRequest, InsertOrderRequest, JuraV1Error, delete_order,
    fetch_quotes, info, init, insert_order, tick,
};
use rotala::penelope::PenelopeBuilder;
use rotala::uist::{Order, TradeType};

fn fake_dataset() -> Dataset {
    let mut builder = PenelopeBuilder::new();
    builder.add_quote(101, 102, 100, "ABC");
    builder.add_quote(102, 103, 101, "ABC");
    builder.add_quote(105, 106, 102, "ABC");
    let (quotes, clock) = builder.build_with_frequency(Frequency::Second);
    Dataset { quotes, clock }
}

#[test]
fn test_single_registry_serves_its_session() {
    let mut state = AppState::single("fake", fake_dataset());

    let quotes = state.fetch_quotes(0).unwrap();
    assert_eq!(quotes.len(), 1);
    assert_eq!(quotes[0].symbol, "ABC");

    state
        .insert_order(Order::market_buy("ABC".to_string(), 100), 0)
        .unwrap();
    let (has_next, trades, inserted) = state.tick(0).unwrap();
    assert!(has_next);
    assert_eq!(trades.len(), 1);
    assert_eq!(trades[0].value, 10300);
    assert_eq!(inserted.len(), 1);
    assert_eq!(inserted[0].order_id, Some(0));

    let msg = state.info(0).unwrap();
    assert_eq!(msg.version, "1.0");
    assert_eq!(msg.dataset, "fake");
}

#[test]
fn test_unknown_session_is_rejected() {
    let mut state = AppState::single("fake", fake_dataset());
    assert!(state.tick(42).is_none());
    assert!(state.fetch_quotes(42).is_none());
    assert!(state.info(42).is_none());
    assert!(state
        .insert_order(Order::market_buy("ABC".to_string(), 1), 42)
        .is_none());
    assert!(state.delete_order(0, 42).is_none());
}

#[test]
fn test_init_assigns_monotonic_session_ids() {
    let mut datasets = Vec::new();
    datasets.push(("fake".to_string(), fake_dataset()));
    let mut state = AppState::create(datasets);

    let first = state.init("fake".to_string()).unwrap();
    let second = state.init("fake".to_string()).unwrap();
    let third = state.init("fake".to_string()).unwrap();
    assert_eq!(first, 1);
    assert_eq!(second, 2);
    assert_eq!(third, 3);
    assert!(state.init("unknown".to_string()).is_none());
}

#[test]
fn test_sessions_are_isolated() {
    let mut datasets = Vec::new();
    datasets.push(("fake".to_string(), fake_dataset()));
    let mut state = AppState::create(datasets);
    let a = state.init("fake".to_string()).unwrap();
    let b = state.init("fake".to_string()).unwrap();

    // Orders and ticks in session A leave session B untouched.
    state
        .insert_order(Order::market_buy("ABC".to_string(), 100), a)
        .unwrap();
    let (_, trades_a, _) = state.tick(a).unwrap();
    assert_eq!(trades_a.len(), 1);

    let (_, trades_b, inserted_b) = state.tick(b).unwrap();
    assert_eq!(trades_b.len(), 0);
    assert_eq!(inserted_b.len(), 0);

    // Session B starts its own id sequence: ids are engine-local.
    state
        .insert_order(Order::market_sell("ABC".to_string(), 5), b)
        .unwrap();
    let (_, trades_b, inserted_b) = state.tick(b).unwrap();
    assert_eq!(trades_b.len(), 1);
    assert_eq!(trades_b[0].typ, TradeType::Sell);
    assert_eq!(inserted_b[0].order_id, Some(0));
}

#[test]
fn test_handlers_answer_the_protocol() {
    let mut datasets = Vec::new();
    datasets.push(("fake".to_string(), fake_dataset()));
    let mut state = AppState::create(datasets);

    let resp = init(&mut state, "fake").unwrap();
    assert_eq!(resp.backtest_id, 1);
    assert_eq!(resp.start, 100);
    assert_eq!(resp.frequency, 0);
    assert_eq!(init(&mut state, "nope").unwrap_err(), JuraV1Error::UnknownDataset);

    let id = resp.backtest_id;
    let quotes = fetch_quotes(&state, id).unwrap();
    assert_eq!(quotes.quotes.len(), 1);

    insert_order(
        &mut state,
        InsertOrderRequest { order: Order::limit_buy("ABC".to_string(), 10, 50) },
        id,
    )
    .unwrap();
    let ticked = tick(&mut state, id).unwrap();
    assert!(ticked.has_next);
    assert_eq!(ticked.executed_trades.len(), 0);
    assert_eq!(ticked.inserted_orders.len(), 1);

    let order_id = ticked.inserted_orders[0].order_id.unwrap();
    delete_order(&mut state, DeleteOrderRequest { order_id }, id).unwrap();
    // Deleting the same id again is a silent no-op.
    delete_order(&mut state, DeleteOrderRequest { order_id }, id).unwrap();

    let ticked = tick(&mut state, id).unwrap();
    assert_eq!(ticked.executed_trades.len(), 0);

    let about = info(&state, id).unwrap();
    assert_eq!(about.version, "1.0");
    assert_eq!(about.dataset, "fake");

    assert_eq!(tick(&mut state, 99).unwrap_err(), JuraV1Error::UnknownBacktest);
    assert_eq!(info(&state, 99).unwrap_err(), JuraV1Error::UnknownBacktest);
    assert_eq!(fetch_quotes(&state, 99).unwrap_err(), JuraV1Error::UnknownBacktest);
    assert_eq!(
        insert_order(
            &mut state,
            InsertOrderRequest { order: Order::market_buy("ABC".to_string(), 1) },
            99,
        )
        .unwrap_err(),
        JuraV1Error::UnknownBacktest
    );
    assert_eq!(
        delete_order(&mut state, DeleteOrderRequest { order_id: 0 }, 99).unwrap_err(),
        JuraV1Error::UnknownBacktest
    );
}

#[test]
fn test_deleted_order_does_not_execute() {
    let mut state = AppState::single("fake", fake_dataset());

    // A limit buy at 104 fills on the first tick (ask 103 at time 101).
    state
        .insert_order(Order::limit_buy("ABC".to_string(), 10, 104), 0)
        .unwrap();
    let (_, trades, inserted) = state.tick(0).unwrap();
    assert_eq!(trades.len(), 1);
    assert_eq!(inserted.len(), 1);

    // Insert one that cannot fill (limit 10), delete it, and see that the
    // remaining schedule produces no trade for it.
    state
        .insert_order(Order::limit_buy("ABC".to_string(), 10, 10), 0)
        .unwrap();
    let (_, trades, inserted) = state.tick(0).unwrap();
    assert_eq!(trades.len(), 0);
    let oid = inserted[0].order_id.unwrap();
    state.delete_order(oid, 0).unwrap();
    state.delete_order(oid, 0).unwrap();
    let result = state.tick(0);
    assert!(result.is_none() || result.unwrap().1.is_empty());
}

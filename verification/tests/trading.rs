use rotala::trading::{DefaultTradingSchedule, LastBusinessDayTradingSchedule, TradingSchedule};

#[test]
fn test_that_schedule_returns_true_for_last_day_of_month() {
    // Date 30/09/21 - 17:00:0000
    assert!(LastBusinessDayTradingSchedule::should_trade(&1633021200));
    // Date 29/10/21 - 17:00:0000
    assert!(LastBusinessDayTradingSchedule::should_trade(&1635526800));
}

#[test]
fn test_that_schedule_returns_false_for_non_last_day_of_month() {
    // Date 1/11/21 - 9:00:0000
    assert!(!LastBusinessDayTradingSchedule::should_trade(&1635757200));
    // Date 12/11/21 - 17:00:0000
    assert!(!LastBusinessDayTradingSchedule::should_trade(&1636736400));
    //Date 31/10/21 - 9:00:0000
    assert!(!LastBusinessDayTradingSchedule::should_trade(&1635670800));
    //Date 22/1/21 - 9:00:0000
    assert!(!LastBusinessDayTradingSchedule::should_trade(&1611306000));
}

#[test]
fn test_that_default_schedule_always_trades() {
    assert!(DefaultTradingSchedule::should_trade(&0));
    assert!(DefaultTradingSchedule::should_trade(&1633021200));
    assert!(DefaultTradingSchedule::should_trade(&-1));
}

#[test]
fn test_that_unreadable_timestamps_do_not_trade() {
    // Outside the range the civil calendar accepts, and too close to the
    // end of the representable range to look three days ahead.
    assert!(!LastBusinessDayTradingSchedule::should_trade(&i64::MAX));
    assert!(!LastBusinessDayTradingSchedule::should_trade(&i64::MIN));
}

use rotala::clock::Frequency;
use rotala::penelope::{Penelope, PenelopeBuilder};

fn build_store() -> (Penelope, rotala::clock::Clock) {
    let mut builder = PenelopeBuilder::new();
    builder.add_quote(102, 103, 101, "ABC");
    builder.add_quote(101, 102, 100, "ABC");
    builder.add_quote(99, 100, 100, "BCD");
    builder.build_with_frequency(Frequency::Second)
}

#[test]
fn test_get_quote_finds_symbol_at_date() {
    let (store, _clock) = build_store();
    let q = store.get_quote(&100, "ABC").unwrap();
    assert_eq!(q.bid, 101);
    assert_eq!(q.ask, 102);
    assert_eq!(q.date, 100);
    assert_eq!(q.symbol, "ABC");

    let q = store.get_quote(&100, "BCD").unwrap();
    assert_eq!(q.bid, 99);

    assert!(store.get_quote(&100, "XYZ").is_none());
    assert!(store.get_quote(&555, "ABC").is_none());
}

#[test]
fn test_repeated_pair_keeps_both_and_lookup_takes_last() {
    // A repeated (date, symbol) pair is not deduplicated; the point lookup
    // returns the newest insertion.
    let mut builder = PenelopeBuilder::new();
    builder.add_quote(101, 102, 100, "ABC");
    builder.add_quote(111, 112, 100, "ABC");
    let (store, _clock) = builder.build_with_frequency(Frequency::Second);

    let all = store.get_quotes(&100).unwrap();
    assert_eq!(all.len(), 2);
    assert_eq!(all[0].bid, 101);
    assert_eq!(all[1].bid, 111);

    let q = store.get_quote(&100, "ABC").unwrap();
    assert_eq!(q.bid, 111);
    assert_eq!(q.ask, 112);
}

#[test]
fn test_dates_are_indexed_in_order() {
    let (store, clock) = build_store();
    assert_eq!(store.get_first_date(), 100);
    assert_eq!(store.get_next_date(&100), Some(101));
    assert_eq!(store.get_next_date(&101), None);
    assert_eq!(store.get_next_date(&0), Some(100));
    assert!(store.has_date(&100));
    assert!(store.has_date(&101));
    assert!(!store.has_date(&102));
    assert_eq!(clock.now(), 100);
}

#[test]
fn test_quotes_at_missing_date_are_none() {
    let (store, _clock) = build_store();
    assert!(store.get_quotes(&55).is_none());
    let quotes = store.get_quotes(&101).unwrap();
    assert_eq!(quotes.len(), 1);
    assert_eq!(quotes[0].symbol, "ABC");
}

#[test]
fn test_random_store_covers_its_schedule() {
    let (store, clock) = Penelope::random(10);
    assert_eq!(clock.now(), 100);
    assert_eq!(clock.frequency(), Frequency::Second);
    let schedule = clock.peek();
    assert_eq!(schedule.len(), 10);
    for (i, date) in schedule.iter().enumerate() {
        assert_eq!(*date, 100 + i as i64);
        let quotes = store.get_quotes(date).unwrap();
        assert_eq!(quotes.len(), 2);
        assert_eq!(quotes[0].symbol, "ABC");
        assert_eq!(quotes[1].symbol, "BCD");
        for q in &quotes {
            assert!((90..100).contains(&q.bid));
            assert!((90..100).contains(&q.ask));
        }
    }
}

#[test]
fn test_clone_preserves_contents() {
    let (store, _clock) = build_store();
    let copy = store.clone();
    let q = copy.get_quote(&100, "BCD").unwrap();
    assert_eq!(q.ask, 100);
    assert_eq!(copy.get_first_date(), 100);
}

#[test]
fn test_daily_frequency_steps_by_day() {
    let mut builder = PenelopeBuilder::new();
    builder.add_quote(10, 11, 0, "ABC");
    builder.add_quote(12, 13, 172800, "ABC");
    let (_store, mut clock) = builder.build_with_frequency(Frequency::Daily);
    assert_eq!(clock.now(), 0);
    assert!(clock.has_next());
    clock.tick();
    assert_eq!(clock.now(), 86400);
    clock.tick();
    assert_eq!(clock.now(), 172800);
    assert!(!clock.has_next());
}

#[test]
fn test_fixed_frequency_keeps_stored_dates() {
    let mut builder = PenelopeBuilder::new();
    builder.add_quote(10, 11, 7, "ABC");
    builder.add_quote(12, 13, 19, "ABC");
    let (_store, mut clock) = builder.build_with_frequency(Frequency::Fixed);
    assert_eq!(clock.now(), 7);
    clock.tick();
    assert_eq!(clock.now(), 19);
    assert!(!clock.has_next());
}

use rotala::clock::{Clock, Frequency};

#[test]
fn test_clock_walks_its_schedule() {
    let mut schedule = Vec::new();
    schedule.push(100);
    schedule.push(101);
    schedule.push(102);
    let mut clock = Clock::new(schedule, Frequency::Second);

    assert_eq!(clock.now(), 100);
    assert!(clock.has_next());
    assert_eq!(clock.peek(), vec![100, 101, 102]);

    clock.tick();
    assert_eq!(clock.now(), 101);
    assert_eq!(clock.peek(), vec![101, 102]);

    clock.tick();
    assert_eq!(clock.now(), 102);
    assert!(!clock.has_next());
}

#[test]
fn test_clock_clone_is_independent() {
    let mut schedule = Vec::new();
    schedule.push(1);
    schedule.push(2);
    let mut clock = Clock::new(schedule, Frequency::Fixed);
    let copy = clock.clone();
    clock.tick();
    assert_eq!(clock.now(), 2);
    assert_eq!(copy.now(), 1);
    assert_eq!(copy.frequency(), Frequency::Fixed);
}

#[test]
fn test_frequency_codes_are_stable() {
    assert_eq!(Frequency::Second.code(), 0);
    assert_eq!(Frequency::Daily.code(), 1);
    assert_eq!(Frequency::Fixed.code(), 2);
    assert_eq!(Frequency::Minute.code(), 3);
}

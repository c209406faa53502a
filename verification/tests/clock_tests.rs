use riverrun::clock::{Clock, FixedClock, SystemClock};
use std::time::UNIX_EPOCH;
#[test]
fn test_system_clock_returns_reasonable_timestamp() {
    let clock = SystemClock;
    let now = clock.now();
    // Should be after 2020-01-01 (1577836800000 ms)
    assert!(now > 1_577_836_800_000);
}

#[test]
fn test_fixed_clock_returns_set_timestamp() {
    let clock = FixedClock::new(1_000_000);
    assert_eq!(clock.now(), 1_000_000);
    // Multiple calls return same value
    assert_eq!(clock.now(), 1_000_000);
}

#[test]
fn test_fixed_clock_epoch() {
    let clock = FixedClock::epoch();
    assert_eq!(clock.now(), 0);
}

#[test]
fn test_system_time_conversion() {
    let clock = FixedClock::new(1_577_836_800_000); // 2020-01-01 00:00:00 UTC
    let system_time = clock.system_time();
    let duration = system_time.duration_since(UNIX_EPOCH).unwrap();
    assert_eq!(duration.as_millis(), 1_577_836_800_000);
}

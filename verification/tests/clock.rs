use std::time::{Duration, UNIX_EPOCH};

use ballista_map_partition::monitor::clock::{millis_at, now_millis};

#[test]
fn times_are_whole_milliseconds_from_the_epoch_on() {
    assert_eq!(millis_at(UNIX_EPOCH), 0);
    assert_eq!(millis_at(UNIX_EPOCH + Duration::from_millis(1_234_567)), 1_234_567);
    assert_eq!(millis_at(UNIX_EPOCH + Duration::from_nanos(1_999_999)), 1);
    assert_eq!(millis_at(UNIX_EPOCH + Duration::from_nanos(999_999)), 0);
}

#[test]
fn times_before_the_epoch_are_zero() {
    assert_eq!(millis_at(UNIX_EPOCH - Duration::from_secs(5)), 0);
    assert_eq!(millis_at(UNIX_EPOCH - Duration::from_nanos(1)), 0);
}

#[test]
fn the_clock_shows_a_recent_time() {
    // The first of January 2020.
    assert!(now_millis() > 1_577_836_800_000);
}

//! Time stamps.

use prism::clock::{now_ms, stamp_ms};
use std::time::{Duration, SystemTime, UNIX_EPOCH};

#[test]
fn a_stamp_is_the_whole_milliseconds_since_the_epoch() {
    assert_eq!(stamp_ms(UNIX_EPOCH), 0);
    assert_eq!(stamp_ms(UNIX_EPOCH + Duration::from_micros(1_999)), 1);
    assert_eq!(stamp_ms(UNIX_EPOCH + Duration::from_millis(1_234_567)), 1_234_567);
    assert_eq!(stamp_ms(UNIX_EPOCH - Duration::from_secs(5)), 0);
}

#[test]
fn now_is_what_the_clock_shows() {
    let shown = stamp_ms(SystemTime::now());
    let now = now_ms();
    assert!(now.abs_diff(shown) < 60_000, "{now} {shown}");
}

use std::time::{Duration, UNIX_EPOCH};
use time2::duration::Duration as Span;
use time2::system_time::{to_i64, unix_millis_from};
use time2::SystemTimeExt;

#[test]
fn as_unix_millis() {
    assert_eq!(Some(100),
               (UNIX_EPOCH + Duration::from_millis(100)).as_unix_millis());
    assert_eq!(Some(-100),
               (UNIX_EPOCH - Duration::from_millis(100)).as_unix_millis());
    assert_eq!(None,
               (UNIX_EPOCH - Duration::from_secs(1 << 60)).as_unix_millis());
}

#[test]
fn as_unix_millis_truncates() {
    assert_eq!(Some(0), UNIX_EPOCH.as_unix_millis());
    assert_eq!(Some(1), (UNIX_EPOCH + Duration::new(0, 1_999_999)).as_unix_millis());
    assert_eq!(Some(-1), (UNIX_EPOCH - Duration::new(0, 1_999_999)).as_unix_millis());
}

#[test]
fn to_i64_bounds() {
    assert_eq!(to_i64(0), Some(0));
    assert_eq!(to_i64(i64::MAX as u64), Some(i64::MAX));
    assert_eq!(to_i64(1 << 63), None);
    assert_eq!(to_i64(u64::MAX), None);
}

#[test]
fn unix_millis_from_both_sides() {
    assert_eq!(unix_millis_from(Ok(Span::from_millis(100))), Some(100));
    assert_eq!(unix_millis_from(Err(Span::from_millis(100))), Some(-100));
    assert_eq!(unix_millis_from(Ok(Span::from_millis(i64::MAX as u64))), Some(i64::MAX));
    assert_eq!(unix_millis_from(Err(Span::from_millis(i64::MAX as u64))), Some(-i64::MAX));
    // Two to the 63 milliseconds is refused on both sides.
    assert_eq!(unix_millis_from(Ok(Span::from_millis(1 << 63))), None);
    assert_eq!(unix_millis_from(Err(Span::from_millis(1 << 63))), None);
    assert_eq!(unix_millis_from(Err(Span::new(1 << 60, 0))), None);
}

use historee::epoch::{date_range, Epoch};

#[test]
fn webkit_epoch_zero_formats_correctly() {
    let (first, last, days) = date_range(Some(0), Some(0), Epoch::Webkit);
    assert_eq!(first, "January 1, 1601");
    assert_eq!(last, "January 1, 1601");
    assert_eq!(days, 0);
}

#[test]
fn unix_epoch_zero_formats_correctly() {
    let (first, last, days) = date_range(Some(0), Some(0), Epoch::Unix);
    assert_eq!(first, "January 1, 1970");
    assert_eq!(last, "January 1, 1970");
    assert_eq!(days, 0);
}

#[test]
fn absent_bounds_give_the_sentinel() {
    let (first, last, days) = date_range(None, None, Epoch::Webkit);
    assert_eq!(first, "No data available");
    assert_eq!(last, "No data available");
    assert_eq!(days, 0);
    let (first, last, days) = date_range(Some(5), None, Epoch::Unix);
    assert_eq!(first, "No data available");
    assert_eq!(last, "No data available");
    assert_eq!(days, 0);
}

#[test]
fn day_span_is_whole_days() {
    // Ten full days plus one second, in microseconds.
    let min = 0i64;
    let max = 10 * 86_400_000_000i64 + 1_000_000;
    let (first, last, days) = date_range(Some(min), Some(max), Epoch::Unix);
    assert_eq!(first, "January 1, 1970");
    assert_eq!(last, "January 11, 1970");
    assert_eq!(days, 10);
}

#[test]
fn pre_epoch_timestamps_convert() {
    let day = 86_400_000_000i64;
    let (first, last, days) = date_range(Some(-day), Some(0), Epoch::Unix);
    assert_eq!(first, "December 31, 1969");
    assert_eq!(last, "January 1, 1970");
    assert_eq!(days, 1);
    // One microsecond before the epoch still falls on the previous day.
    let (first, last, days) = date_range(Some(-1), Some(0), Epoch::Unix);
    assert_eq!(first, "December 31, 1969");
    assert_eq!(last, "January 1, 1970");
    assert_eq!(days, 0);
}

#[test]
fn unix_timestamp_renders_known_date() {
    // 2021-03-05T12:00:00Z in microseconds since the Unix epoch.
    let ts = 1_614_945_600_000_000i64;
    let (first, _, days) = date_range(Some(ts), Some(ts), Epoch::Unix);
    assert_eq!(first, "March 5, 2021");
    assert_eq!(days, 0);
}

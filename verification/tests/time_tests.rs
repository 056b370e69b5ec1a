use std::time::{Duration, UNIX_EPOCH};
use fileutil::time::{local_time_text, timestamp_from_distance, EpochDistance, FixedZone, Timestamp};

#[test]
fn distances_become_timestamps() {
    assert_eq!(
        timestamp_from_distance(EpochDistance::After(5, 7)),
        Some(Timestamp { secs: 5, nanos: 7 })
    );
    assert_eq!(
        timestamp_from_distance(EpochDistance::Before(0, 500)),
        Some(Timestamp { secs: -1, nanos: 999_999_500 })
    );
    assert_eq!(
        timestamp_from_distance(EpochDistance::Before(3, 0)),
        Some(Timestamp { secs: -3, nanos: 0 })
    );
    assert_eq!(timestamp_from_distance(EpochDistance::After(u64::MAX, 0)), None);
    assert_eq!(timestamp_from_distance(EpochDistance::Before(u64::MAX, 1)), None);
}

#[test]
fn local_text_at_fixed_offsets() {
    let utc = FixedZone { offset_seconds: 0 };
    assert_eq!(
        local_time_text(&utc, Some(Timestamp { secs: 0, nanos: 0 })),
        Some("1970-01-01T00:00:00+00:00".to_string())
    );
    assert_eq!(local_time_text(&utc, None), None);
    let west = FixedZone { offset_seconds: -3 * 3600 - 1800 };
    assert_eq!(
        local_time_text(&west, Some(Timestamp { secs: 0, nanos: 0 })),
        Some("1969-12-31T20:30:00-03:30".to_string())
    );
}

#[test]
fn out_of_range_times_have_no_text() {
    let utc = FixedZone { offset_seconds: 0 };
    assert_eq!(local_time_text(&utc, Some(Timestamp { secs: i64::MAX, nanos: 0 })), None);
    let bad = FixedZone { offset_seconds: 86_400 };
    assert_eq!(local_time_text(&bad, Some(Timestamp { secs: 0, nanos: 0 })), None);
}

#[test]
fn system_times_convert() {
    let t = UNIX_EPOCH + Duration::new(12, 34);
    assert_eq!(fileutil::time::timestamp_of(t), Some(Timestamp { secs: 12, nanos: 34 }));
    let b = UNIX_EPOCH - Duration::new(1, 250);
    assert_eq!(fileutil::time::timestamp_of(b), Some(Timestamp { secs: -2, nanos: 999_999_750 }));
}

use mlzlog::clock::{format_date, format_time, next_midnight, DAY};
use mlzlog::LocalTime;
use time::{Duration, OffsetDateTime, Time, UtcOffset};

/// The next local midnight as the `time` crate reckons it.
fn midnight_by_calendar(now: LocalTime) -> i64 {
    let offset = UtcOffset::from_whole_seconds(now.offset).unwrap();
    let local = OffsetDateTime::from_unix_timestamp(now.timestamp).unwrap().to_offset(offset);
    (local.replace_time(Time::MIDNIGHT) + Duration::days(1)).unix_timestamp()
}

#[test]
fn midnight_agrees_with_the_calendar() {
    let offsets = [0, 1, -1, 3600, -3600, 19_800, -34_200, 43_200, -43_200, 86_399, -86_399];
    let stamps = [
        0,
        1,
        -1,
        86_399,
        86_400,
        -86_400,
        951_782_400,
        1_700_000_000,
        1_709_208_000,
        4_102_444_799,
        -2_208_988_800,
    ];
    for timestamp in stamps {
        for offset in offsets {
            let now = LocalTime { timestamp, offset };
            assert_eq!(next_midnight(now), Some(midnight_by_calendar(now)));
        }
    }
}

#[test]
fn midnight_agrees_with_the_calendar_through_a_day() {
    let start = 1_699_920_000 - 3 * 3600;
    for step in 0..(48 * 60) {
        for offset in [0, 5 * 3600 + 45 * 60, -(9 * 3600 + 30 * 60)] {
            let now = LocalTime { timestamp: start + step * 30 + step % 7, offset };
            assert_eq!(next_midnight(now), Some(midnight_by_calendar(now)));
        }
    }
}

#[test]
fn midnight_is_the_end_of_the_local_day() {
    // 2023-11-14 22:13:20 UTC, which is 23:13:20 one hour east.
    let now = LocalTime { timestamp: 1_700_000_000, offset: 3600 };
    assert_eq!(next_midnight(now), Some(1_700_002_800));
    // Two hours east the next day has begun.
    let now = LocalTime { timestamp: 1_700_000_000, offset: 7200 };
    assert_eq!(next_midnight(now), Some(1_700_000_000 - 800 + 86_400));
    let now = LocalTime { timestamp: 1_700_000_000, offset: 0 };
    assert_eq!(next_midnight(now), Some(1_700_006_400));
    let now = LocalTime { timestamp: 1_700_000_000, offset: -18_000 };
    assert_eq!(next_midnight(now), Some(1_700_024_400));
}

#[test]
fn midnight_itself_belongs_to_the_day_it_begins() {
    let now = LocalTime { timestamp: 1_699_920_000, offset: 0 };
    assert_eq!(next_midnight(now), Some(1_699_920_000 + DAY));
    let now = LocalTime { timestamp: 1_699_920_000 - 1, offset: 0 };
    assert_eq!(next_midnight(now), Some(1_699_920_000));
}

#[test]
fn midnight_before_the_epoch() {
    assert_eq!(next_midnight(LocalTime { timestamp: -1, offset: 0 }), Some(0));
    assert_eq!(next_midnight(LocalTime { timestamp: -86_400, offset: 0 }), Some(0));
    assert_eq!(next_midnight(LocalTime { timestamp: -86_401, offset: 0 }), Some(-86_400));
    assert_eq!(next_midnight(LocalTime { timestamp: 0, offset: -1 }), Some(1));
    assert_eq!(next_midnight(LocalTime { timestamp: -5, offset: 3 }), Some(-3));
}

#[test]
fn midnight_at_the_ends_of_the_range() {
    assert_eq!(next_midnight(LocalTime { timestamp: i64::MAX, offset: 0 }), None);
    assert_eq!(next_midnight(LocalTime { timestamp: i64::MAX, offset: i32::MAX }), None);
    // The last midnight that an `i64` holds: i64::MAX % 86400 is 55807.
    let last = i64::MAX - 55_807;
    assert_eq!(next_midnight(LocalTime { timestamp: last - 1, offset: 0 }), Some(last));
    assert_eq!(next_midnight(LocalTime { timestamp: last, offset: 0 }), None);
    // At i64::MIN, 30592 seconds of the day have passed.
    let first = LocalTime { timestamp: i64::MIN, offset: 0 };
    assert_eq!(next_midnight(first), Some(i64::MIN + (86_400 - 30_592)));
    let m = next_midnight(LocalTime { timestamp: i64::MIN, offset: i32::MIN }).unwrap();
    assert_eq!((m as i128 + i32::MIN as i128).rem_euclid(86_400), 0);
}

#[test]
fn date_is_that_of_the_local_day() {
    let utc = LocalTime { timestamp: 1_700_000_000, offset: 0 };
    assert_eq!(format_date(utc), Some("2023-11-14".to_string()));
    let east = LocalTime { timestamp: 1_700_000_000, offset: 7200 };
    assert_eq!(format_date(east), Some("2023-11-15".to_string()));
    let west = LocalTime { timestamp: 1_699_920_000, offset: -1 };
    assert_eq!(format_date(west), Some("2023-11-13".to_string()));
    assert_eq!(format_date(LocalTime { timestamp: 0, offset: 0 }), Some("1970-01-01".to_string()));
    assert_eq!(format_date(LocalTime { timestamp: -1, offset: 0 }), Some("1969-12-31".to_string()));
}

#[test]
fn date_pads_month_and_day() {
    // 2024-02-29 12:00:00 UTC
    let leap = LocalTime { timestamp: 1_709_208_000, offset: 0 };
    assert_eq!(format_date(leap), Some("2024-02-29".to_string()));
    // 2001-09-09 01:46:40 UTC
    let t = LocalTime { timestamp: 1_000_000_000, offset: 0 };
    assert_eq!(format_date(t), Some("2001-09-09".to_string()));
}

#[test]
fn date_is_missing_out_of_range() {
    assert_eq!(format_date(LocalTime { timestamp: i64::MAX, offset: 0 }), None);
    assert_eq!(format_date(LocalTime { timestamp: i64::MIN, offset: 0 }), None);
    assert_eq!(format_date(LocalTime { timestamp: 0, offset: 100_000 }), None);
    assert_eq!(format_date(LocalTime { timestamp: 0, offset: i32::MIN }), None);
    // The last second of the year 9999 has a date; the next one has none.
    assert_eq!(
        format_date(LocalTime { timestamp: 253_402_300_799, offset: 0 }),
        Some("9999-12-31".to_string())
    );
    assert_eq!(format_date(LocalTime { timestamp: 253_402_300_800, offset: 0 }), None);
    assert_eq!(format_date(LocalTime { timestamp: 253_402_300_799, offset: 1 }), None);
}

#[test]
fn time_of_day_stands_in_brackets() {
    let utc = LocalTime { timestamp: 1_700_000_000, offset: 0 };
    assert_eq!(format_time(utc), Some("[22:13:20]".to_string()));
    let east = LocalTime { timestamp: 1_700_000_000, offset: 3600 };
    assert_eq!(format_time(east), Some("[23:13:20]".to_string()));
    let odd = LocalTime { timestamp: 1_700_000_000, offset: -(5 * 3600 + 30 * 60 + 15) };
    assert_eq!(format_time(odd), Some("[16:43:05]".to_string()));
    assert_eq!(format_time(LocalTime { timestamp: 0, offset: 0 }), Some("[00:00:00]".to_string()));
    assert_eq!(format_time(LocalTime { timestamp: i64::MAX, offset: 0 }), None);
}

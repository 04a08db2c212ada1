use chrono::{DateTime, FixedOffset, TimeZone, Utc};
use recall::time::{
    format_time, local_midnight, local_to_timestamp, shown_timestamp, DAY_MS, EARLIEST_MS, LATEST_MS,
};

#[test]
fn time_stamps_are_shown_in_local_time() {
    assert_eq!(format_time(0, 0), "1970-01-01 00:00:00");
    assert_eq!(format_time(0, 3600), "1970-01-01 01:00:00");
    assert_eq!(format_time(-1, 0), "1969-12-31 23:59:59");
    assert_eq!(format_time(1_700_000_000_999, -5 * 3600), "2023-11-14 17:13:20");
}

#[test]
fn the_range_of_time_stamps_is_that_of_chrono() {
    assert_eq!(DateTime::<Utc>::MIN_UTC.timestamp_millis(), EARLIEST_MS);
    assert_eq!(DateTime::<Utc>::MAX_UTC.timestamp_millis(), LATEST_MS);
    assert!(DateTime::<Utc>::from_timestamp_millis(EARLIEST_MS).is_some());
    assert!(DateTime::<Utc>::from_timestamp_millis(EARLIEST_MS - 1).is_none());
    assert!(DateTime::<Utc>::from_timestamp_millis(LATEST_MS).is_some());
    assert!(DateTime::<Utc>::from_timestamp_millis(LATEST_MS + 1).is_none());
}

#[test]
fn a_time_stamp_out_of_range_looks_like_the_epoch() {
    for ms in [i64::MIN, EARLIEST_MS - 1, LATEST_MS + 1, i64::MAX] {
        assert_eq!(shown_timestamp(ms), 0);
        assert_eq!(format_time(ms, 7200), "1970-01-01 02:00:00");
    }
    assert_eq!(shown_timestamp(LATEST_MS), LATEST_MS);
    assert_eq!(shown_timestamp(-5), -5);
}

#[test]
fn the_ends_of_the_range_can_be_shown_in_every_zone() {
    for offset in [-86_399, 0, 86_399] {
        assert!(format_time(EARLIEST_MS, offset).starts_with("-26214"));
        assert!(format_time(LATEST_MS, offset).starts_with("+26214"));
    }
}

#[test]
fn midnight_is_what_chrono_says() {
    for now in [0, -1, 1, 1_700_000_000_123, -1_700_000_000_123, DAY_MS - 1, DAY_MS] {
        for offset in [-86_399, -12_600, 0, 1, 3600, 86_399] {
            let zone = FixedOffset::east_opt(offset).unwrap();
            let naive = DateTime::<Utc>::from_timestamp_millis(now)
                .unwrap()
                .with_timezone(&zone)
                .date_naive()
                .and_hms_opt(0, 0, 0)
                .unwrap();
            let expected = zone.from_local_datetime(&naive).unwrap().timestamp_millis();
            let midnight = local_midnight(now, offset);
            assert_eq!(midnight % DAY_MS, 0);
            assert_eq!(local_to_timestamp(midnight, offset), expected);
        }
    }
    assert_eq!(local_midnight(EARLIEST_MS, -86_399) % DAY_MS, 0);
    assert_eq!(local_midnight(LATEST_MS, 86_399) % DAY_MS, 0);
}

#[test]
fn today_is_a_local_day() {
    let now = 1_700_000_000_000;
    let offset = 7200;
    let start = local_to_timestamp(local_midnight(now, offset), offset);
    assert!(start <= now && now < start + DAY_MS);
    assert_eq!(format_time(start, offset), "2023-11-15 00:00:00");
    assert_eq!(format_time(start - 1, offset), "2023-11-14 23:59:59");
}

#[test]
fn dates_are_spelled_in_the_gregorian_calendar() {
    let at = |y: i32, m: u32, d: u32| {
        Utc.with_ymd_and_hms(y, m, d, 1, 2, 3).unwrap().timestamp_millis()
    };
    for (y, m, d, text) in [
        (2000, 2, 29, "2000-02-29 01:02:03"),
        (1900, 2, 28, "1900-02-28 01:02:03"),
        (0, 2, 29, "0000-02-29 01:02:03"),
        (7, 12, 31, "0007-12-31 01:02:03"),
        (9999, 12, 31, "9999-12-31 01:02:03"),
        (10000, 1, 1, "+10000-01-01 01:02:03"),
        (-1, 12, 31, "-0001-12-31 01:02:03"),
        (-9999, 1, 1, "-9999-01-01 01:02:03"),
        (-10000, 1, 1, "-10000-01-01 01:02:03"),
    ] {
        assert_eq!(format_time(at(y, m, d), 0), text);
    }
    let day_after = |y, m, d| format_time(at(y, m, d) + DAY_MS, 0);
    assert_eq!(day_after(1900, 2, 28), "1900-03-01 01:02:03");
    assert_eq!(day_after(2024, 2, 28), "2024-02-29 01:02:03");
    assert_eq!(day_after(2023, 12, 31), "2024-01-01 01:02:03");
}

#[test]
fn later_times_have_greater_texts() {
    let first = Utc.with_ymd_and_hms(0, 1, 2, 0, 0, 0).unwrap().timestamp_millis();
    let last = Utc.with_ymd_and_hms(9999, 12, 30, 0, 0, 0).unwrap().timestamp_millis();
    let mut times = vec![first, -1, 0, 1, 999, 1000, 1001, last];
    for n in 0..200 {
        times.push(first + (last - first) / 200 * n);
    }
    times.sort();
    for offset in [-86_399, 0, 3600] {
        for pair in times.windows(2) {
            let (a, b) = (format_time(pair[0], offset), format_time(pair[1], offset));
            assert_eq!((a.len(), b.len()), (19, 19));
            assert!(a <= b);
            assert_eq!(a == b, pair[0].div_euclid(1000) == pair[1].div_euclid(1000));
        }
    }
}

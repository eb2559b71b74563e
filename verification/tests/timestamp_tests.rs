use alive_boi::timestamp::Timestamp;
use chrono::{Datelike, Offset, TimeZone, Timelike};

fn text_of(timestamp: &Timestamp) -> String {
    let mut out = Vec::new();
    timestamp.write_text(&mut out);
    String::from_utf8(out).unwrap()
}

fn chrono_text(
    year: i32,
    month: u32,
    day: u32,
    hour: u32,
    minute: u32,
    second: u32,
    nanosecond: u32,
    offset_minutes: i32,
) -> String {
    let local = chrono::NaiveDate::from_ymd_opt(year, month, day)
        .unwrap()
        .and_hms_nano_opt(hour, minute, second, nanosecond)
        .unwrap();
    let zone = chrono::FixedOffset::east_opt(offset_minutes * 60).unwrap();
    let moment = zone.from_local_datetime(&local).unwrap();
    moment.to_rfc3339_opts(chrono::SecondsFormat::AutoSi, true)
}

#[test]
fn timestamp_text_of_a_whole_second_in_utc() {
    let t = Timestamp::new(2024, 1, 1, 0, 0, 0, 0, 0).unwrap();
    assert_eq!(text_of(&t), "2024-01-01T00:00:00Z");
}

#[test]
fn timestamp_text_with_milliseconds() {
    let t = Timestamp::new(2024, 3, 9, 7, 5, 3, 250_000_000, 60).unwrap();
    assert_eq!(text_of(&t), "2024-03-09T07:05:03.250+01:00");
}

#[test]
fn timestamp_text_with_microseconds() {
    let t = Timestamp::new(1999, 12, 31, 23, 59, 59, 1_000, -330).unwrap();
    assert_eq!(text_of(&t), "1999-12-31T23:59:59.000001-05:30");
}

#[test]
fn timestamp_text_with_nanoseconds() {
    let t = Timestamp::new(987, 6, 5, 4, 3, 2, 123_456_789, 1439).unwrap();
    assert_eq!(text_of(&t), "0987-06-05T04:03:02.123456789+23:59");
}

#[test]
fn timestamp_text_of_the_smallest_fraction() {
    let t = Timestamp::new(2024, 1, 1, 0, 0, 0, 1, -1).unwrap();
    assert_eq!(text_of(&t), "2024-01-01T00:00:00.000000001-00:01");
}

#[test]
fn timestamp_text_of_a_leap_second() {
    let t = Timestamp::new(2016, 12, 31, 23, 59, 60, 0, 0).unwrap();
    assert_eq!(text_of(&t), "2016-12-31T23:59:60Z");
}

#[test]
fn timestamp_text_of_the_first_and_last_year() {
    let first = Timestamp::new(0, 1, 1, 0, 0, 0, 0, 0).unwrap();
    assert_eq!(text_of(&first), "0000-01-01T00:00:00Z");
    let last = Timestamp::new(9999, 12, 31, 23, 59, 59, 999_000_000, -1439).unwrap();
    assert_eq!(text_of(&last), "9999-12-31T23:59:59.999-23:59");
}

#[test]
fn timestamp_appends_behind_what_is_there() {
    let t = Timestamp::new(2024, 1, 1, 0, 0, 0, 0, 0).unwrap();
    let mut out = vec![b'>'];
    t.write_text(&mut out);
    assert_eq!(out, b">2024-01-01T00:00:00Z".to_vec());
}

#[test]
fn timestamp_text_is_what_chrono_writes() {
    let cases: Vec<(i32, u32, u32, u32, u32, u32, u32, i32)> = vec![
        (2024, 1, 1, 0, 0, 0, 0, 0),
        (2024, 2, 29, 12, 34, 56, 0, 120),
        (2023, 7, 15, 1, 2, 3, 500_000_000, -480),
        (2023, 7, 15, 1, 2, 3, 120_000, 345),
        (2023, 7, 15, 1, 2, 3, 7, -1),
        (1970, 1, 1, 0, 0, 0, 999_999_999, 1439),
        (1, 1, 1, 0, 0, 0, 0, -1439),
        (9999, 12, 31, 23, 59, 59, 999_999_000, 0),
        (2000, 2, 29, 23, 0, 0, 10_000_000, 1),
    ];
    for (year, month, day, hour, minute, second, nanosecond, offset) in cases {
        let t = Timestamp::new(year, month, day, hour, minute, second, nanosecond, offset)
            .unwrap();
        assert_eq!(
            text_of(&t),
            chrono_text(year, month, day, hour, minute, second, nanosecond, offset)
        );
    }
}

#[test]
fn timestamp_leap_second_is_what_chrono_writes() {
    let ours = Timestamp::new(2016, 12, 31, 23, 59, 60, 500_000_000, 0).unwrap();
    let theirs = chrono_text(2016, 12, 31, 23, 59, 59, 1_500_000_000, 0);
    assert_eq!(text_of(&ours), theirs);
}

#[test]
fn timestamp_in_json_is_what_chrono_serializes() {
    let local = chrono::NaiveDate::from_ymd_opt(2024, 5, 6)
        .unwrap()
        .and_hms_nano_opt(7, 8, 9, 10_000)
        .unwrap();
    let zone = chrono::FixedOffset::east_opt(3600).unwrap();
    let moment = zone.from_local_datetime(&local).unwrap();
    let theirs = serde_json::to_string(&moment).unwrap();
    let ours = Timestamp::new(2024, 5, 6, 7, 8, 9, 10_000, 60).unwrap();
    assert_eq!(format!("\"{}\"", text_of(&ours)), theirs);
}

#[test]
fn clock_reading_gives_the_timestamp_of_its_fields() {
    assert_eq!(
        Timestamp::from_clock(2024, 3, 9, 7, 5, 3, 250_000_000, 3600),
        Timestamp::new(2024, 3, 9, 7, 5, 3, 250_000_000, 60)
    );
    assert_eq!(
        Timestamp::from_clock(2024, 3, 9, 7, 5, 3, 0, -19_800),
        Timestamp::new(2024, 3, 9, 7, 5, 3, 0, -330)
    );
    assert_eq!(
        Timestamp::from_clock(2024, 3, 9, 7, 5, 3, 0, 0),
        Timestamp::new(2024, 3, 9, 7, 5, 3, 0, 0)
    );
}

#[test]
fn clock_reading_within_a_leap_second_is_second_sixty() {
    assert_eq!(
        Timestamp::from_clock(2016, 12, 31, 23, 59, 59, 1_500_000_000, 0),
        Timestamp::new(2016, 12, 31, 23, 59, 60, 500_000_000, 0)
    );
    assert_eq!(
        Timestamp::from_clock(2016, 12, 31, 23, 59, 59, 1_000_000_000, 60),
        Timestamp::new(2016, 12, 31, 23, 59, 60, 0, 1)
    );
    assert_eq!(Timestamp::from_clock(2016, 12, 31, 23, 59, 60, 1_000_000_000, 0), None);
    assert_eq!(Timestamp::from_clock(2016, 12, 31, 23, 59, 59, 2_000_000_000, 0), None);
}

#[test]
fn clock_reading_wants_an_offset_of_whole_minutes() {
    assert_eq!(Timestamp::from_clock(2024, 3, 9, 7, 5, 3, 0, 1), None);
    assert_eq!(Timestamp::from_clock(2024, 3, 9, 7, 5, 3, 0, -59), None);
    assert_eq!(Timestamp::from_clock(2024, 3, 9, 7, 5, 3, 0, 3_208), None);
    assert_eq!(Timestamp::from_clock(2024, 3, 9, 7, 5, 3, 0, 86_400), None);
    assert_eq!(Timestamp::from_clock(2024, 3, 9, 7, 5, 3, 0, -86_400), None);
    assert_eq!(Timestamp::from_clock(2024, 3, 9, 7, 5, 3, 0, i32::MIN), None);
    assert_eq!(Timestamp::from_clock(2024, 3, 9, 7, 5, 3, 0, i32::MAX), None);
    assert!(Timestamp::from_clock(2024, 3, 9, 7, 5, 3, 0, 86_340).is_some());
    assert!(Timestamp::from_clock(2024, 3, 9, 7, 5, 3, 0, -86_340).is_some());
}

#[test]
fn clock_reading_refuses_what_is_no_moment() {
    assert_eq!(Timestamp::from_clock(2023, 2, 29, 0, 0, 0, 0, 0), None);
    assert_eq!(Timestamp::from_clock(10_000, 1, 1, 0, 0, 0, 0, 0), None);
    assert_eq!(Timestamp::from_clock(-1, 1, 1, 0, 0, 0, 0, 0), None);
    assert_eq!(Timestamp::from_clock(2024, 1, 1, 24, 0, 0, 0, 0), None);
}

#[test]
fn clock_reading_of_chrono_is_written_as_chrono_writes_it() {
    let local = chrono::NaiveDate::from_ymd_opt(2016, 12, 31)
        .unwrap()
        .and_hms_nano_opt(23, 59, 59, 1_250_000_000)
        .unwrap();
    let zone = chrono::FixedOffset::east_opt(-7200).unwrap();
    let now = zone.from_local_datetime(&local).unwrap();
    let ours = Timestamp::from_clock(
        now.year(),
        now.month(),
        now.day(),
        now.hour(),
        now.minute(),
        now.second(),
        now.nanosecond(),
        now.offset().fix().local_minus_utc(),
    )
    .unwrap();
    assert_eq!(text_of(&ours), now.to_rfc3339_opts(chrono::SecondsFormat::AutoSi, true));
    assert_eq!(text_of(&ours), "2016-12-31T23:59:60.250-02:00");
}

#[test]
fn clock_reading_of_this_machine_is_written_as_chrono_writes_it() {
    let now = chrono::Local::now();
    let ours = Timestamp::from_clock(
        now.year(),
        now.month(),
        now.day(),
        now.hour(),
        now.minute(),
        now.second(),
        now.nanosecond(),
        now.offset().fix().local_minus_utc(),
    );
    if now.offset().fix().local_minus_utc() % 60 == 0 && (0..=9999).contains(&now.year()) {
        assert_eq!(
            text_of(&ours.unwrap()),
            now.to_rfc3339_opts(chrono::SecondsFormat::AutoSi, true)
        );
    } else {
        assert_eq!(ours, None);
    }
}

#[test]
fn timestamp_keeps_its_fields() {
    let t = Timestamp::new(2024, 2, 29, 23, 59, 58, 123, -90).unwrap();
    assert_eq!(t.year(), 2024);
    assert_eq!(t.month(), 2);
    assert_eq!(t.day(), 29);
    assert_eq!(t.hour(), 23);
    assert_eq!(t.minute(), 59);
    assert_eq!(t.second(), 58);
    assert_eq!(t.nanosecond(), 123);
    assert_eq!(t.offset_minutes(), -90);
}

#[test]
fn timestamp_takes_the_last_day_of_each_month() {
    let lengths = [31, 28, 31, 30, 31, 30, 31, 31, 30, 31, 30, 31];
    for (index, length) in lengths.iter().enumerate() {
        let month = index as u32 + 1;
        assert!(Timestamp::new(2023, month, *length, 0, 0, 0, 0, 0).is_some());
        assert!(Timestamp::new(2023, month, *length + 1, 0, 0, 0, 0, 0).is_none());
    }
}

#[test]
fn timestamp_knows_leap_years() {
    assert!(Timestamp::new(2024, 2, 29, 0, 0, 0, 0, 0).is_some());
    assert!(Timestamp::new(2000, 2, 29, 0, 0, 0, 0, 0).is_some());
    assert!(Timestamp::new(1900, 2, 29, 0, 0, 0, 0, 0).is_none());
    assert!(Timestamp::new(2023, 2, 29, 0, 0, 0, 0, 0).is_none());
    assert!(Timestamp::new(2024, 2, 30, 0, 0, 0, 0, 0).is_none());
}

#[test]
fn timestamp_refuses_fields_out_of_range() {
    assert!(Timestamp::new(-1, 1, 1, 0, 0, 0, 0, 0).is_none());
    assert!(Timestamp::new(10_000, 1, 1, 0, 0, 0, 0, 0).is_none());
    assert!(Timestamp::new(2024, 0, 1, 0, 0, 0, 0, 0).is_none());
    assert!(Timestamp::new(2024, 13, 1, 0, 0, 0, 0, 0).is_none());
    assert!(Timestamp::new(2024, 1, 0, 0, 0, 0, 0, 0).is_none());
    assert!(Timestamp::new(2024, 1, 32, 0, 0, 0, 0, 0).is_none());
    assert!(Timestamp::new(2024, 1, 1, 24, 0, 0, 0, 0).is_none());
    assert!(Timestamp::new(2024, 1, 1, 0, 60, 0, 0, 0).is_none());
    assert!(Timestamp::new(2024, 1, 1, 0, 0, 61, 0, 0).is_none());
    assert!(Timestamp::new(2024, 1, 1, 0, 0, 0, 1_000_000_000, 0).is_none());
    assert!(Timestamp::new(2024, 1, 1, 0, 0, 0, 0, 1440).is_none());
    assert!(Timestamp::new(2024, 1, 1, 0, 0, 0, 0, -1440).is_none());
}

#[test]
fn timestamp_takes_the_edges_of_each_range() {
    assert!(Timestamp::new(0, 1, 1, 0, 0, 0, 0, -1439).is_some());
    assert!(Timestamp::new(9999, 12, 31, 23, 59, 60, 999_999_999, 1439).is_some());
}

#[test]
fn timestamp_text_is_what_chrono_writes_over_many_moments() {
    let mut seed: u64 = 0x2024_0101;
    let mut next = |bound: u64| {
        seed = seed.wrapping_mul(6364136223846793005).wrapping_add(1442695040888963407);
        (seed >> 33) % bound
    };
    let mut compared = 0;
    for _ in 0..5000 {
        let year = next(10_000) as i32;
        let month = next(12) as u32 + 1;
        let day = next(31) as u32 + 1;
        let hour = next(24) as u32;
        let minute = next(60) as u32;
        let second = next(60) as u32;
        let nanosecond = match next(4) {
            0 => 0,
            1 => next(1_000) as u32 * 1_000_000,
            2 => next(1_000_000) as u32 * 1_000,
            _ => next(1_000_000_000) as u32,
        };
        let offset = next(2 * 1439 + 1) as i32 - 1439;
        let ours = Timestamp::new(year, month, day, hour, minute, second, nanosecond, offset);
        let date = chrono::NaiveDate::from_ymd_opt(year, month, day);
        assert_eq!(ours.is_some(), date.is_some());
        if let Some(ours) = ours {
            assert_eq!(
                text_of(&ours),
                chrono_text(year, month, day, hour, minute, second, nanosecond, offset)
            );
            compared += 1;
        }
    }
    assert!(compared > 4000);
}

use chrono::TimeZone;
use topic_tree::timestamp::{Timestamp, LAST_SECOND};

fn stamp(secs: i64, nanos: u32, offset: i32) -> Timestamp {
    Timestamp { secs, nanos, offset }
}

#[test]
fn clock_at_the_epoch() {
    assert_eq!(stamp(0, 0, 0).clock(), Some("00:00:00".to_string()));
}

#[test]
fn clock_counts_hours_minutes_and_seconds() {
    assert_eq!(stamp(3_661, 0, 0).clock(), Some("01:01:01".to_string()));
    assert_eq!(stamp(86_399, 0, 0).clock(), Some("23:59:59".to_string()));
    assert_eq!(stamp(86_400, 0, 0).clock(), Some("00:00:00".to_string()));
    assert_eq!(stamp(1_700_000_000, 0, 0).clock(), Some("22:13:20".to_string()));
}

#[test]
fn clock_is_shown_in_the_zone_of_the_offset() {
    assert_eq!(stamp(0, 0, 3_600).clock(), Some("01:00:00".to_string()));
    assert_eq!(stamp(0, 0, -3_600).clock(), Some("23:00:00".to_string()));
    assert_eq!(stamp(1_700_000_000, 0, 19_800).clock(), Some("03:43:20".to_string()));
    assert_eq!(stamp(1_700_000_000, 0, -86_399).clock(), Some("22:13:21".to_string()));
    assert_eq!(stamp(1_700_000_000, 0, 86_399).clock(), Some("22:13:19".to_string()));
}

#[test]
fn clock_ignores_the_nanoseconds() {
    assert_eq!(stamp(59, 999_999_999, 0).clock(), Some("00:00:59".to_string()));
}

#[test]
fn date_time_at_known_instants() {
    assert_eq!(stamp(0, 0, 0).date_time(), Some("1970-01-01 00:00:00".to_string()));
    assert_eq!(stamp(1_700_000_000, 0, 0).date_time(), Some("2023-11-14 22:13:20".to_string()));
    assert_eq!(
        stamp(1_700_000_000, 0, 7_200).date_time(),
        Some("2023-11-15 00:13:20".to_string())
    );
    assert_eq!(stamp(0, 0, -1).date_time(), Some("1969-12-31 23:59:59".to_string()));
    assert_eq!(stamp(LAST_SECOND, 0, 0).date_time(), Some("9999-12-31 23:59:59".to_string()));
    assert_eq!(stamp(951_782_400, 0, 0).date_time(), Some("2000-02-29 00:00:00".to_string()));
}

#[test]
fn rendering_agrees_with_chrono() {
    let offsets = [0, 1, -1, 3_600, -3_600, 19_800, 45_296, -34_200, 86_399, -86_399];
    let instants = [0, 1, 59, 60, 3_599, 86_399, 86_400, 1_234_567_890, 4_102_444_800, LAST_SECOND];
    for offset in offsets {
        let zone = chrono::FixedOffset::east_opt(offset).unwrap();
        for secs in instants {
            let theirs = zone.timestamp_opt(secs, 0).unwrap();
            let ours = stamp(secs, 0, offset);
            assert_eq!(ours.clock().unwrap(), theirs.format("%H:%M:%S").to_string());
            assert_eq!(ours.date_time().unwrap(), theirs.format("%Y-%m-%d %H:%M:%S").to_string());
            assert!(ours.date_time().unwrap().ends_with(&ours.clock().unwrap()));
        }
    }
}

#[test]
fn instants_out_of_range_are_not_rendered() {
    for bad in [
        stamp(-1, 0, 0),
        stamp(LAST_SECOND + 1, 0, 0),
        stamp(i64::MAX, 0, 0),
        stamp(i64::MIN, 0, 0),
        stamp(0, 1_000_000_000, 0),
        stamp(59, 1_500_000_000, 0),
        stamp(0, u32::MAX, 0),
        stamp(0, 0, 86_400),
        stamp(0, 0, -86_400),
        stamp(0, 0, i32::MAX),
        stamp(0, 0, i32::MIN),
    ] {
        assert!(!bad.is_valid(), "{:?}", bad);
        assert_eq!(bad.clock(), None);
        assert_eq!(bad.date_time(), None);
    }
}

#[test]
fn instants_at_the_edges_are_rendered() {
    for good in [
        stamp(0, 0, 0),
        stamp(LAST_SECOND, 999_999_999, 86_399),
        stamp(0, 0, -86_399),
        stamp(LAST_SECOND, 0, -86_399),
    ] {
        assert!(good.is_valid(), "{:?}", good);
        assert!(good.clock().is_some());
        assert!(good.date_time().is_some());
    }
    assert_eq!(LAST_SECOND, 253_402_300_799);
}

#[test]
fn now_is_a_clock_reading() {
    let before = chrono::Local::now();
    let now = Timestamp::now();
    let after = chrono::Local::now();
    assert!(before.timestamp() <= now.secs && now.secs <= after.timestamp());
    assert!(now.secs >= 0);
    assert!(now.nanos <= 999_999_999);
    assert!(-86_400 < now.offset && now.offset < 86_400);
    assert_eq!(now.offset, before.offset().local_minus_utc());
    assert!(now.is_valid());
    assert_eq!(now.clock().unwrap().len(), 8);
    assert_eq!(now.date_time().unwrap().len(), 19);
}

#[test]
fn timestamps_compare_by_their_fields() {
    assert_eq!(stamp(1, 2, 3), stamp(1, 2, 3));
    assert_ne!(stamp(1, 2, 3), stamp(1, 2, 4));
    assert_ne!(stamp(1, 2, 3), stamp(1, 3, 3));
    assert_ne!(stamp(1, 2, 3), stamp(2, 2, 3));
    let copy = stamp(1, 2, 3);
    let same = copy;
    assert_eq!(copy, same);
}

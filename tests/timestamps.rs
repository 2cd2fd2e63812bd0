use samson::modem::message_timestamp;
use samson::utils::{fix_incomplete_timezone, parse_rfc3339_timestamp, Timestamp};

// 2024-01-01T00:00:00Z
const NEW_YEAR_2024: i64 = 1704067200;

#[test]
fn parses_canonical_utc() {
    let t = parse_rfc3339_timestamp("2024-01-01T09:00:00Z").unwrap();
    assert_eq!(t, Timestamp::new(NEW_YEAR_2024 + 9 * 3600, 0));
}

#[test]
fn canonical_form_normalizes_to_itself() {
    let t = parse_rfc3339_timestamp("2024-03-05T12:34:56.5+00:00").unwrap();
    assert_eq!(t.nanos, 500_000_000);
    let again = parse_rfc3339_timestamp("2024-03-05T12:34:56.500000000+00:00").unwrap();
    assert_eq!(t, again);
}

#[test]
fn short_positive_offset_is_completed() {
    let t = parse_rfc3339_timestamp("2024-01-01T10:00:00+01").unwrap();
    let expected = parse_rfc3339_timestamp("2024-01-01T09:00:00Z").unwrap();
    assert_eq!(t, expected);
    assert_eq!(t.secs, NEW_YEAR_2024 + 9 * 3600);
}

#[test]
fn short_negative_offset_is_completed() {
    let t = parse_rfc3339_timestamp("2024-01-01T10:00:00-02").unwrap();
    assert_eq!(t.secs, NEW_YEAR_2024 + 12 * 3600);
    assert_eq!(t, parse_rfc3339_timestamp("2024-01-01T10:00:00-02:00").unwrap());
}

#[test]
fn full_offset_is_converted_to_utc() {
    let t = parse_rfc3339_timestamp("2024-01-01T10:00:00+05:30").unwrap();
    assert_eq!(t.secs, NEW_YEAR_2024 + 4 * 3600 + 30 * 60);
}

#[test]
fn malformed_timestamp_is_refused() {
    let e = parse_rfc3339_timestamp("not a time").unwrap_err();
    assert_eq!(e.input, "not a time");
    assert!(parse_rfc3339_timestamp("").is_err());
    assert!(parse_rfc3339_timestamp("2024-01-01T10:00:00+1").is_err());
}

#[test]
fn fix_appends_zero_minutes() {
    assert_eq!(fix_incomplete_timezone("2024-01-01T10:00:00+01"), Some("2024-01-01T10:00:00+01:00".to_string()));
    assert_eq!(fix_incomplete_timezone("x-99"), Some("x-99:00".to_string()));
    assert_eq!(fix_incomplete_timezone("+12"), Some("+12:00".to_string()));
}

#[test]
fn fix_leaves_other_strings() {
    assert_eq!(fix_incomplete_timezone("2024-01-01T10:00:00+01:00"), None);
    assert_eq!(fix_incomplete_timezone("2024-01-01T10:00:00Z"), None);
    assert_eq!(fix_incomplete_timezone("+1"), None);
    assert_eq!(fix_incomplete_timezone(""), None);
    assert_eq!(fix_incomplete_timezone("abc*12"), None);
    assert_eq!(fix_incomplete_timezone("abc+1a"), None);
}

#[test]
fn unreadable_message_time_is_replaced_by_now() {
    let now = Timestamp::new(1_800_000_000, 7);
    let r = message_timestamp("garbage", now);
    assert!(r.substituted);
    assert_eq!(r.timestamp, now);
    let r = message_timestamp("2024-01-01T10:00:00+01", now);
    assert!(!r.substituted);
    assert_eq!(r.timestamp, Timestamp::new(NEW_YEAR_2024 + 9 * 3600, 0));
}

#[test]
fn timestamp_order() {
    let a = Timestamp::new(10, 5);
    assert!(a.is_before(&Timestamp::new(10, 6)));
    assert!(a.is_before(&Timestamp::new(11, 0)));
    assert!(!a.is_before(&a));
    assert!(!Timestamp::new(11, 0).is_before(&a));
}

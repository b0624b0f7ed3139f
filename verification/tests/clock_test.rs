use amp_rs::clock::{format_rfc3339, nanos_between, now_utc, parse_rfc3339, Timestamp};

#[test]
fn test_nanos_between() {
    let a = Timestamp { secs: 0, nanos: 0 };
    assert_eq!(nanos_between(Timestamp { secs: 7199, nanos: 999_999_999 }, a), 7_199_999_999_999);
    assert_eq!(nanos_between(Timestamp { secs: 1, nanos: 0 }, Timestamp { secs: 0, nanos: 500 }), 999_999_500);
    assert_eq!(nanos_between(a, Timestamp { secs: 5400, nanos: 0 }), -5_400_000_000_000);
}

#[test]
fn test_rfc3339_roundtrip() {
    let t = Timestamp { secs: 1577836800, nanos: 0 };
    let s = format_rfc3339(t).unwrap();
    assert_eq!(s, "2020-01-01T00:00:00+00:00");
    assert_eq!(parse_rfc3339(&s), Some(t));
    assert_eq!(
        parse_rfc3339("2020-01-01T01:00:00+01:00"),
        Some(Timestamp { secs: 1577836800, nanos: 0 })
    );
    assert_eq!(parse_rfc3339("yesterday"), None);
    let now = now_utc();
    assert!(format_rfc3339(now).is_some());
}

use amux::timefmt::{days_to_date, format_system_time};
use std::time::{SystemTime, UNIX_EPOCH};

#[test]
fn test_format_unix_epoch() {
    assert_eq!(format_system_time(0), "1970-01-01T00:00:00Z");
}

#[test]
fn test_format_known_timestamp() {
    // 2026-02-20T14:30:00Z = 1771597800 seconds since epoch
    assert_eq!(format_system_time(1771597800), "2026-02-20T14:30:00Z");
}

#[test]
fn test_format_system_time_now() {
    let t = SystemTime::now();
    let secs = t.duration_since(UNIX_EPOCH).unwrap().as_secs();
    let s = format_system_time(secs);
    // Should be a valid ISO 8601 string starting with "20"
    assert!(s.starts_with("20"));
    assert!(s.ends_with('Z'));
    assert_eq!(s.len(), 20);
}

#[test]
fn test_days_to_date_epoch() {
    assert_eq!(days_to_date(0), (1970, 1, 1));
}

#[test]
fn test_days_to_date_known() {
    // 2026-02-20 is 20504 days after the epoch.
    assert_eq!(days_to_date(20504), (2026, 2, 20));
    // 2000-02-29: the century leap day.
    assert_eq!(days_to_date(11016), (2000, 2, 29));
    // 2100 is not a leap year: day after 2100-02-28 is 2100-03-01.
    assert_eq!(days_to_date(47540), (2100, 2, 28));
    assert_eq!(days_to_date(47541), (2100, 3, 1));
}

#[test]
fn test_format_leap_second_boundaries() {
    // Last second of 1999 and first of 2000.
    assert_eq!(format_system_time(946684799), "1999-12-31T23:59:59Z");
    assert_eq!(format_system_time(946684800), "2000-01-01T00:00:00Z");
}

use moves::errors::DaemonError;
use moves::interval::parse_interval;
use moves::interval::Interval;
use moves::interval::MAX_INTERVAL_MINUTES;

#[test]
fn test_parse_hours_only() {
    let duration = parse_interval("1h").unwrap();
    assert_eq!(duration.total_seconds(), 3600);
}

#[test]
fn test_parse_minutes_only() {
    let duration = parse_interval("30m").unwrap();
    assert_eq!(duration.total_seconds(), 1800);
}

#[test]
fn test_parse_combined() {
    let duration = parse_interval("1h30m").unwrap();
    assert_eq!(duration.total_seconds(), 5400);
}

#[test]
fn test_parse_minutes_as_total() {
    let duration = parse_interval("90m").unwrap();
    assert_eq!(duration.total_seconds(), 5400);
}

#[test]
fn test_invalid_format() {
    assert!(parse_interval("invalid").is_err());
    assert!(parse_interval("1x").is_err());
    assert!(parse_interval("0h0m").is_err());
}

#[test]
fn test_parse_total_minutes_values() {
    assert_eq!(parse_interval("1h30m").unwrap().minutes, 90);
    assert_eq!(parse_interval("90m").unwrap().minutes, 90);
    assert_eq!(parse_interval("1h").unwrap().minutes, 60);
    assert_eq!(parse_interval("2h5m").unwrap().minutes, 125);
    assert_eq!(parse_interval("0h1m").unwrap().minutes, 1);
    assert_eq!(parse_interval("007m").unwrap().minutes, 7);
}

#[test]
fn test_parse_error_kinds() {
    assert_eq!(parse_interval(""), Err(DaemonError::Format));
    assert_eq!(parse_interval("1x"), Err(DaemonError::Format));
    assert_eq!(parse_interval("0h0m"), Err(DaemonError::ZeroDuration));
    assert_eq!(parse_interval("0m"), Err(DaemonError::ZeroDuration));
    assert_eq!(parse_interval("0h"), Err(DaemonError::ZeroDuration));
}

#[test]
fn test_parse_rejects_minutes_before_hours() {
    assert_eq!(parse_interval("30m1h"), Err(DaemonError::Format));
}

#[test]
fn test_parse_rejects_partial_and_garbled_forms() {
    assert_eq!(parse_interval("h30m"), Err(DaemonError::Format));
    assert_eq!(parse_interval("1h30"), Err(DaemonError::Format));
    assert_eq!(parse_interval("1hm"), Err(DaemonError::Format));
    assert_eq!(parse_interval("m"), Err(DaemonError::Format));
    assert_eq!(parse_interval("h"), Err(DaemonError::Format));
    assert_eq!(parse_interval(" 1h"), Err(DaemonError::Format));
    assert_eq!(parse_interval("1h "), Err(DaemonError::Format));
    assert_eq!(parse_interval("1h30mx"), Err(DaemonError::Format));
    assert_eq!(parse_interval("12"), Err(DaemonError::Format));
}

#[test]
fn test_parse_rejects_oversized_values() {
    // far beyond what a u64 count of seconds can hold
    assert_eq!(
        parse_interval("99999999999999999999999h"),
        Err(DaemonError::Format)
    );
    assert_eq!(
        parse_interval("99999999999999999999999m"),
        Err(DaemonError::Format)
    );
}

#[test]
fn test_interval_bounds() {
    let iv = Interval::new(MAX_INTERVAL_MINUTES);
    assert_eq!(iv.total_seconds(), MAX_INTERVAL_MINUTES * 60);
    assert!(parse_interval("1m").unwrap().minutes >= 1);
}

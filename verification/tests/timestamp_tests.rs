use terminal::timestamp::{format_hms, format_rfc3339, hms_of_rfc3339, is_valid_rfc3339,
    restore_timestamp};

#[test]
fn test_format_rfc3339_exact() {
    // 2024-01-15T08:00:00Z in epoch milliseconds.
    assert_eq!(format_rfc3339(1_705_305_600_000), "2024-01-15T08:00:00.000Z");
    assert_eq!(format_rfc3339(0), "1970-01-01T00:00:00.000Z");
    // A leap day, with a millisecond fraction.
    assert_eq!(format_rfc3339(1_709_164_800_123), "2024-02-29T00:00:00.123Z");
}

#[test]
fn test_format_rfc3339_round_trips_through_validation() {
    let text = format_rfc3339(1_705_305_600_000);
    assert!(is_valid_rfc3339(&text));
    assert_eq!(hms_of_rfc3339(&text), "08:00:00");
}

#[test]
fn test_format_hms() {
    assert_eq!(format_hms(1_705_305_600_000), "08:00:00");
    assert_eq!(format_hms(0), "00:00:00");
    assert_eq!(format_hms(86_399_999), "23:59:59");
}

#[test]
fn test_validator_accepts_wire_timestamps() {
    assert!(is_valid_rfc3339("2024-01-15T08:00:00Z"));
    assert!(is_valid_rfc3339("2024-02-29T23:59:59Z"));
    assert!(is_valid_rfc3339("2024-01-15T08:00:00.5Z"));
    assert!(is_valid_rfc3339("2000-02-29T00:00:00Z"));
}

#[test]
fn test_validator_rejects_bad_timestamps() {
    assert!(!is_valid_rfc3339(""));
    assert!(!is_valid_rfc3339("2024-01-15 08:00:00Z"));
    assert!(!is_valid_rfc3339("2024-01-15T08:00:00"));
    assert!(!is_valid_rfc3339("2023-02-29T00:00:00Z"));
    assert!(!is_valid_rfc3339("1900-02-29T00:00:00Z"));
    assert!(!is_valid_rfc3339("2024-13-01T00:00:00Z"));
    assert!(!is_valid_rfc3339("2024-04-31T00:00:00Z"));
    assert!(!is_valid_rfc3339("2024-01-15T24:00:00Z"));
    assert!(!is_valid_rfc3339("2024-01-15T08:60:00Z"));
    assert!(!is_valid_rfc3339("2024-01-15T08:00:00.Z"));
}

#[test]
fn test_hms_extraction() {
    assert_eq!(hms_of_rfc3339("2024-06-30T17:45:10Z"), "17:45:10");
}

#[test]
fn test_restore_timestamp() {
    let now = "2024-03-01T12:00:00Z";
    assert_eq!(restore_timestamp("2024-01-15T08:00:00Z", now), "2024-01-15T08:00:00Z");
    assert_eq!(restore_timestamp("damaged", now), now);
}

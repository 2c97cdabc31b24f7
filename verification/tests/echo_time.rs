use courses::echo::{format_rfc3339_utc};
#[test]
fn formats_the_epoch() {
    assert_eq!(format_rfc3339_utc(0, 0), "1970-01-01T00:00:00.000Z");
}

#[test]
fn formats_a_known_instant_with_millis() {
    // 2025-01-01T00:00:00Z
    assert_eq!(
        format_rfc3339_utc(1_735_689_600, 123_456_789),
        "2025-01-01T00:00:00.123Z"
    );
}

#[test]
fn formats_a_leap_day() {
    // 2000-02-29T12:34:56Z — 2000 is a leap year despite ending a century.
    assert_eq!(
        format_rfc3339_utc(951_827_696, 0),
        "2000-02-29T12:34:56.000Z"
    );
}

#[test]
fn formats_the_end_of_a_non_leap_february() {
    // 2100 is not a leap year: 2100-03-01 follows 2100-02-28.
    assert_eq!(
        format_rfc3339_utc(4_107_542_400, 0),
        "2100-03-01T00:00:00.000Z"
    );
}

#[test]
fn formats_a_timestamp_before_the_epoch() {
    assert_eq!(format_rfc3339_utc(-1, 0), "1969-12-31T23:59:59.000Z");
}

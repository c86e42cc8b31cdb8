use rompatch_core::civil::format_unix_seconds_utc;

#[test]
fn iso_format_known_epoch() {
    assert_eq!(format_unix_seconds_utc(0), "1970-01-01T00:00:00Z");
    assert_eq!(format_unix_seconds_utc(86_400), "1970-01-02T00:00:00Z");
    // 2024-01-01 00:00:00 UTC
    assert_eq!(
        format_unix_seconds_utc(1_704_067_200),
        "2024-01-01T00:00:00Z"
    );
    // 2024-02-29 (leap day) 12:34:56 UTC
    assert_eq!(
        format_unix_seconds_utc(1_709_210_096),
        "2024-02-29T12:34:56Z"
    );
}

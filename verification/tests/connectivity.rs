use esp_ward::connectivity::{
    find_unixtime, get_time, get_timestamp, ip_string_to_parts, timestamp_to_hms,
    weekday_from_timestamp,
};

#[test]
fn parses_plain_addresses() {
    assert_eq!(ip_string_to_parts("1.2.3.4"), Ok([1, 2, 3, 4]));
    assert_eq!(ip_string_to_parts("192.168.0.1"), Ok([192, 168, 0, 1]));
    assert_eq!(ip_string_to_parts("0.0.0.0"), Ok([0, 0, 0, 0]));
    assert_eq!(ip_string_to_parts("255.255.255.255"), Ok([255, 255, 255, 255]));
}

#[test]
fn trailing_dots_are_trimmed() {
    assert_eq!(ip_string_to_parts("1.2.3.4."), Ok([1, 2, 3, 4]));
    assert_eq!(ip_string_to_parts("1.2.3.4..."), Ok([1, 2, 3, 4]));
}

#[test]
fn empty_fields_count_as_zero() {
    assert_eq!(ip_string_to_parts("1..2.3"), Ok([1, 0, 2, 3]));
    assert_eq!(ip_string_to_parts(".1.2.3"), Ok([0, 1, 2, 3]));
}

#[test]
fn rejects_too_many_fields() {
    assert_eq!(ip_string_to_parts("1.2.3.4.5.6"), Err("Too many parts"));
}

#[test]
fn rejects_five_fields_as_bad_format() {
    // a fifth field at the very end is caught by the final count, not by
    // the dot that opened it
    assert_eq!(ip_string_to_parts("1.2.3.4.5"), Err("Invalid IP address format"));
}

#[test]
fn rejects_oversized_fields() {
    assert_eq!(
        ip_string_to_parts("256.1.1.1"),
        Err("Each part must be between 0 and 255")
    );
    assert_eq!(
        ip_string_to_parts("1.2.3.300"),
        Err("Each part must be between 0 and 255")
    );
}

#[test]
fn rejects_stray_characters() {
    assert_eq!(
        ip_string_to_parts("1.2.x.4"),
        Err("Invalid character in IP address")
    );
    assert_eq!(
        ip_string_to_parts("1.2.3.4 "),
        Err("Invalid character in IP address")
    );
}

#[test]
fn rejects_short_addresses() {
    assert_eq!(ip_string_to_parts("1.2.3"), Err("Invalid IP address format"));
    assert_eq!(ip_string_to_parts(""), Err("Invalid IP address format"));
    assert_eq!(ip_string_to_parts("..."), Err("Invalid IP address format"));
}

#[test]
fn finds_timestamp_after_key() {
    let body = b"HTTP/1.1 200 OK\r\n\r\n{\"abbreviation\":\"CET\",\"unixtime\":1700000000,\"week_number\":46}";
    assert_eq!(find_unixtime(body), Some(1700000000));
}

#[test]
fn digits_may_run_to_the_end() {
    assert_eq!(find_unixtime(b"{\"unixtime\":42"), Some(42));
}

#[test]
fn first_key_wins() {
    assert_eq!(
        find_unixtime(b"{\"unixtime\":111,\"unixtime\":222}"),
        Some(111)
    );
}

#[test]
fn missing_key_yields_nothing() {
    assert_eq!(find_unixtime(b"{\"datetime\":\"2023\"}"), None);
    assert_eq!(find_unixtime(b""), None);
}

#[test]
fn space_before_digits_defeats_the_parse() {
    // the run after the colon keeps spaces, and a run with a space in it
    // does not parse as a number
    assert_eq!(find_unixtime(b"{\"unixtime\": 1700000000}"), None);
}

#[test]
fn empty_value_yields_nothing() {
    assert_eq!(find_unixtime(b"{\"unixtime\":}"), None);
}

#[test]
fn oversized_value_yields_nothing() {
    assert_eq!(find_unixtime(b"{\"unixtime\":99999999999999999999}"), None);
    // the largest value that fits still parses
    assert_eq!(
        find_unixtime(b"{\"unixtime\":18446744073709551615}"),
        Some(u64::MAX)
    );
    assert_eq!(find_unixtime(b"{\"unixtime\":18446744073709551616}"), None);
}

#[test]
fn malformed_text_yields_nothing() {
    // the body holds the key and digits, but an invalid byte makes it
    // non-text, and a response that does not decode is never searched
    let mut body: Vec<u8> = vec![0xFF];
    body.extend_from_slice(b"{\"unixtime\":1700000000}");
    assert_eq!(find_unixtime(&body), None);
}

#[test]
fn get_timestamp_applies_zone_offset() {
    assert_eq!(get_timestamp(b"{\"unixtime\":1700000000}"), Ok(1700003600));
    assert_eq!(get_timestamp(b"{}"), Err(()));
    // the offset must not wrap the largest representable timestamp
    assert_eq!(get_timestamp(b"{\"unixtime\":18446744073709551615}"), Err(()));
}

#[test]
fn get_time_reads_the_shifted_clock() {
    // 45296 seconds into the day reads 12:34:56; the offset adds an hour
    assert_eq!(get_time(b"{\"unixtime\":45296}"), Ok((13, 34, 56)));
    assert_eq!(get_time(b"no timestamp here"), Err(()));
}

#[test]
fn clock_reading_of_timestamps() {
    assert_eq!(timestamp_to_hms(0), (0, 0, 0));
    assert_eq!(timestamp_to_hms(3661), (1, 1, 1));
    assert_eq!(timestamp_to_hms(86399), (23, 59, 59));
    assert_eq!(timestamp_to_hms(86400), (0, 0, 0));
    assert_eq!(timestamp_to_hms(45296), (12, 34, 56));
}

#[test]
fn weekday_names_cycle_from_thursday() {
    assert_eq!(weekday_from_timestamp(&0), "Thursday");
    assert_eq!(weekday_from_timestamp(&86399), "Thursday");
    assert_eq!(weekday_from_timestamp(&86400), "Friday");
    assert_eq!(weekday_from_timestamp(&(86400 * 2)), "Saturday");
    assert_eq!(weekday_from_timestamp(&(86400 * 3)), "Sunday");
    assert_eq!(weekday_from_timestamp(&(86400 * 4)), "Monday");
    assert_eq!(weekday_from_timestamp(&(86400 * 5)), "Tuesday");
    assert_eq!(weekday_from_timestamp(&(86400 * 6)), "Wednesday");
    assert_eq!(weekday_from_timestamp(&(86400 * 7)), "Thursday");
}

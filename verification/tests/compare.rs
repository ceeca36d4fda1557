use specmatrix::compare::{describe, equal, kind_from_str, parse_instant, Instant, Kind, Precision};
use specmatrix::json::Json;

fn j(text: &str) -> Json {
    Json::parse(text.as_bytes()).expect("valid JSON")
}

fn some(text: &str) -> Option<Json> {
    Some(j(text))
}

/// Compares two readings the way a check does for every kind but `Float`.
fn eq(a: &Option<Json>, b: &Option<Json>, kind: Kind) -> bool {
    equal(a, b, kind, None, None)
}

#[test]
fn an_integer_instant_is_read_by_magnitude() {
    assert_eq!(parse_instant(&j("1788856578")).unwrap().precision, Precision::Seconds);
    assert_eq!(parse_instant(&j("1788856578123")).unwrap().precision, Precision::Milliseconds);
    assert_eq!(parse_instant(&j("1788856578123456")).unwrap().precision, Precision::Microseconds);
    assert_eq!(parse_instant(&j("1788856578123456789")).unwrap().precision, Precision::Nanoseconds);
}

#[test]
fn a_numeric_string_reads_as_the_same_instant_as_the_number() {
    let from_text = parse_instant(&j("\"1788856578123456789\"")).unwrap();
    let from_number = parse_instant(&j("1788856578123456789")).unwrap();
    assert_eq!(from_text, from_number);
    assert_eq!(from_text.nanos, 1_788_856_578_123_456_789);
}

#[test]
fn a_datetime_without_a_zone_is_read_as_utc_at_its_printed_precision() {
    let instant = parse_instant(&j("\"2026-09-08T08:36:18.123\"")).unwrap();
    assert_eq!(instant.precision, Precision::Milliseconds);
    assert_eq!(instant.nanos, 1_788_856_578_123_000_000);
}

#[test]
fn an_rfc3339_datetime_is_read_with_its_offset() {
    let utc = parse_instant(&j("\"2026-09-08T08:36:18.123456789Z\"")).unwrap();
    assert_eq!(utc.precision, Precision::Nanoseconds);
    assert_eq!(utc.nanos, 1_788_856_578_123_456_789);
    let offset = parse_instant(&j("\"2026-09-08T09:36:18.123456789+01:00\"")).unwrap();
    assert_eq!(offset.nanos, utc.nanos);
}

#[test]
fn a_datetime_with_no_fraction_is_seconds() {
    assert_eq!(parse_instant(&j("\"2026-09-08T08:36:18Z\"")).unwrap().precision, Precision::Seconds);
}

#[test]
fn an_instant_that_lost_digits_is_not_equal_to_the_one_that_was_sent() {
    let sent = some("\"1788856578123456789\"");
    let parseable = some("\"2026-09-08T08:36:18.123\"");
    let openobserve = some("1788856578123456");
    assert!(!eq(&sent, &parseable, Kind::Timestamp));
    assert!(!eq(&sent, &openobserve, Kind::Timestamp));
}

#[test]
fn the_same_instant_in_two_shapes_is_equal() {
    let as_string = some("\"1788856578123456789\"");
    let as_datetime = some("\"2026-09-08T08:36:18.123456789Z\"");
    assert!(eq(&as_string, &as_datetime, Kind::Timestamp));
}

#[test]
fn raw_comparison_still_distinguishes_the_shapes() {
    let as_string = some("\"1788856578123456789\"");
    let as_datetime = some("\"2026-09-08T08:36:18.123456789Z\"");
    assert!(!eq(&as_string, &as_datetime, Kind::Raw));
}

#[test]
fn an_integer_compares_across_string_and_number() {
    assert!(eq(&some("\"9007199254740993\""), &some("9007199254740993"), Kind::Integer));
    assert!(!eq(&some("\"42\""), &some("43"), Kind::Integer));
}

/// The float readings are the bit patterns the application reads each side
/// as; the comparison is by those patterns.
#[test]
fn floats_compare_by_bit_pattern() {
    let nan = Some(f64::NAN.to_bits());
    let neg_zero = Some((-0.0f64).to_bits());
    let zero = Some(0.0f64.to_bits());
    let inf = Some(f64::INFINITY.to_bits());
    assert!(equal(&some("\"NaN\""), &some("\"NaN\""), Kind::Float, nan, nan));
    assert!(!equal(&some("\"-0.0\""), &some("0.0"), Kind::Float, neg_zero, zero));
    assert!(equal(&some("\"-0.0\""), &some("-0.0"), Kind::Float, neg_zero, neg_zero));
    assert!(equal(&some("\"+Inf\""), &some("\"Inf\""), Kind::Float, inf, inf));
}

#[test]
fn absence_compares_as_a_value() {
    assert!(eq(&None, &None, Kind::Raw));
    assert!(!eq(&None, &some("\"x\""), Kind::Raw));
    assert!(!eq(&some("\"x\""), &None, Kind::Timestamp));
}

#[test]
fn an_unreadable_value_falls_back_to_raw_equality() {
    let a = some(r#"{"nested": true}"#);
    let b = some(r#"{"nested": true}"#);
    let c = some(r#"{"nested": false}"#);
    assert!(eq(&a, &b, Kind::Timestamp));
    assert!(!eq(&a, &c, Kind::Timestamp));
}

#[test]
fn describe_reports_the_type_and_the_precision() {
    assert_eq!(
        describe(&some("\"2026-09-08T08:36:18.123\""), Kind::Timestamp),
        "\"2026-09-08T08:36:18.123\" (string, milliseconds)"
    );
    assert_eq!(
        describe(&some("1788856578123456"), Kind::Timestamp),
        "1788856578123456 (number, microseconds)"
    );
    assert_eq!(describe(&None, Kind::Timestamp), "<absent>");
    assert_eq!(describe(&some("\"INFO\""), Kind::Raw), "\"INFO\" (string)");
}

#[test]
fn a_value_carrying_less_than_its_unit_says_so() {
    assert_eq!(
        describe(&some("1788859858123456000"), Kind::Timestamp),
        "1788859858123456000 (number, nanoseconds holding whole microseconds)"
    );
}

#[test]
fn a_value_that_fills_its_unit_reports_the_unit_alone() {
    assert_eq!(
        describe(&some("1788859858123456789"), Kind::Timestamp),
        "1788859858123456789 (number, nanoseconds)"
    );
}

#[test]
fn resolution_finds_the_finest_unit_a_value_is_a_whole_multiple_of() {
    let at = |n: i128| Instant { nanos: n, precision: Precision::Nanoseconds }.resolution();
    assert_eq!(at(1_788_859_858_000_000_000), Precision::Seconds);
    assert_eq!(at(1_788_859_858_123_000_000), Precision::Milliseconds);
    assert_eq!(at(1_788_859_858_123_456_000), Precision::Microseconds);
    assert_eq!(at(1_788_859_858_123_456_789), Precision::Nanoseconds);
}

#[test]
fn an_unknown_as_value_is_an_error() {
    assert!(kind_from_str("instant").is_err());
    assert_eq!(kind_from_str("timestamp").unwrap(), Kind::Timestamp);
    assert_eq!(kind_from_str("string").unwrap(), Kind::Text);
}

#[test]
fn an_unknown_as_value_names_itself_in_the_message() {
    let message = kind_from_str("instant").unwrap_err();
    assert_eq!(
        message,
        "unknown `as` value \"instant\"; expected `timestamp`, `integer`, `float` or `string`"
    );
    assert_eq!(kind_from_str("text").unwrap(), Kind::Text);
    assert_eq!(kind_from_str("integer").unwrap(), Kind::Integer);
    assert_eq!(kind_from_str("float").unwrap(), Kind::Float);
}

#[test]
fn a_negative_instant_keeps_its_sign_through_the_magnitude_rule() {
    let instant = parse_instant(&j("\"-1788856578\"")).unwrap();
    assert_eq!(instant.precision, Precision::Seconds);
    assert_eq!(instant.nanos, -1_788_856_578_000_000_000);
}

#[test]
fn a_float_reading_that_one_side_lacks_falls_back_to_raw_equality() {
    assert!(equal(&some("\"twelve\""), &some("\"twelve\""), Kind::Float, None, None));
    assert!(!equal(&some("\"twelve\""), &some("\"eleven\""), Kind::Float, None, Some(0)));
}

#[test]
fn text_comparison_reads_strings_as_text_and_anything_else_as_json() {
    assert!(eq(&some("\"42\""), &some("\"42\""), Kind::Text));
    assert!(!eq(&some("\"42\""), &some("42"), Kind::Text));
    assert!(eq(&some("[1,2]"), &some("[1, 2]"), Kind::Text));
}

#[test]
fn an_unreadable_instant_says_so() {
    assert_eq!(
        describe(&some("true"), Kind::Timestamp),
        "true (bool, unreadable as an instant)"
    );
}

#[test]
fn precision_names_are_the_units() {
    assert_eq!(Precision::Seconds.name(), "seconds");
    assert_eq!(Precision::Milliseconds.name(), "milliseconds");
    assert_eq!(Precision::Microseconds.name(), "microseconds");
    assert_eq!(Precision::Nanoseconds.name(), "nanoseconds");
}

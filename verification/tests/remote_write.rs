use specmatrix::json::Json;
use specmatrix::remote_write::{
    logical_field, parse, sample_value, series_selector, SampleValue, NEG_ZERO_BITS, STALE_NAN,
};

fn j(text: &str) -> Json {
    Json::parse(text.as_bytes()).expect("valid JSON")
}

fn same(a: &Option<Json>, b: &Option<Json>) -> bool {
    match (a, b) {
        (Some(x), Some(y)) => x.same(y),
        (None, None) => true,
        _ => false,
    }
}

const GAUGE: &str = r#"{"timeseries":[{"labels":[
    {"name":"__name__","value":"specmatrix_gauge"},
    {"name":"specmatrix_run","value":"sm-abc"}],
    "samples":[{"value":12.5,"timestamp":"1757000000000"}]}]}"#;

/// The reading refuses a string that is not one of the special values; the
/// wire encoder, which calls it, refuses the payload with its message.
#[test]
fn an_unknown_special_value_is_an_error_not_a_zero() {
    let err = parse(br#"{"timeseries":[{"labels":[],"samples":[{"value":"twelve","timestamp":1}]}]}"#)
        .err()
        .expect("refused");
    assert!(err.contains("twelve"), "{err}");
}

#[test]
fn a_numeric_string_value_is_refused() {
    assert!(parse(br#"{"timeseries":[{"labels":[],"samples":[{"value":"12","timestamp":1}]}]}"#).is_err());
}

#[test]
fn the_parser_reads_the_sign_even_though_the_wire_drops_it() {
    let parsed = parse(br#"{"timeseries":[{"labels":[],"samples":[{"value":"-0.0","timestamp":1}]}]}"#)
        .ok()
        .unwrap();
    match parsed.timeseries[0].samples[0].value {
        SampleValue::Bits(bits) => assert_eq!(bits, (-0.0f64).to_bits()),
        SampleValue::Number(_) => panic!("read as a number"),
    }
    assert_eq!(NEG_ZERO_BITS, (-0.0f64).to_bits());
}

#[test]
fn label_order_is_preserved_exactly_as_written() {
    let request = parse(
        br#"{"timeseries":[{"labels":[
            {"name":"zzz","value":"1"},
            {"name":"__name__","value":"g"},
            {"name":"aaa","value":"2"}],
            "samples":[{"value":1,"timestamp":1}]}]}"#,
    )
    .ok()
    .unwrap();
    let names: Vec<&str> = request.timeseries[0].labels.iter().map(|l| l.name.as_str()).collect();
    assert_eq!(names, ["zzz", "__name__", "aaa"]);
}

#[test]
fn a_stale_marker_is_the_one_reserved_nan_payload() {
    match sample_value(&j("\"StaleNaN\"")).ok().unwrap() {
        SampleValue::Bits(bits) => assert_eq!(bits, STALE_NAN),
        SampleValue::Number(_) => panic!("read as a number"),
    }
}

#[test]
fn an_ordinary_nan_is_not_the_stale_payload() {
    match sample_value(&j("\"NaN\"")).ok().unwrap() {
        SampleValue::Bits(bits) => {
            assert_ne!(bits, STALE_NAN);
            assert_eq!(bits, f64::NAN.to_bits());
        },
        SampleValue::Number(_) => panic!("read as a number"),
    }
}

#[test]
fn both_infinities_keep_their_signs() {
    for (text, want) in [("\"+Inf\"", f64::INFINITY), ("\"Inf\"", f64::INFINITY), ("\"-Inf\"", f64::NEG_INFINITY)] {
        match sample_value(&j(text)).ok().unwrap() {
            SampleValue::Bits(bits) => assert_eq!(bits, want.to_bits(), "{text}"),
            SampleValue::Number(_) => panic!("read as a number"),
        }
    }
}

#[test]
fn a_number_keeps_its_text() {
    match sample_value(&j("12.5")).ok().unwrap() {
        SampleValue::Number(t) => assert_eq!(t, "12.5"),
        SampleValue::Bits(_) => panic!("read as a special value"),
    }
}

#[test]
fn a_shape_the_json_form_does_not_have_is_refused() {
    assert_eq!(parse(b"[]").err().unwrap(), "decoding remote-write-json");
    assert_eq!(parse(br#"{"timeseries":[{"labels":[{"name":"a"}]}]}"#).err().unwrap(), "decoding remote-write-json");
    assert_eq!(parse(br#"{"timeseries":[{"samples":[{"value":1}]}]}"#).err().unwrap(), "decoding remote-write-json");
    assert_eq!(parse(b"not json").err().unwrap(), "decoding remote-write-json");
    assert_eq!(parse(br#"{}"#).ok().unwrap().timeseries.len(), 0);
}

#[test]
fn a_timestamp_must_be_an_integer() {
    assert_eq!(
        parse(br#"{"timeseries":[{"samples":[{"value":1,"timestamp":"soon"}]}]}"#).err().unwrap(),
        "timestamp \"soon\" is not an integer"
    );
    assert_eq!(
        parse(br#"{"timeseries":[{"samples":[{"value":1,"timestamp":1.5}]}]}"#).err().unwrap(),
        "timestamp 1.5 is not an integer"
    );
    let ok = parse(br#"{"timeseries":[{"samples":[{"value":1,"timestamp":" 2000 "}]}]}"#).ok().unwrap();
    assert_eq!(ok.timeseries[0].samples[0].timestamp, 2000);
}

#[test]
fn a_named_series_is_the_one_read() {
    let sent = j(r#"{"timeseries":[
        {"labels":[{"name":"__name__","value":"stale"}],"samples":[{"value":"NaN","timestamp":1}]},
        {"labels":[{"name":"__name__","value":"unrelated_gauge"},{"name":"specmatrix_run","value":"sm-abc"}],
         "samples":[{"value":7,"timestamp":1}]}]}"#);
    assert!(same(&logical_field(&sent, "value", Some("unrelated_gauge")), &Some(j("7"))));
    assert!(same(
        &logical_field(&sent, "labels", Some("unrelated_gauge")),
        &Some(j(r#"{"__name__":"unrelated_gauge","specmatrix_run":"sm-abc"}"#))
    ));
}

#[test]
fn several_series_without_a_name_reads_nothing() {
    let sent = j(r#"{"timeseries":[
        {"labels":[{"name":"__name__","value":"a"}],"samples":[{"value":1,"timestamp":1}]},
        {"labels":[{"name":"__name__","value":"b"}],"samples":[{"value":2,"timestamp":1}]}]}"#);
    assert!(logical_field(&sent, "value", None).is_none());
}

#[test]
fn one_series_needs_no_name() {
    let sent = j(GAUGE);
    assert!(same(&logical_field(&sent, "value", None), &Some(j("12.5"))));
}

#[test]
fn the_value_read_is_the_one_an_instant_query_would_return() {
    let sent = j(r#"{"timeseries":[{"labels":[{"name":"__name__","value":"g"}],"samples":[
        {"value":41,"timestamp":"1000"},
        {"value":"StaleNaN","timestamp":"2000"},
        {"value":43,"timestamp":"3000"}]}]}"#);
    assert!(same(&logical_field(&sent, "value", None), &Some(j("43"))));
}

#[test]
fn out_of_order_samples_are_not_reordered_but_the_latest_still_wins() {
    let text = r#"{"timeseries":[{"labels":[{"name":"__name__","value":"g"}],"samples":[
        {"value":2,"timestamp":2000},{"value":1,"timestamp":1000}]}]}"#;
    let sent = j(text);
    assert!(same(&logical_field(&sent, "value", None), &Some(j("2"))));
    assert_eq!(parse(sent.to_text().as_bytes()).ok().unwrap().timeseries[0].samples[0].timestamp, 2000);
}

#[test]
fn of_equal_timestamps_the_last_sample_wins() {
    let sent = j(r#"{"timeseries":[{"samples":[
        {"value":1,"timestamp":5},{"value":2,"timestamp":5}]}]}"#);
    assert!(same(&logical_field(&sent, "value", None), &Some(j("2"))));
}

#[test]
fn a_legacy_name_goes_in_front_of_the_braces() {
    assert_eq!(
        series_selector("specmatrix_gauge", Some("specmatrix_run"), "sm-1"),
        r#"specmatrix_gauge{specmatrix_run="sm-1"}"#
    );
}

#[test]
fn a_dotted_name_uses_the_quoted_form() {
    assert_eq!(
        series_selector("specmatrix.utf8.gauge", Some("specmatrix_run"), "sm-1"),
        r#"{"specmatrix.utf8.gauge",specmatrix_run="sm-1"}"#
    );
}

#[test]
fn an_adapter_with_no_run_key_field_still_gets_a_valid_selector() {
    assert_eq!(series_selector("g", None, "sm-1"), "g{}");
    assert_eq!(series_selector("a.b", None, "sm-1"), r#"{"a.b"}"#);
}

#[test]
fn a_name_starting_with_a_digit_is_not_legacy() {
    assert_eq!(series_selector("1abc", None, "k"), r#"{"1abc"}"#);
    assert_eq!(series_selector(":abc_9", None, "k"), ":abc_9{}");
}

#[test]
fn the_newest_sample_is_the_one_read_back() {
    let sent = j(r#"{"timeseries":[{"labels":[{"name":"__name__","value":"g"}],
        "samples":[{"value":1,"timestamp":300},{"value":2,"timestamp":"100"},{"value":3,"timestamp":300},{"value":4,"timestamp":200}]}]}"#);
    // The latest timestamp wins, and of two with the same one the later sample.
    assert!(same(&logical_field(&sent, "value", Some("g")), &Some(j("3"))));
    assert!(same(&logical_field(&sent, "timestamp", Some("g")), &Some(j("300"))));
}

#[test]
fn compression_is_the_snappy_block_format() {
    let raw = b"specmatrix specmatrix specmatrix specmatrix".to_vec();
    let wire = specmatrix::remote_write::compress(&raw).expect("compresses");
    // The framed format starts with the stream identifier chunk 0xff.
    assert_ne!(wire.first(), Some(&0xff));
    assert_ne!(wire, raw);
    assert_eq!(snap::raw::Decoder::new().decompress_vec(&wire).expect("a snappy block"), raw);
}

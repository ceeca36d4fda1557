use specmatrix::json::Json;
use specmatrix::points::{
    fill_exponential_histogram_defaults, normalise_point, normalise_points, special_float, Fixup,
    Special,
};

fn j(text: &str) -> Json {
    Json::parse(text.as_bytes()).expect("valid JSON")
}

fn same(a: &Json, b: &Json) -> bool {
    a.same(b)
}

fn gauge(point: &str) -> String {
    format!(
        r#"{{"resourceMetrics":[{{"scopeMetrics":[{{"metrics":[{{"name":"m","gauge":{{"dataPoints":[{}]}}}}]}}]}}]}}"#,
        point
    )
}

#[test]
fn the_special_floats_are_read_in_both_spellings() {
    assert_eq!(special_float("NaN"), Some(Special::NaN));
    assert_eq!(special_float(" Infinity "), Some(Special::Infinity));
    assert_eq!(special_float("+Inf"), Some(Special::Infinity));
    assert_eq!(special_float("Inf"), Some(Special::Infinity));
    assert_eq!(special_float("-Infinity"), Some(Special::NegInfinity));
    assert_eq!(special_float("-Inf"), Some(Special::NegInfinity));
    assert_eq!(special_float("nan"), None);
    assert_eq!(special_float("1.5"), None);
}

#[test]
fn a_nan_gauge_value_is_zeroed_and_put_back_afterwards() {
    let mut doc = j(&gauge(r#"{"timeUnixNano":"1","asDouble":"NaN"}"#));
    let fixups = normalise_points(&mut doc);
    assert_eq!(fixups, vec![Fixup { value: Some(Special::NaN), sum: None }]);
    let expected = j(&gauge(r#"{"timeUnixNano":"1","asDouble":0.0}"#));
    assert!(same(&doc, &expected), "{}", doc.to_text());
}

#[test]
fn both_infinities_are_carried() {
    for (text, special) in [("Infinity", Special::Infinity), ("-Infinity", Special::NegInfinity)] {
        let mut doc = j(&gauge(&format!(r#"{{"asDouble":"{text}"}}"#)));
        let fixups = normalise_points(&mut doc);
        assert_eq!(fixups, vec![Fixup { value: Some(special), sum: None }]);
    }
}

#[test]
fn an_int64_written_as_a_string_becomes_a_number() {
    let mut doc = j(&gauge(r#"{"asInt":"9223372036854775807"}"#));
    let fixups = normalise_points(&mut doc);
    assert_eq!(fixups, vec![Fixup { value: None, sum: None }]);
    let point = doc.pointer("/resourceMetrics/0/scopeMetrics/0/metrics/0/gauge/dataPoints/0/asInt").unwrap();
    assert_eq!(point.to_text(), "9223372036854775807");
}

#[test]
fn an_ordinary_value_is_left_alone() {
    let mut doc = j(&gauge(r#"{"asDouble":-0.0}"#));
    let fixups = normalise_points(&mut doc);
    assert_eq!(fixups, vec![Fixup { value: None, sum: None }]);
    let value = doc.pointer("/resourceMetrics/0/scopeMetrics/0/metrics/0/gauge/dataPoints/0/asDouble").unwrap();
    assert_eq!(value.to_text(), "-0.0");
}

#[test]
fn a_histogram_sum_of_nan_is_zeroed_and_put_back() {
    let mut doc = j(r#"{"resourceMetrics":[{"scopeMetrics":[{"metrics":[{"name":"m","histogram":{"aggregationTemporality":2,"dataPoints":[{"timeUnixNano":"1","count":"3","sum":"NaN"}]}}]}]}]}"#);
    let fixups = normalise_points(&mut doc);
    assert_eq!(fixups, vec![Fixup { value: None, sum: Some(Special::NaN) }]);
    let sum = doc.pointer("/resourceMetrics/0/scopeMetrics/0/metrics/0/histogram/dataPoints/0/sum").unwrap();
    assert_eq!(sum.to_text(), "0.0");
}

#[test]
fn an_exponential_histogram_with_only_the_natural_fields_is_completed() {
    let point = j(r#"{"timeUnixNano":"1","count":"3","sum":6.0,"scale":0,"zeroCount":"0","positive":{"bucketCounts":["1","2"]}}"#);
    let filled = fill_exponential_histogram_defaults(&point);
    let expected = j(r#"{"timeUnixNano":"1","count":"3","sum":6.0,"scale":0,"zeroCount":"0","positive":{"offset":0,"bucketCounts":["1","2"]},"attributes":[],"startTimeUnixNano":"0","flags":0,"exemplars":[],"zeroThreshold":0.0}"#);
    assert!(same(&filled, &expected), "{}", filled.to_text());
}

#[test]
fn fixups_come_in_the_order_of_the_points() {
    let mut doc = j(r#"{"resourceMetrics":[{"scopeMetrics":[{"metrics":[{"name":"a","gauge":{"dataPoints":[{"timeUnixNano":"1","asDouble":1.5},{"timeUnixNano":"2","asDouble":"NaN"}]}},{"name":"b","gauge":{"dataPoints":[{"timeUnixNano":"3","asDouble":"-Infinity"}]}}]}]}]}"#);
    let fixups = normalise_points(&mut doc);
    assert_eq!(
        fixups,
        vec![
            Fixup { value: None, sum: None },
            Fixup { value: Some(Special::NaN), sum: None },
            Fixup { value: Some(Special::NegInfinity), sum: None },
        ]
    );
}

#[test]
fn a_payload_without_metrics_is_untouched() {
    let mut doc = j(r#"{"something":"else"}"#);
    assert!(normalise_points(&mut doc).is_empty());
    assert!(same(&doc, &j(r#"{"something":"else"}"#)));
}

#[test]
fn a_single_point_is_rewritten_on_its_own() {
    let (point, fixup) = normalise_point(&j(r#"{"asInt":" 42 ","sum":"+Inf"}"#));
    assert_eq!(fixup, Fixup { value: None, sum: Some(Special::Infinity) });
    assert!(same(&point, &j(r#"{"asInt":42,"sum":0.0}"#)), "{}", point.to_text());
}

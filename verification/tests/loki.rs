use specmatrix::json::Json;
use specmatrix::loki::logical_field;

fn j(text: &str) -> Json {
    Json::parse(text.as_bytes()).expect("valid JSON")
}

fn same(a: &Option<Json>, b: &Option<Json>) -> bool {
    match (a, b) {
        (Some(x), Some(y)) => x.same(y),
        (None, None) => true,
        _ => false,
    }
}

fn push_body() -> Json {
    j(r#"{
        "streams": [{
            "stream": {"service_name": "specmatrix", "specmatrix_run": "sm-1"},
            "values": [["1757000000000000000", "hello", {"trace_id": "abc123"}]]
        }]
    }"#)
}

#[test]
fn reads_the_line() {
    assert!(same(&logical_field(&push_body(), "line"), &Some(j("\"hello\""))));
}

#[test]
fn reads_the_timestamp() {
    assert!(same(&logical_field(&push_body(), "timestamp"), &Some(j("\"1757000000000000000\""))));
}

#[test]
fn reads_the_stream_labels_as_an_object() {
    assert!(same(
        &logical_field(&push_body(), "labels"),
        &Some(j(r#"{"service_name": "specmatrix", "specmatrix_run": "sm-1"}"#))
    ));
}

#[test]
fn reads_a_structured_metadata_key() {
    assert!(same(&logical_field(&push_body(), "metadata.trace_id"), &Some(j("\"abc123\""))));
}

#[test]
fn a_value_without_metadata_reads_metadata_keys_as_absent() {
    let body = j(r#"{"streams": [{"stream": {}, "values": [["1", "line only"]]}]}"#);
    assert!(logical_field(&body, "metadata.trace_id").is_none());
}

#[test]
fn an_unknown_field_of_a_push_body_reads_as_absent() {
    assert!(logical_field(&push_body(), "severity").is_none());
    assert!(logical_field(&j("{}"), "line").is_none());
}

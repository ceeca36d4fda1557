use opentelemetry_proto::tonic::collector::logs::v1::ExportLogsServiceRequest;
use opentelemetry_proto::tonic::collector::trace::v1::ExportTraceServiceRequest;
use prost::Message;
use specmatrix::encode::{choose_encoding, headers_for, to_wire};

const MINIMAL: &str = r#"{"resourceLogs":[{"resource":{"attributes":[
    {"key":"service.name","value":{"stringValue":"specmatrix"}}]},
    "scopeLogs":[{"scope":{"name":"specmatrix"},"logRecords":[
    {"timeUnixNano":"1755000000123456789","severityNumber":9,
     "severityText":"INFO","body":{"stringValue":"hello"}}]}]}]}"#;

#[test]
fn a_matching_encoding_is_passed_through_untouched() {
    let out = to_wire("otlp-json", "otlp-json", MINIMAL.as_bytes()).unwrap();
    assert_eq!(out, MINIMAL.as_bytes());
}

#[test]
fn otlp_json_becomes_protobuf_that_decodes_back_to_the_same_record() {
    let wire = to_wire("otlp-json", "otlp-protobuf", MINIMAL.as_bytes()).unwrap();
    assert!(!wire.is_empty());
    let back = ExportLogsServiceRequest::decode(&wire[..]).expect("valid protobuf");
    let record = &back.resource_logs[0].scope_logs[0].log_records[0];
    assert_eq!(record.time_unix_nano, 1_755_000_000_123_456_789);
    assert_eq!(record.severity_text, "INFO");
}

#[test]
fn an_empty_batch_encodes_to_an_empty_message() {
    let wire = to_wire("otlp-json", "otlp-protobuf", br#"{"resourceLogs":[]}"#).unwrap();
    assert!(wire.is_empty());
}

#[test]
fn invalid_utf8_cannot_be_encoded_as_protobuf() {
    let mut bytes =
        br#"{"resourceLogs":[{"scopeLogs":[{"logRecords":[{"body":{"stringValue":"x"#.to_vec();
    bytes.extend_from_slice(&[0xff, 0xfe]);
    bytes.extend_from_slice(br#""}}]}]}]}"#);
    assert!(to_wire("otlp-json", "otlp-protobuf", &bytes).is_err());
}

#[test]
fn an_unknown_conversion_is_an_error_not_a_silent_passthrough() {
    let err = to_wire("otlp-json", "loki-json", b"{}").unwrap_err();
    assert!(err.contains("loki-json"), "{err}");
}

#[test]
fn choose_encoding_picks_the_first_the_backend_accepts() {
    let accepted = vec!["otlp-protobuf".to_string()];
    let offered = vec!["otlp-json".to_string(), "otlp-protobuf".to_string()];
    assert_eq!(choose_encoding(&accepted, &offered), Some("otlp-protobuf".into()));
}

#[test]
fn a_backend_that_speaks_the_native_format_gets_it_unconverted() {
    let accepted = vec!["otlp-json".to_string()];
    let offered = vec!["otlp-json".to_string(), "otlp-protobuf".to_string()];
    assert_eq!(choose_encoding(&accepted, &offered), Some("otlp-json".into()));
}

#[test]
fn an_adapter_declaring_nothing_accepts_the_first_offer() {
    assert_eq!(choose_encoding(&[], &["otlp-json".to_string()]), Some("otlp-json".into()));
}

#[test]
fn no_shared_encoding_yields_none() {
    let accepted = vec!["otlp-protobuf".to_string()];
    let offered = vec!["otlp-json".to_string()];
    assert_eq!(choose_encoding(&accepted, &offered), None);
}

#[test]
fn remote_write_carries_the_three_headers_a_receiver_needs() {
    let headers = headers_for("remote-write-protobuf");
    assert_eq!(headers.len(), 3);
    assert!(headers.contains(&("Content-Encoding", "snappy")));
    assert!(headers.contains(&("X-Prometheus-Remote-Write-Version", "0.1.0")));
}

#[test]
fn an_encoding_with_no_required_headers_asks_for_none() {
    assert!(headers_for("loki-json").is_empty());
}

#[test]
fn traces_json_becomes_protobuf_that_decodes_back_to_the_same_span() {
    let json = br#"{"resourceSpans":[{"scopeSpans":[{"spans":[{"name":"probe","startTimeUnixNano":"7"}]}]}]}"#;
    let wire = to_wire("otlp-traces-json", "otlp-traces-protobuf", json).unwrap();
    let back = ExportTraceServiceRequest::decode(&wire[..]).expect("valid protobuf");
    let span = &back.resource_spans[0].scope_spans[0].spans[0];
    assert_eq!(span.name, "probe");
    assert_eq!(span.start_time_unix_nano, 7);
}

#[test]
fn a_malformed_logs_payload_names_the_message_it_could_not_decode() {
    let err = to_wire("otlp-json", "otlp-protobuf", b"not json").unwrap_err();
    assert_eq!(err, "decoding OTLP JSON into ExportLogsServiceRequest");
}

#[test]
fn the_json_and_ndjson_encodings_name_their_content_types() {
    assert_eq!(headers_for("otlp-json"), vec![("Content-Type", "application/json")]);
    assert_eq!(headers_for("otlp-traces-protobuf"), vec![("Content-Type", "application/x-protobuf")]);
    assert_eq!(headers_for("es-ndjson"), vec![("Content-Type", "application/x-ndjson")]);
}

#[test]
fn no_offer_at_all_yields_none_even_from_an_adapter_declaring_nothing() {
    assert_eq!(choose_encoding(&[], &[]), None);
}

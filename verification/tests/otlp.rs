use opentelemetry_proto::tonic::collector::logs::v1::{ExportLogsPartialSuccess, ExportLogsServiceResponse};
use opentelemetry_proto::tonic::collector::trace::v1::{ExportTracePartialSuccess, ExportTraceServiceResponse};
use opentelemetry_proto::tonic::collector::metrics::v1::{ExportMetricsPartialSuccess, ExportMetricsServiceResponse};
use prost::Message;
use specmatrix::json::Json;
use specmatrix::otlp::{export_report, logical_field, metric_field, span_field};

fn j(text: &str) -> Json {
    Json::parse(text.as_bytes()).expect("valid JSON")
}

fn same(a: &Option<Json>, b: &Option<Json>) -> bool {
    match (a, b) {
        (Some(x), Some(y)) => x.same(y),
        (None, None) => true,
        _ => false,
    }
}

fn span(extra: &str) -> Json {
    let base = r#""traceId": "0102030405060708090a0b0c0d0e0f10",
        "spanId": "0102030405060708",
        "name": "probe",
        "startTimeUnixNano": "1",
        "endTimeUnixNano": "2""#;
    let fields = if extra.is_empty() { base.to_string() } else { format!("{base}, {extra}") };
    j(&format!(r#"{{"resourceSpans": [{{"scopeSpans": [{{"spans": [{{{fields}}}]}}]}}]}}"#))
}

#[test]
fn reads_trace_and_span_ids_as_hex_strings() {
    let payload = span("");
    assert!(same(&span_field(&payload, "traceId"), &Some(j("\"0102030405060708090a0b0c0d0e0f10\""))));
    assert!(same(&span_field(&payload, "spanId"), &Some(j("\"0102030405060708\""))));
}

#[test]
fn reads_status_code_and_message() {
    let payload = span(r#""status": {"code": 2, "message": "boom"}"#);
    assert!(same(&span_field(&payload, "status.code"), &Some(j("2"))));
    assert!(same(&span_field(&payload, "status.message"), &Some(j("\"boom\""))));
}

#[test]
fn reads_the_first_event_name_and_timestamp() {
    let payload = span(r#""events": [{"name": "e1", "timeUnixNano": "5"}]"#);
    assert!(same(&span_field(&payload, "events.0.name"), &Some(j("\"e1\""))));
    assert!(same(&span_field(&payload, "events.0.timeUnixNano"), &Some(j("\"5\""))));
}

#[test]
fn reads_a_span_attribute_by_key() {
    let payload = span(r#""attributes": [{"key": "http.method", "value": {"stringValue": "GET"}}]"#);
    assert!(same(&span_field(&payload, "attributes.http.method"), &Some(j("\"GET\""))));
}

#[test]
fn a_field_that_is_absent_reads_as_none() {
    assert!(span_field(&span(""), "parentSpanId").is_none());
}

fn payload() -> Json {
    j(r#"{
        "resourceLogs": [{
            "resource": {"attributes": []},
            "scopeLogs": [{
                "scope": {"name": "specmatrix"},
                "logRecords": [{
                    "timeUnixNano": "1755000000000000000",
                    "severityText": "INFO",
                    "body": {"stringValue": "hello"},
                    "attributes": [
                        {"key": "specmatrix.run", "value": {"stringValue": "sm-1234"}}
                    ]
                }]
            }]
        }]
    }"#)
}

#[test]
fn reads_body_through_the_any_value_wrapper() {
    assert!(same(&logical_field(&payload(), "body"), &Some(j("\"hello\""))));
}

#[test]
fn reads_an_attribute_by_key() {
    assert!(same(&logical_field(&payload(), "attributes.specmatrix.run"), &Some(j("\"sm-1234\""))));
}

#[test]
fn absent_field_reads_as_none() {
    assert!(logical_field(&payload(), "traceId").is_none());
}

#[test]
fn empty_payload_yields_nothing() {
    assert!(logical_field(&j("{}"), "body").is_none());
}

fn protobuf_response(rejected: i64, message: &str) -> Vec<u8> {
    ExportLogsServiceResponse {
        partial_success: Some(ExportLogsPartialSuccess {
            rejected_log_records: rejected,
            error_message: message.to_string(),
        }),
    }
    .encode_to_vec()
}

#[test]
fn an_empty_body_carries_no_report() {
    assert_eq!(export_report("otlp-logs", "otlp-json", Some("application/json"), b""), None);
}

#[test]
fn a_success_with_no_partial_success_carries_no_report() {
    assert_eq!(export_report("otlp-logs", "otlp-json", Some("application/json"), b"{}"), None);
}

#[test]
fn a_json_report_is_read_in_either_field_naming() {
    let camel = br#"{"partialSuccess":{"rejectedLogRecords":"3","errorMessage":"too old"}}"#;
    let report = export_report("otlp-logs", "otlp-json", Some("application/json"), camel).unwrap();
    assert_eq!(report.rejected, 3);
    assert_eq!(report.message, "too old");
    assert_eq!(report.encoding_mismatch, None);

    let snake = br#"{"partial_success":{"rejected_log_records":3,"error_message":"too old"}}"#;
    assert_eq!(
        export_report("otlp-logs", "otlp-json", Some("application/json"), snake).unwrap().rejected,
        3
    );
}

#[test]
fn a_protobuf_report_to_a_protobuf_request_is_not_a_mismatch() {
    let body = protobuf_response(1, "too old");
    let report =
        export_report("otlp-logs", "otlp-protobuf", Some("application/x-protobuf"), &body).unwrap();
    assert_eq!(report.rejected, 1);
    assert_eq!(report.message, "too old");
    assert_eq!(report.encoding_mismatch, None);
}

#[test]
fn a_protobuf_report_to_a_json_request_is_reported_as_a_mismatch() {
    let body = protobuf_response(1, "Too old data, only last 5 hours data can be ingested.");
    let report = export_report("otlp-logs", "otlp-json", Some("application/json"), &body).unwrap();
    assert_eq!(report.rejected, 1);
    assert!(report.message.starts_with("Too old data"));
    let mismatch = report.encoding_mismatch.expect("a mismatch");
    assert!(mismatch.contains("response body is protobuf"), "{mismatch}");
    assert!(mismatch.contains("application/json"), "{mismatch}");
}

#[test]
fn a_json_report_to_a_traces_or_metrics_json_request_is_not_a_mismatch() {
    let camel = br#"{"partialSuccess":{"rejectedSpans":"1","errorMessage":"x"}}"#;
    let report =
        export_report("otlp-traces", "otlp-traces-json", Some("application/json"), camel).unwrap();
    assert_eq!(report.encoding_mismatch, None, "{:?}", report.encoding_mismatch);

    let camel = br#"{"partialSuccess":{"rejectedDataPoints":"1","errorMessage":"x"}}"#;
    let report =
        export_report("otlp-metrics", "otlp-metrics-json", Some("application/json"), camel).unwrap();
    assert_eq!(report.encoding_mismatch, None, "{:?}", report.encoding_mismatch);
}

#[test]
fn a_traces_json_report_reads_rejected_spans_in_either_naming() {
    let camel = br#"{"partialSuccess":{"rejectedSpans":"2","errorMessage":"dropped"}}"#;
    let report =
        export_report("otlp-traces", "otlp-traces-json", Some("application/json"), camel).unwrap();
    assert_eq!(report.rejected, 2);
    assert_eq!(report.message, "dropped");

    let snake = br#"{"partial_success":{"rejected_spans":2,"error_message":"dropped"}}"#;
    let report =
        export_report("otlp-traces", "otlp-traces-json", Some("application/json"), snake).unwrap();
    assert_eq!(report.rejected, 2);
}

#[test]
fn a_metrics_json_report_reads_rejected_data_points() {
    let body = br#"{"partialSuccess":{"rejectedDataPoints":"4","errorMessage":"bad point"}}"#;
    let report =
        export_report("otlp-metrics", "otlp-metrics-json", Some("application/json"), body).unwrap();
    assert_eq!(report.rejected, 4);
    assert_eq!(report.message, "bad point");
}

#[test]
fn a_traces_protobuf_report_decodes_as_the_traces_response_type() {
    let body = ExportTraceServiceResponse {
        partial_success: Some(ExportTracePartialSuccess {
            rejected_spans: 3,
            error_message: "too many".to_string(),
        }),
    }
    .encode_to_vec();
    let report =
        export_report("otlp-traces", "otlp-traces-protobuf", Some("application/x-protobuf"), &body)
            .unwrap();
    assert_eq!(report.rejected, 3);
    assert_eq!(report.message, "too many");
    assert_eq!(report.encoding_mismatch, None);
}

#[test]
fn an_unreadable_body_carries_no_report() {
    assert_eq!(export_report("otlp-logs", "otlp-json", None, b"not a response at all"), None);
}

#[test]
fn a_protobuf_report_with_no_content_type_says_none() {
    let body = protobuf_response(2, "x");
    let report = export_report("otlp-logs", "otlp-json", None, &body).unwrap();
    assert_eq!(
        report.encoding_mismatch.as_deref(),
        Some("request was JSON, response body is protobuf and content-type says none")
    );
}

#[test]
fn a_json_report_to_a_protobuf_request_is_a_mismatch() {
    let camel = br#"{"partialSuccess":{"rejectedLogRecords":5}}"#;
    let report = export_report("otlp-logs", "otlp-protobuf", None, camel).unwrap();
    assert_eq!(report.rejected, 5);
    assert_eq!(report.message, "");
    assert_eq!(
        report.encoding_mismatch.as_deref(),
        Some("request was protobuf, response body is JSON")
    );
}

fn metrics() -> Json {
    j(r#"{"resourceMetrics":[{"scopeMetrics":[{"metrics":[
        {"name":"a","unit":"s","gauge":{"dataPoints":[{"asDouble":1.5,"timeUnixNano":"1",
            "attributes":[{"key":"zone","value":{"stringValue":"x"}},{"key":"host","value":{"intValue":"3"}}]}]}},
        {"name":"b","histogram":{"dataPoints":[{"count":"3","sum":6.0,"bucketCounts":["1","2"],"explicitBounds":[1.0]}]}}
    ]}]}]}"#)
}

#[test]
fn a_named_metric_is_the_one_read() {
    assert!(same(&metric_field(&metrics(), "value", Some("a")), &Some(j("1.5"))));
    assert!(same(&metric_field(&metrics(), "unit", Some("a")), &Some(j("\"s\""))));
    assert!(same(&metric_field(&metrics(), "value", Some("b")), &Some(j("\"3\""))));
    assert!(same(&metric_field(&metrics(), "sum", Some("b")), &Some(j("6.0"))));
    assert!(same(&metric_field(&metrics(), "bucketCounts", Some("b")), &Some(j("[\"1\",\"2\"]"))));
}

#[test]
fn several_metrics_without_a_name_read_nothing() {
    assert!(metric_field(&metrics(), "value", None).is_none());
}

#[test]
fn a_point_s_attributes_read_as_a_flat_map() {
    assert!(same(
        &metric_field(&metrics(), "labels", Some("a")),
        &Some(j(r#"{"host":"3","zone":"x"}"#))
    ));
    assert!(same(&metric_field(&metrics(), "attributes.zone", Some("a")), &Some(j("\"x\""))));
}

#[test]
fn an_empty_any_value_reads_as_null() {
    let p = j(r#"{"resourceLogs":[{"scopeLogs":[{"logRecords":[{"body":{}}]}]}]}"#);
    assert!(same(&logical_field(&p, "body"), &Some(j("null"))));
}

#[test]
fn the_snake_case_spelling_reads_the_same_field() {
    assert!(same(&logical_field(&payload(), "severity_text"), &Some(j("\"INFO\""))));
    assert!(same(&logical_field(&payload(), "time_unix_nano"), &Some(j("\"1755000000000000000\""))));
}

#[test]
fn a_metrics_protobuf_report_reads_its_rejected_points() {
    let body = ExportMetricsServiceResponse {
        partial_success: Some(ExportMetricsPartialSuccess {
            rejected_data_points: 4,
            error_message: "out of order".to_string(),
        }),
    }
    .encode_to_vec();
    let report =
        export_report("otlp-metrics", "otlp-metrics-protobuf", Some("application/x-protobuf"), &body)
            .unwrap();
    assert_eq!(report.rejected, 4);
    assert_eq!(report.message, "out of order");
    assert_eq!(report.encoding_mismatch, None);
}

use specmatrix::backend::{Auth, Request, VersionFrom};
use specmatrix::case::FieldCheck;
use specmatrix::compare::Kind;
use specmatrix::es;
use specmatrix::json::Json;
use specmatrix::otlp::ExportReport;
use specmatrix::runner::{
    auth_mode, base_url_of, block_reason, combine_readbacks, describe_report, field_of,
    fill_headers, first_line, first_record, ingest_verdict, judge_readback, method_of,
    parse_sent, prepare, reading_for, run_key_text, sort_results, stream_name,
    version_from_response, version_from_text, AuthMode, CheckResult, Method, Outcome, Reading,
    Verdict,
};
use specmatrix::template::Vars;

fn j(text: &str) -> Json {
    Json::parse(text.as_bytes()).expect("valid JSON")
}

fn result(id: &str, verdict: Verdict, detail: &str) -> CheckResult {
    CheckResult { id: id.to_string(), title: String::new(), verdict, detail: detail.to_string() }
}

#[test]
fn first_record_matches_on_the_run_key() {
    let response = j(r#"{
        "hits": [
            {"body": "from an earlier run", "specmatrix.run": "sm-old"},
            {"body": "ours", "specmatrix.run": "sm-new"}
        ]
    }"#);
    let found = first_record(&response, "/hits", "sm-new").expect("record present");
    assert_eq!(found.get("body").unwrap().as_str(), Some("ours"));
}

#[test]
fn first_record_ignores_records_without_the_key() {
    let response = j(r#"{"hits": [{"body": "someone else's"}]}"#);
    assert!(first_record(&response, "/hits", "sm-new").is_none());
}

#[test]
fn parse_sent_reads_ndjson_without_calling_it_lossy() {
    let (value, lossy) = parse_sent(b"{\"index\":{}}\n{\"message\":\"hi\"}\n");
    assert!(!lossy);
    assert!(es::logical_field(&value, "message").unwrap().same(&j("\"hi\"")));
}

#[test]
fn parse_sent_reports_valid_utf8_as_strict() {
    let (value, lossy) = parse_sent(br#"{"a": "plain"}"#);
    assert!(!lossy);
    assert_eq!(value.get("a").unwrap().as_str(), Some("plain"));
}

#[test]
fn parse_sent_falls_back_to_a_lossy_decode() {
    let mut bytes = br#"{"a": "before-"#.to_vec();
    bytes.extend_from_slice(&[0xff, 0xfe]);
    bytes.extend_from_slice(br#"-after"}"#);

    let (value, lossy) = parse_sent(&bytes);
    assert!(lossy, "invalid UTF-8 must be reported as a lossy decode");
    let a = value.get("a").and_then(|v| v.as_str()).unwrap_or_default();
    assert!(a.starts_with("before-") && a.ends_with("-after"));
    assert!(a.contains('\u{fffd}'), "replacement character expected, got {a:?}");
}

#[test]
fn first_record_rejects_an_error_object() {
    let response = j(r#"{"error": "index not found"}"#);
    assert!(first_record(&response, "", "sm-new").is_none());
}

#[test]
fn a_version_can_be_read_out_of_a_text_response() {
    let pattern = r#"vm_app_version\{.*short_version="([^"]+)""#;
    let body = "# HELP vm_app_version Version\nvm_app_version{version=\"victoria-logs-20260716-tags-v1.52.0\", short_version=\"v1.52.0\"} 1\n";
    assert_eq!(version_from_text(pattern, body), Some("v1.52.0".to_string()));
}

#[test]
fn a_pattern_that_matches_nothing_yields_no_version() {
    assert_eq!(version_from_text(r"nothing_like_this=(\d+)", "some other output"), None);
}

#[test]
fn an_unknown_ingest_expectation_is_an_error() {
    let err = ingest_verdict("accpeted", true).unwrap_err();
    assert!(err.contains("accpeted"), "{err}");
}

#[test]
fn an_accepted_write_the_check_expected_continues_to_read_back() {
    assert_eq!(ingest_verdict("accepted", true).unwrap(), None);
}

#[test]
fn a_refused_write_the_check_expected_to_land_is_a_reject() {
    assert_eq!(ingest_verdict("accepted", false).unwrap(), Some(Verdict::Reject));
}

#[test]
fn a_refused_write_the_check_expected_to_be_refused_passes() {
    assert_eq!(ingest_verdict("rejected", false).unwrap(), Some(Verdict::Pass));
}

#[test]
fn runner_accepting_a_payload_the_check_expects_refused_is_an_alter() {
    assert_eq!(ingest_verdict("rejected", true).unwrap(), Some(Verdict::Alter));
}

#[test]
fn accepted_or_rejected_passes_on_a_refusal() {
    assert_eq!(ingest_verdict("accepted-or-rejected", false).unwrap(), Some(Verdict::Pass));
}

#[test]
fn accepted_or_rejected_continues_to_read_back_on_acceptance() {
    assert_eq!(ingest_verdict("accepted-or-rejected", true).unwrap(), None);
}

#[test]
fn the_unknown_ingest_message_quotes_what_was_declared() {
    assert_eq!(
        ingest_verdict("accpeted", false).unwrap_err(),
        "declares expect.ingest: \"accpeted\"; expected `accepted`, `rejected` or `accepted-or-rejected`"
    );
}

#[test]
fn a_report_of_nothing_adds_nothing_to_the_line() {
    assert_eq!(describe_report(None), "");
    let quiet = ExportReport { rejected: 0, message: "ignored".into(), encoding_mismatch: None };
    assert_eq!(describe_report(Some(&quiet)), "");
}

#[test]
fn a_reported_rejection_and_a_mismatch_are_both_named() {
    let report = ExportReport {
        rejected: 2,
        message: "too old\nsecond line".into(),
        encoding_mismatch: Some("request was JSON, response body is protobuf".into()),
    };
    assert_eq!(
        describe_report(Some(&report)),
        "; store reported 2 rejected record(s): too old; request was JSON, response body is protobuf, so no conformant client can read that report"
    );
    let bare = ExportReport { rejected: 1, message: String::new(), encoding_mismatch: None };
    assert_eq!(describe_report(Some(&bare)), "; store reported 1 rejected record(s)");
}

#[test]
fn the_first_line_is_trimmed_and_shortened() {
    assert_eq!(first_line("  hello  \nworld"), "hello");
    let long = "x".repeat(130);
    assert_eq!(first_line(&long), format!("{}…", "x".repeat(120)));
}

#[test]
fn a_control_that_passed_blocks_nothing() {
    assert_eq!(block_reason(&result("c", Verdict::Pass, "ok"), "c"), None);
}

#[test]
fn a_control_that_failed_blocks_the_rest_of_the_suite_with_its_reason() {
    assert_eq!(
        block_reason(&result("c", Verdict::Reject, "400 bad"), "c"),
        Some("control rejected: 400 bad".to_string())
    );
    assert_eq!(
        block_reason(&result("c", Verdict::Alter, "x"), "c"),
        Some("control altered: adapter mapping is wrong, fix it before trusting any row".to_string())
    );
    assert_eq!(
        block_reason(&result("c", Verdict::NotApplicable, "harness error: refused"), "otlp-logs/control"),
        Some("not attempted: control otlp-logs/control did not run".to_string())
    );
    assert_eq!(
        block_reason(&result("c", Verdict::NotApplicable, "setup failed: 500"), "c"),
        Some("setup failed: 500".to_string())
    );
}

#[test]
fn results_are_sorted_by_id_keeping_ties_in_order() {
    let sorted = sort_results(vec![
        result("b", Verdict::Pass, "1"),
        result("a", Verdict::Pass, "2"),
        result("b", Verdict::Alter, "3"),
        result("a/c", Verdict::Reject, "4"),
    ]);
    let order: Vec<(&str, &str)> = sorted.iter().map(|r| (r.id.as_str(), r.detail.as_str())).collect();
    assert_eq!(order, [("a", "2"), ("a/c", "4"), ("b", "1"), ("b", "3")]);
}

#[test]
fn an_outcome_counts_its_verdicts() {
    let outcome = Outcome {
        backend: "x".into(),
        backend_version: None,
        backend_image: None,
        suite: "s".into(),
        url: "u".into(),
        results: vec![
            result("a", Verdict::Pass, ""),
            result("b", Verdict::Alter, ""),
            result("c", Verdict::Pass, ""),
        ],
    };
    assert_eq!(outcome.count(Verdict::Pass), 2);
    assert_eq!(outcome.count(Verdict::Alter), 1);
    assert_eq!(outcome.count(Verdict::NotApplicable), 0);
}

fn reading(field: &str, sent: Option<&str>, read: Option<&str>) -> Reading {
    Reading {
        field: field.to_string(),
        kind: Kind::Raw,
        sent: sent.map(j),
        read: read.map(j),
        sent_float: None,
        read_float: None,
    }
}

#[test]
fn a_record_that_reads_back_unchanged_passes_with_the_status() {
    let readings = vec![reading("body", Some("\"hello\""), Some("\"hello\""))];
    assert_eq!(
        judge_readback("c", "", "exact", true, 200, "", &readings, false),
        Ok((Verdict::Pass, "200, round trip intact".to_string()))
    );
}

#[test]
fn a_changed_value_is_an_alter_naming_what_was_sent_and_what_came_back() {
    let readings = vec![
        reading("body", Some("\"hello\""), Some("\"hello\"")),
        reading("severityText", Some("\"INFO\""), Some("\"info\"")),
    ];
    assert_eq!(
        judge_readback("c", "", "exact", true, 200, "", &readings, false),
        Ok((
            Verdict::Alter,
            "severityText: sent \"INFO\" (string), read back \"info\" (string)".to_string()
        ))
    );
}

#[test]
fn present_mode_reports_every_field_without_calling_it_a_failure() {
    let readings = vec![reading("body", Some("\"a\""), Some("\"b\""))];
    assert_eq!(
        judge_readback("c", "g: ", "present", true, 200, "", &readings, false),
        Ok((Verdict::Pass, "g: recorded — body: sent \"a\" (string), read back \"b\" (string)".to_string()))
    );
}

#[test]
fn a_record_that_never_appears_is_an_alter_or_a_pass_for_absent() {
    assert_eq!(
        judge_readback("c", "", "exact", false, 204, "; store reported 1 rejected record(s)", &vec![], false),
        Ok((Verdict::Alter, "accepted (204) but never became queryable; store reported 1 rejected record(s)".to_string()))
    );
    assert_eq!(
        judge_readback("c", "", "absent", false, 204, "", &vec![], false),
        Ok((Verdict::Pass, "absent, as the check requires".to_string()))
    );
    assert_eq!(
        judge_readback("c", "", "absent", true, 204, "", &vec![], false),
        Ok((Verdict::Alter, "still queryable when the check requires it to be gone".to_string()))
    );
}

#[test]
fn a_lossy_payload_reports_the_substitution_rather_than_a_match() {
    let readings = vec![reading("body", Some("\"a\u{fffd}\""), Some("\"a\u{fffd}\""))];
    assert_eq!(
        judge_readback("c", "", "exact", true, 200, "", &readings, true),
        Ok((Verdict::Alter, "body: invalid bytes replaced with U+FFFD".to_string()))
    );
}

#[test]
fn an_unknown_match_mode_is_an_error() {
    assert_eq!(
        judge_readback("otlp-logs/x", "", "roughly", true, 200, "", &vec![], false),
        Err("case otlp-logs/x declares readback.match: \"roughly\"; expected `exact`, `present` or `absent`".to_string())
    );
}

#[test]
fn several_readbacks_take_the_worst_verdict_and_every_line() {
    let parts = vec![(Verdict::Pass, "a: fine".to_string()), (Verdict::Alter, "b: changed".to_string())];
    assert_eq!(combine_readbacks(&parts), (Verdict::Alter, "a: fine | b: changed".to_string()));
    let fine = vec![(Verdict::Pass, "a".to_string())];
    assert_eq!(combine_readbacks(&fine), (Verdict::Pass, "a".to_string()));
}

#[test]
fn a_field_is_read_where_the_adapter_maps_it() {
    let record = j(r#"{"message": "hi", "body": "not this one", "meta": {"sev": "INFO"}}"#);
    let fields = vec![("body".to_string(), "/message".to_string()), ("severityText".to_string(), "/meta/sev".to_string())];
    assert!(field_of(&fields, &record, "body").unwrap().same(&j("\"hi\"")));
    assert!(field_of(&fields, &record, "severityText").unwrap().same(&j("\"INFO\"")));
    assert!(field_of(&fields, &record, "meta").unwrap().same(&j(r#"{"sev":"INFO"}"#)));
    assert!(field_of(&fields, &record, "traceId").is_none());
}

#[test]
fn a_reading_takes_the_kind_the_check_names() {
    let sent = j(r#"{"resourceLogs":[{"scopeLogs":[{"logRecords":[{"timeUnixNano":"1"}]}]}]}"#);
    let record = j(r#"{"ts": 1}"#);
    let fields = vec![("timeUnixNano".to_string(), "/ts".to_string())];
    let check = FieldCheck { field: "timeUnixNano".to_string(), kind: Some("timestamp".to_string()) };
    let r = reading_for("c", "otlp-logs", &sent, &record, &fields, &check, None).ok().unwrap();
    assert_eq!(r.kind, Kind::Timestamp);
    assert!(r.sent.unwrap().same(&j("\"1\"")));
    assert!(r.read.unwrap().same(&j("1")));
    let bad = FieldCheck { field: "x".to_string(), kind: Some("instant".to_string()) };
    assert_eq!(
        reading_for("c", "otlp-logs", &sent, &record, &fields, &bad, None).err().unwrap(),
        "case c field x: unknown `as` value \"instant\"; expected `timestamp`, `integer`, `float` or `string`"
    );
}

#[test]
fn a_version_is_read_from_a_field_or_a_pattern() {
    let by_field = VersionFrom { request: "GET /v".into(), field: Some("version".into()), pattern: None };
    assert_eq!(version_from_response(&by_field, 200, r#"{"version":"1.2"}"#), Ok(Some("1.2".to_string())));
    let by_pointer = VersionFrom { request: "GET /v".into(), field: Some("/build/v".into()), pattern: None };
    assert_eq!(version_from_response(&by_pointer, 200, r#"{"build":{"v":"3"}}"#), Ok(Some("3".to_string())));
    assert_eq!(version_from_response(&by_field, 503, r#"{"version":"1.2"}"#), Ok(None));
    assert_eq!(version_from_response(&by_field, 200, "not json"), Ok(None));
    let neither = VersionFrom { request: "GET /v".into(), field: None, pattern: None };
    assert_eq!(
        version_from_response(&neither, 200, "x"),
        Err("version_from needs either a `field` or a `pattern`".to_string())
    );
    let broken = VersionFrom { request: "GET /v".into(), field: None, pattern: Some("(".into()) };
    assert_eq!(version_from_response(&broken, 200, "x"), Err("version_from.pattern \"(\"".to_string()));
}

#[test]
fn the_required_headers_are_filled_in_without_overriding_the_adapter() {
    let mut headers = vec![("Content-Type".to_string(), "application/custom".to_string())];
    fill_headers(&mut headers, "remote-write-protobuf");
    assert_eq!(
        headers,
        vec![
            ("Content-Type".to_string(), "application/custom".to_string()),
            ("Content-Encoding".to_string(), "snappy".to_string()),
            ("X-Prometheus-Remote-Write-Version".to_string(), "0.1.0".to_string()),
        ]
    );
}

#[test]
fn a_request_is_prepared_with_its_values_rendered_and_its_params_sorted() {
    let mut vars = Vars::new();
    vars.insert("run_key", "sm-1".to_string());
    let req = Request {
        request: "get  /search/{{ run_key }} ".to_string(),
        headers: vec![("X-Run".to_string(), "{{run_key}}".to_string())],
        params: vec![
            ("query".to_string(), "{a=\"{{ run_key }}\"}".to_string()),
            ("limit".to_string(), "10".to_string()),
        ],
        body: None,
    };
    let prepared = prepare(&req, &vars, "http://localhost:3100").ok().unwrap();
    assert_eq!(prepared.method, Method::Get);
    assert_eq!(prepared.url, "http://localhost:3100/search/sm-1");
    assert_eq!(prepared.headers, vec![("X-Run".to_string(), "sm-1".to_string())]);
    assert_eq!(
        prepared.params,
        vec![("limit".to_string(), "10".to_string()), ("query".to_string(), "{a=\"sm-1\"}".to_string())]
    );
    let bad = Request { request: "PATCH /x".to_string(), headers: vec![], params: vec![], body: None };
    assert_eq!(prepare(&bad, &vars, "u").err().unwrap(), "unsupported method PATCH");
    let no_path = Request { request: "GET".to_string(), headers: vec![], params: vec![], body: None };
    assert_eq!(prepare(&no_path, &vars, "u").err().unwrap(), "request must be `METHOD /path`, got \"GET\"");
    assert!(method_of("POST").is_ok());
}

#[test]
fn a_base_url_loses_its_trailing_slashes() {
    assert_eq!(base_url_of("http://localhost:8000//"), "http://localhost:8000");
    assert_eq!(base_url_of("http://x"), "http://x");
}

#[test]
fn a_run_key_is_sm_and_hex() {
    assert_eq!(run_key_text(0x2ec7_6f6a_fab1_1dd3), "sm-2ec76f6afab11dd3");
    assert_eq!(run_key_text(0), "sm-0");
}

#[test]
fn a_case_gets_a_stream_of_its_own() {
    assert_eq!(stream_name("otlp-logs/Minimal.Record"), "specmatrix_otlp_logs_minimal_record");
}

#[test]
fn authentication_is_what_the_adapter_declares() {
    let basic = Some(Auth { kind: "basic".into(), username: Some("admin".into()), password: None, token: None });
    match auth_mode(&basic) {
        AuthMode::Basic(u, p) => {
            assert_eq!(u, "admin");
            assert_eq!(p, None);
        },
        _ => panic!("expected basic auth"),
    }
    let bearer = Some(Auth { kind: "bearer".into(), username: None, password: None, token: None });
    match auth_mode(&bearer) {
        AuthMode::Bearer(t) => assert_eq!(t, ""),
        _ => panic!("expected a bearer token"),
    }
    let other = Some(Auth { kind: "digest".into(), username: None, password: None, token: None });
    assert!(matches!(auth_mode(&other), AuthMode::Anonymous));
    assert!(matches!(auth_mode(&None), AuthMode::Anonymous));
}

#[test]
fn a_response_body_is_read_as_text_with_invalid_bytes_replaced() {
    let response = specmatrix::runner::Response {
        status: 200,
        content_type: None,
        body: b"before-\xff\xfe-after".to_vec(),
    };
    assert_eq!(response.text(), "before-\u{FFFD}\u{FFFD}-after");
    let clean = specmatrix::runner::Response { status: 200, content_type: None, body: b"ok".to_vec() };
    assert_eq!(clean.text(), "ok");
}

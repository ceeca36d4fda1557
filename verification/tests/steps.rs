use specmatrix::runner::CheckResult;
use specmatrix::steps::{after_control, case_stages, suite_order, Stage};
use specmatrix::runner::{line_cuts_cleanly, Verdict};
use specmatrix::steps::{
    blocked_step, encoding_step, harness_error, ingest_step, query_step, ready_step, setup_step,
    unread_step, wire_step,
};

fn strings(items: &[&str]) -> Vec<String> {
    items.iter().map(|s| s.to_string()).collect()
}

#[test]
fn a_shared_encoding_is_the_one_sent() {
    let accepted = strings(&["otlp-protobuf"]);
    let offered = strings(&["otlp-json", "otlp-protobuf"]);
    assert_eq!(encoding_step(&accepted, &offered), Ok("otlp-protobuf".to_string()));
}

#[test]
fn no_shared_encoding_names_every_offer() {
    let accepted = strings(&["loki-protobuf"]);
    let offered = strings(&["otlp-json", "otlp-protobuf"]);
    assert_eq!(
        encoding_step(&accepted, &offered),
        Err("encoding otlp-json or otlp-protobuf not accepted by this backend".to_string())
    );
}

#[test]
fn a_payload_the_encoding_cannot_carry_is_ineligible() {
    let r = wire_step("otlp-protobuf", Err("invalid UTF-8".to_string()));
    assert_eq!(r, Err("payload cannot be encoded as otlp-protobuf: invalid UTF-8".to_string()));
    assert_eq!(wire_step("otlp-json", Ok(vec![1, 2, 3])), Ok(vec![1, 2, 3]));
}

#[test]
fn a_setup_answering_400_is_not_a_failure() {
    assert_eq!(setup_step(200, "ok"), None);
    assert_eq!(setup_step(204, ""), None);
    assert_eq!(setup_step(400, "index already exists"), None);
    assert_eq!(setup_step(500, "boom"), Some("setup failed: 500 boom".to_string()));
    assert_eq!(setup_step(404, "no such route"), Some("setup failed: 404 no such route".to_string()));
}

#[test]
fn a_store_that_never_became_ready_is_not_measured() {
    assert_eq!(ready_step(true), None);
    assert_eq!(
        ready_step(false),
        Some("the backend's preconditions did not hold within the adapter's timeout".to_string())
    );
}

#[test]
fn a_refused_write_names_the_status_and_first_line() {
    assert_eq!(
        ingest_step("otlp-logs/minimal", "accepted", 400, "bad request"),
        Ok(Some((Verdict::Reject, "400 bad request".to_string())))
    );
    assert_eq!(ingest_step("otlp-logs/minimal", "accepted", 204, ""), Ok(None));
    assert_eq!(
        ingest_step("otlp-logs/too-old", "rejected", 200, ""),
        Ok(Some((Verdict::Alter, "accepted a payload the check expects to be refused".to_string())))
    );
    assert_eq!(
        ingest_step("otlp-logs/too-old", "rejected", 400, "too old"),
        Ok(Some((Verdict::Pass, "400 too old".to_string())))
    );
}

#[test]
fn an_unknown_ingest_expectation_names_the_case() {
    let err = ingest_step("otlp-logs/typo", "accpeted", 200, "").unwrap_err();
    assert!(err.starts_with("case otlp-logs/typo: "), "{err}");
    assert!(err.contains("accpeted"), "{err}");
}

#[test]
fn a_query_passes_when_the_rows_agree() {
    let expected = strings(&["a", "b"]);
    assert_eq!(
        query_step("q/1", "any", &expected, &strings(&["b", "a"]), 200),
        Ok((Verdict::Pass, "200, query agrees".to_string()))
    );
    let (verdict, _) = query_step("q/1", "as-listed", &expected, &strings(&["b", "a"]), 200).unwrap();
    assert_eq!(verdict, Verdict::Alter);
    let (verdict, _) = query_step("q/1", "any", &expected, &strings(&["a"]), 200).unwrap();
    assert_eq!(verdict, Verdict::Alter);
}

#[test]
fn an_unknown_query_order_is_an_error() {
    let err = query_step("q/1", "sorted", &[], &[], 200).unwrap_err();
    assert_eq!(err, "case q/1 declares query.order: \"sorted\"; expected `any` or `as-listed`");
}

#[test]
fn nothing_to_read_back_passes_with_the_reason() {
    assert_eq!(unread_step(204, "", false), (Verdict::Pass, "204, no read-back declared".to_string()));
    assert_eq!(
        unread_step(200, "; 1 rejected", true),
        (Verdict::Pass, "200, adapter declares no read-back; 1 rejected".to_string())
    );
}

#[test]
fn a_harness_error_is_not_applicable() {
    let row = harness_error("a/b", "A title", "connection refused");
    assert_eq!(row.id, "a/b");
    assert_eq!(row.title, "A title");
    assert_eq!(row.verdict, Verdict::NotApplicable);
    assert_eq!(row.detail, "harness error: connection refused");
}

#[test]
fn a_blocked_case_carries_the_reason() {
    assert!(blocked_step(&None, "a/b", "t").is_none());
    let row = blocked_step(&Some("control rejected: 400".to_string()), "a/b", "t").unwrap();
    assert_eq!(row.verdict, Verdict::NotApplicable);
    assert_eq!(row.detail, "control rejected: 400");
    assert_eq!(row.id, "a/b");
}

#[test]
fn a_long_line_cuts_cleanly_only_on_a_character_boundary() {
    assert!(line_cuts_cleanly("short"));
    assert!(line_cuts_cleanly(&"a".repeat(300)));
    // 119 ASCII bytes and then a two-byte character straddling the cut.
    let straddling = format!("{}é{}", "a".repeat(119), "b".repeat(10));
    assert!(!line_cuts_cleanly(&straddling));
    let exactly = format!("{}é", "a".repeat(118));
    assert!(line_cuts_cleanly(&exactly));
}

#[test]
fn rows_settle_on_the_same_non_empty_rows_twice() {
    let rows = strings(&["a", "b"]);
    assert!(!specmatrix::steps::rows_settled(&None, &rows));
    assert!(specmatrix::steps::rows_settled(&Some(strings(&["a", "b"])), &rows));
    assert!(!specmatrix::steps::rows_settled(&Some(strings(&["a"])), &rows));
    assert!(!specmatrix::steps::rows_settled(&Some(Vec::new()), &[]));
}

#[test]
fn a_case_is_offered_in_its_format_and_what_it_converts_to() {
    let send = |format: &str| specmatrix::case::Send {
        format: format.to_string(),
        body: "cases/x.json".to_string(),
        compression: None,
    };
    assert_eq!(send("otlp-json").encodings(), strings(&["otlp-json", "otlp-protobuf"]));
    assert_eq!(
        send("remote-write-json").encodings(),
        strings(&["remote-write-json", "remote-write-protobuf"])
    );
    assert_eq!(send("es-bulk").encodings(), strings(&["es-bulk"]));
}

#[test]
fn a_case_tears_down_before_it_ingests() {
    assert_eq!(
        case_stages(true, true, true),
        vec![Stage::Teardown, Stage::Setup, Stage::Verify, Stage::Ingest]
    );
    assert_eq!(case_stages(true, false, false), vec![Stage::Teardown, Stage::Ingest]);
    assert_eq!(case_stages(false, false, false), vec![Stage::Ingest]);
}

#[test]
fn controls_run_first_and_the_first_that_fails_blocks_the_rest() {
    assert_eq!(suite_order(&[false, true, false, true]), vec![1, 3, 0, 2]);
    assert_eq!(suite_order(&[]), Vec::<usize>::new());
    let row = |verdict: Verdict, detail: &str| CheckResult {
        id: "c".to_string(),
        title: String::new(),
        verdict,
        detail: detail.to_string(),
    };
    let passed = after_control(None, &row(Verdict::Pass, "ok"), "c1");
    assert_eq!(passed, None);
    let blocked = after_control(None, &row(Verdict::Reject, "400 bad"), "c2");
    assert_eq!(blocked, Some("control rejected: 400 bad".to_string()));
    let still = after_control(blocked.clone(), &row(Verdict::Alter, "x"), "c3");
    assert_eq!(still, blocked);
}

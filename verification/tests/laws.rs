use specmatrix::compare::{equal, Kind};
use specmatrix::encode::choose_encoding;
use specmatrix::json::{insert_member, Json};
use specmatrix::matrix::{escape, escape_html};
use specmatrix::otlp::export_report;
use specmatrix::runner::{
    ingest_verdict, judge_readback, run_key_text, sort_results, CheckResult, Reading, Verdict,
};
use specmatrix::stub::find_run_key;
use specmatrix::template::{render, render_bytes, Vars};

fn j(text: &str) -> Json {
    Json::parse(text.as_bytes()).expect("valid JSON")
}

fn result(id: &str) -> CheckResult {
    CheckResult { id: id.to_string(), title: String::new(), verdict: Verdict::Pass, detail: id.to_string() }
}

#[test]
fn a_stored_value_equals_itself_under_every_kind() {
    let v = j(r#"{"a":[1,"two",null]}"#);
    for kind in [Kind::Raw, Kind::Timestamp, Kind::Text, Kind::Float, Kind::Integer] {
        assert!(equal(&Some(v.copy()), &Some(v.copy()), kind, None, None), "{kind:?}");
    }
}

#[test]
fn which_side_was_sent_does_not_change_equality() {
    let a = j(r#""1788883853123456789""#);
    let b = j("1788883853123");
    assert_eq!(
        equal(&Some(a.copy()), &Some(b.copy()), Kind::Timestamp, None, None),
        equal(&Some(b), &Some(a), Kind::Timestamp, None, None)
    );
}

#[test]
fn absence_is_compared_like_any_value() {
    assert!(equal(&None, &None, Kind::Raw, None, None));
    assert!(!equal(&None, &Some(j("1")), Kind::Raw, None, None));
    assert!(!equal(&Some(j("1")), &None, Kind::Raw, None, None));
}

#[test]
fn instants_are_equal_only_to_the_nanosecond() {
    let sent = Some(j(r#""1788883853123456789""#));
    assert!(equal(&sent, &Some(j("1788883853123456789")), Kind::Timestamp, None, None));
    assert!(!equal(&sent, &Some(j("1788883853123456")), Kind::Timestamp, None, None));
    assert!(equal(&Some(j("1788883853")), &Some(j("1788883853000")), Kind::Timestamp, None, None));
}

#[test]
fn an_inserted_member_reads_back() {
    let mut members: Vec<(String, Json)> = Vec::new();
    insert_member(&mut members, "b".to_string(), j("1"));
    insert_member(&mut members, "a".to_string(), j("2"));
    insert_member(&mut members, "b".to_string(), j("3"));
    let object = Json::Object(members);
    assert_eq!(object.get("b").unwrap().to_text(), "3");
    assert_eq!(object.get("a").unwrap().to_text(), "2");
    assert_eq!(object.to_text(), r#"{"a":2,"b":3}"#);
}

#[test]
fn a_verdict_follows_the_round_trip() {
    assert_eq!(ingest_verdict("accepted", false), Ok(Some(Verdict::Reject)));
    assert_eq!(ingest_verdict("accepted", true), Ok(None));
    let readings: Vec<Reading> = Vec::new();
    let (verdict, _) = judge_readback("c", "", "exact", false, 204, "", &readings, false).unwrap();
    assert_eq!(verdict, Verdict::Alter);
    let (verdict, _) = judge_readback("c", "", "present", false, 204, "", &readings, false).unwrap();
    assert_eq!(verdict, Verdict::Alter);
    let same = vec![Reading {
        field: "body".to_string(),
        kind: Kind::Raw,
        sent: Some(j(r#""x""#)),
        read: Some(j(r#""x""#)),
        sent_float: None,
        read_float: None,
    }];
    let (verdict, _) = judge_readback("c", "", "exact", true, 204, "", &same, false).unwrap();
    assert_eq!(verdict, Verdict::Pass);
    let differ = vec![Reading {
        field: "body".to_string(),
        kind: Kind::Raw,
        sent: Some(j(r#""x""#)),
        read: Some(j(r#""y""#)),
        sent_float: None,
        read_float: None,
    }];
    let (verdict, _) = judge_readback("c", "", "exact", true, 204, "", &differ, false).unwrap();
    assert_eq!(verdict, Verdict::Alter);
}

#[test]
fn results_come_out_in_order_and_none_is_lost() {
    let sorted = sort_results(vec![result("c"), result("a"), result("b"), result("a")]);
    let ids: Vec<&str> = sorted.iter().map(|r| r.id.as_str()).collect();
    assert_eq!(ids, vec!["a", "a", "b", "c"]);
}

#[test]
fn the_first_encoding_both_sides_share_is_chosen() {
    let accepted = vec!["b".to_string(), "c".to_string()];
    let offered = vec!["a".to_string(), "c".to_string(), "b".to_string()];
    assert_eq!(choose_encoding(&accepted, &offered), Some("c".to_string()));
    assert_eq!(choose_encoding(&[], &offered), Some("a".to_string()));
    assert_eq!(choose_encoding(&accepted, &["a".to_string()]), None);
}

#[test]
fn a_variable_reads_back_what_was_set() {
    let mut vars = Vars::new();
    vars.insert("run_key", "sm-1".to_string());
    vars.insert("stream", "s".to_string());
    vars.insert("run_key", "sm-2".to_string());
    assert_eq!(vars.get("run_key").map(String::as_str), Some("sm-2"));
    assert_eq!(vars.get("stream").map(String::as_str), Some("s"));
    assert_eq!(render("{{ run_key }}/{{stream}}", &vars), "sm-2/s");
}

#[test]
fn text_without_a_placeholder_renders_unchanged() {
    let mut vars = Vars::new();
    vars.insert("x", "{{y}}".to_string());
    assert_eq!(render("plain text, no braces", &vars), "plain text, no braces");
}

#[test]
fn an_escaped_cell_stays_on_its_row() {
    let cell = escape("line one\nline two | more");
    assert!(!cell.contains('\n'));
    assert_eq!(cell, "line one line two \\| more");
}

#[test]
fn escaped_html_opens_no_markup() {
    let text = escape_html(r#"<a href="x">&</a>"#);
    assert!(!text.contains('<') && !text.contains('>') && !text.contains('"'));
    assert_eq!(text, "&lt;a href=&quot;x&quot;&gt;&amp;&lt;/a&gt;");
}

#[test]
fn a_stamped_run_key_is_found_again() {
    let key = run_key_text(0xdead_beef);
    assert_eq!(key, "sm-deadbeef");
    let body = format!(r#"{{"attributes":[{{"key":"specmatrix.run","value":"{key}"}}]}}"#);
    assert_eq!(find_run_key(&body), Some(key));
}

#[test]
fn an_encoding_mismatch_is_flagged_exactly_when_there_is_one() {
    let body = br#"{"partialSuccess":{"rejectedLogRecords":"2","errorMessage":"too old"}}"#;
    let json = export_report("otlp-logs", "otlp-json", None, body).expect("a report");
    assert_eq!(json.encoding_mismatch, None);
    let protobuf = export_report("otlp-logs", "otlp-protobuf", None, body).expect("a report");
    assert!(protobuf.encoding_mismatch.is_some());
    assert_eq!(protobuf.rejected, 2);
}

#[test]
fn every_result_is_counted_under_one_verdict() {
    let verdicts = [Verdict::Pass, Verdict::Alter, Verdict::Pass, Verdict::NotApplicable, Verdict::Reject];
    let outcome = specmatrix::runner::Outcome {
        backend: "b".to_string(),
        backend_version: None,
        backend_image: None,
        suite: "s".to_string(),
        url: "u".to_string(),
        results: verdicts
            .iter()
            .enumerate()
            .map(|(i, v)| CheckResult {
                id: i.to_string(),
                title: String::new(),
                verdict: *v,
                detail: String::new(),
            })
            .collect(),
    };
    let counts: Vec<usize> = [Verdict::Pass, Verdict::Reject, Verdict::Alter, Verdict::NotApplicable]
        .iter()
        .map(|v| outcome.count(*v))
        .collect();
    assert_eq!(counts, vec![2, 1, 1, 1]);
    assert_eq!(counts.iter().sum::<usize>(), outcome.results.len());
}

#[test]
fn raw_equality_carries_over_to_the_other_kinds() {
    let a = j(r#""1788883853123456789""#);
    let b = j(r#""1788883853123456789""#);
    for kind in [Kind::Raw, Kind::Timestamp, Kind::Integer, Kind::Text, Kind::Float] {
        assert!(equal(&Some(a.copy()), &Some(b.copy()), kind, None, None), "{kind:?}");
    }
    // Raw JSON takes 0.0 and -0.0 for the same number; as instants and
    // integers they read as nothing and fall back to that.
    let zero = j("0.0");
    let negative = j("-0.0");
    assert!(equal(&Some(zero.copy()), &Some(negative.copy()), Kind::Raw, None, None));
    assert!(equal(&Some(zero.copy()), &Some(negative.copy()), Kind::Timestamp, None, None));
    assert!(equal(&Some(zero.copy()), &Some(negative.copy()), Kind::Integer, None, None));
    assert!(!equal(&Some(zero), &Some(negative), Kind::Text, None, None));
}

#[test]
fn a_variable_set_twice_by_hand_reads_as_its_first_entry() {
    let vars = Vars {
        entries: vec![
            ("k".to_string(), "first".to_string()),
            ("k".to_string(), "second".to_string()),
        ],
    };
    assert_eq!(vars.get("k").map(String::as_str), Some("first"));
}

#[test]
fn rendering_bytes_is_rendering_the_text() {
    let mut vars = Vars::new();
    vars.insert("k", "v".to_string());
    vars.insert("name", "naïve ✓".to_string());
    assert_eq!(render_bytes(b"x\xff{{k}}\xfe", &vars), b"x\xffv\xfe".to_vec());
    let text = "é {{ name }} — {{k}} ünïcode";
    assert_eq!(render_bytes(text.as_bytes(), &vars), render(text, &vars).into_bytes());
}

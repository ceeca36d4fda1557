use specmatrix::json::Json;
use specmatrix::query::{compare, compare_ordered, returned_markers};

fn j(text: &str) -> Json {
    Json::parse(text.as_bytes()).expect("valid JSON")
}

fn response() -> Json {
    j(r#"{"hits": {"hits": [
        {"_source": {"doc": "a", "specmatrix.run": "sm-1"}},
        {"_source": {"doc": "c", "specmatrix.run": "sm-1"}}
    ]}}"#)
}

#[test]
fn reads_the_marker_from_each_returned_row() {
    assert_eq!(
        returned_markers(&response(), "/hits/hits", "/_source/doc"),
        vec!["a".to_string(), "c".to_string()]
    );
}

#[test]
fn a_row_without_the_marker_is_skipped() {
    let response = j(r#"{"hits": {"hits": [{"_source": {"other": 1}}]}}"#);
    assert!(returned_markers(&response, "/hits/hits", "/_source/doc").is_empty());
}

#[test]
fn a_missing_records_pointer_yields_no_rows() {
    assert!(returned_markers(&j(r#"{"error": "no such index"}"#), "/hits/hits", "/_source/doc").is_empty());
}

#[test]
fn the_same_rows_in_a_different_order_match() {
    assert_eq!(compare(&["a".into(), "c".into()], &["c".into(), "a".into()]), None);
}

#[test]
fn an_extra_row_is_reported_with_its_marker() {
    let detail = compare(&["a".into()], &["a".into(), "b".into()]).expect("a difference");
    assert!(detail.contains("unexpected: b"), "{detail}");
}

#[test]
fn a_missing_row_is_reported_with_its_marker() {
    let detail = compare(&["a".into(), "c".into()], &["a".into()]).expect("a difference");
    assert!(detail.contains("missing: c"), "{detail}");
}

#[test]
fn both_directions_are_reported_together() {
    let detail = compare(&["a".into()], &["b".into()]).expect("a difference");
    assert!(detail.contains("missing: a") && detail.contains("unexpected: b"), "{detail}");
}

#[test]
fn expecting_nothing_and_getting_nothing_matches() {
    assert_eq!(compare(&[], &[]), None);
}

#[test]
fn expecting_nothing_and_getting_something_is_a_difference() {
    assert!(compare(&[], &["a".into()]).is_some());
}

#[test]
fn an_ordered_comparison_is_sensitive_to_order() {
    assert_eq!(compare_ordered(&["a".into(), "b".into()], &["a".into(), "b".into()]), None);
    let detail = compare_ordered(&["a".into(), "b".into()], &["b".into(), "a".into()]).expect("differs");
    assert!(detail.contains("expected order [a, b]"), "{detail}");
}

#[test]
fn a_difference_line_lists_each_side_sorted_and_once() {
    assert_eq!(
        compare(&["c".into(), "a".into(), "a".into()], &["b".into(), "d".into(), "b".into()]),
        Some("missing: a, c; unexpected: b, d".to_string())
    );
}

#[test]
fn a_comparison_is_the_same_either_way_round_up_to_the_direction() {
    let one = compare(&["a".into()], &["b".into()]).unwrap();
    let other = compare(&["b".into()], &["a".into()]).unwrap();
    assert_eq!(one, "missing: a; unexpected: b");
    assert_eq!(other, "missing: b; unexpected: a");
}

#[test]
fn a_marker_that_is_not_a_string_reads_as_its_json() {
    let response = j(r#"[{"m": 7}, {"m": "x"}, {"m": null}]"#);
    assert_eq!(returned_markers(&response, "", "/m"), vec!["7", "x", "null"]);
}

use specmatrix::es::{documents, logical_field, parse_bulk};
use specmatrix::json::Json;

fn j(text: &str) -> Json {
    Json::parse(text.as_bytes()).expect("valid JSON")
}

fn same(a: &Option<Json>, b: &Option<Json>) -> bool {
    match (a, b) {
        (Some(x), Some(y)) => x.same(y),
        (None, None) => true,
        _ => false,
    }
}

fn bulk() -> &'static str {
    "{\"index\":{\"_id\":\"a\"}}\n{\"message\":\"hello\",\"level\":\"INFO\",\"specmatrix.run\":\"sm-1\"}\n{\"index\":{\"_id\":\"b\"}}\n{\"message\":\"second\",\"specmatrix.run\":\"sm-1\"}\n"
}

#[test]
fn reads_a_field_from_the_first_source_line() {
    let sent = parse_bulk(bulk().as_bytes()).expect("parses");
    assert!(same(&logical_field(&sent, "message"), &Some(j("\"hello\""))));
    assert!(same(&logical_field(&sent, "level"), &Some(j("\"INFO\""))));
}

#[test]
fn an_absent_field_reads_as_none() {
    let sent = parse_bulk(bulk().as_bytes()).expect("parses");
    assert!(logical_field(&sent, "trace_id").is_none());
}

#[test]
fn action_lines_are_not_treated_as_documents() {
    let sent = parse_bulk(bulk().as_bytes()).expect("parses");
    assert!(logical_field(&sent, "index").is_none());
}

#[test]
fn every_document_is_available_by_position() {
    let sent = parse_bulk(bulk().as_bytes()).expect("parses");
    assert_eq!(documents(&sent).len(), 2);
    assert_eq!(documents(&sent)[1].get("message").unwrap().as_str(), Some("second"));
}

#[test]
fn a_trailing_newline_does_not_add_a_document() {
    let sent = parse_bulk(b"{\"index\":{}}\n{\"a\":1}\n").expect("parses");
    assert_eq!(documents(&sent).len(), 1);
}

#[test]
fn a_delete_action_consumes_no_source_line() {
    let body = "{\"delete\":{\"_id\":\"gone\"}}\n{\"index\":{\"_id\":\"kept\"}}\n{\"message\":\"still here\"}\n";
    let sent = parse_bulk(body.as_bytes()).expect("parses");
    assert_eq!(documents(&sent).len(), 1);
    assert!(same(&logical_field(&sent, "message"), &Some(j("\"still here\""))));
}

#[test]
fn a_malformed_line_is_an_error_rather_than_a_skipped_document() {
    assert!(parse_bulk(b"{\"index\":{}}\nnot json\n").is_err());
}

#[test]
fn the_malformed_line_is_named_in_the_error() {
    assert_eq!(
        parse_bulk(b"{\"index\":{}}\nnot json\n").unwrap_err(),
        "parsing _bulk line \"not json\""
    );
    assert_eq!(
        parse_bulk(&[0xff, 0x0a]).unwrap_err(),
        "a _bulk body must be valid UTF-8"
    );
}

#[test]
fn blank_lines_and_carriage_returns_are_not_documents() {
    let sent = parse_bulk(b"{\"index\":{}}\r\n\r\n   \n{\"a\":1}\r\n").expect("parses");
    assert_eq!(documents(&sent).len(), 1);
    assert!(same(&logical_field(&sent, "a"), &Some(j("1"))));
}

#[test]
fn documents_of_anything_but_an_array_is_empty() {
    assert!(documents(&j("{\"a\":1}")).is_empty());
}

use specmatrix::stub::{echo_run_key, find_run_key, pick_reply, Received, Reply, Stub};

#[test]
fn a_run_key_is_found_in_a_payload() {
    let body = r#"{"key":"specmatrix.run","value":{"stringValue":"sm-2ec76f6afab11dd3"}}"#;
    assert_eq!(find_run_key(body), Some("sm-2ec76f6afab11dd3".to_string()));
}

#[test]
fn a_payload_without_one_yields_nothing() {
    assert_eq!(find_run_key(r#"{"body":"no key here"}"#), None);
}

#[test]
fn only_the_first_sm_prefix_is_considered() {
    assert_eq!(find_run_key("sm-zz then sm-ab"), None);
    assert_eq!(find_run_key("xsm-ABc9-"), Some("sm-ABc9".to_string()));
}

#[test]
fn replies_are_served_in_order_and_the_last_repeats() {
    let routes = vec![
        ("/search", vec![Reply::json(200, "[]"), Reply::json(200, "[1]")]),
        ("/ingest", vec![Reply::json(204, "")]),
    ];
    let mut served = vec![0usize, 0];
    let bodies: Vec<String> = (0..3).map(|_| pick_reply(&routes, &mut served, "/api/search?q=1").body).collect();
    assert_eq!(bodies, ["[]", "[1]", "[1]"]);
    assert_eq!(pick_reply(&routes, &mut served, "/ingest").status, 204);
    assert_eq!(served, vec![3, 1]);
    let missing = pick_reply(&routes, &mut served, "/other");
    assert_eq!(missing.status, 404);
    assert_eq!(missing.body, "{\"error\":\"no stub route\"}");
    assert_eq!(served, vec![3, 1]);
}

#[test]
fn a_stub_lists_what_it_was_sent() {
    let stub = Stub {
        url: "http://127.0.0.1:1".to_string(),
        log: vec![
            Received { method: "DELETE".into(), path: "/teardown".into(), body: String::new() },
            Received { method: "POST".into(), path: "/ingest".into(), body: "{}".into() },
        ],
    };
    assert_eq!(stub.paths(), vec!["/teardown", "/ingest"]);
    let received = stub.received();
    assert_eq!(received.len(), 2);
    assert_eq!(received[1].body, "{}");
}

fn received(body: &str) -> Received {
    Received { method: "POST".to_string(), path: "/ingest".to_string(), body: body.to_string() }
}

#[test]
fn a_reply_echoes_the_latest_run_key() {
    let log = vec![received(r#"{"k":"sm-aaa"}"#), received("no key"), received(r#"{"k":"sm-bbb"}"#)];
    assert_eq!(echo_run_key(r#"{"hits":[{"run":"{{RUNKEY}}"}]}"#, &log), r#"{"hits":[{"run":"sm-bbb"}]}"#);
    let earlier = vec![received(r#"{"k":"sm-aaa"}"#), received("no key")];
    assert_eq!(echo_run_key("{{RUNKEY}}/{{RUNKEY}}", &earlier), "sm-aaa/sm-aaa");
}

#[test]
fn a_reply_without_the_marker_is_sent_as_written() {
    let log = vec![received(r#"{"k":"sm-aaa"}"#)];
    assert_eq!(echo_run_key(r#"{"hits":[]}"#, &log), r#"{"hits":[]}"#);
    assert_eq!(echo_run_key("key: {{RUNKEY}}", &Vec::new()), "key: ");
}

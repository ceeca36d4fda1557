use specmatrix::matrix::{History, Matrix};
use specmatrix::runner::{CheckResult, Outcome, Verdict};

fn outcome(backend: &str, version: Option<&str>, image: Option<&str>, rows: Vec<(&str, Verdict, &str)>) -> Outcome {
    Outcome {
        backend: backend.to_string(),
        backend_version: version.map(str::to_string),
        backend_image: image.map(str::to_string),
        suite: "otlp-logs".to_string(),
        url: format!("http://localhost/{backend}"),
        results: rows
            .into_iter()
            .map(|(id, verdict, detail)| CheckResult {
                id: id.to_string(),
                title: String::new(),
                verdict,
                detail: detail.to_string(),
            })
            .collect(),
    }
}

fn at(text: &str) -> String {
    chrono::DateTime::parse_from_rfc3339(text).unwrap().with_timezone(&chrono::Utc).to_rfc3339()
}

fn now() -> String {
    chrono::Utc::now().to_rfc3339()
}

fn two() -> Matrix {
    Matrix::new(
        "otlp-logs",
        vec![
            outcome(
                "parseable",
                Some("2.9.4"),
                Some("quay.io/parseablehq/parseable:v2.9.4"),
                vec![
                    ("otlp-logs/minimal-record", Verdict::Pass, "200, round trip intact"),
                    ("otlp-logs/body-invalid-utf8", Verdict::Reject, "400 invalid unicode"),
                ],
            ),
            outcome(
                "loki",
                Some("release-3.1.x-89fe788"),
                Some("grafana/loki:3.1.1"),
                vec![
                    ("otlp-logs/minimal-record", Verdict::Pass, "204, round trip intact"),
                    ("otlp-logs/body-invalid-utf8", Verdict::Alter, "bytes replaced with U+FFFD"),
                ],
            ),
        ],
        &at("2026-09-08T12:00:00Z"),
    )
}

#[test]
fn every_column_carries_its_version() {
    let page = two().to_markdown();
    assert!(page.contains("parseable 2.9.4"), "{page}");
    assert!(page.contains("release-3.1.x-89fe788"), "{page}");
}

#[test]
fn a_version_that_disagrees_with_the_image_shows_both() {
    let page = two().to_markdown();
    assert!(page.contains("image grafana/loki:3.1.1"), "{page}");
    assert!(!page.contains("image quay.io/parseablehq/parseable:v2.9.4"), "{page}");
}

#[test]
fn the_page_is_dated() {
    assert!(two().to_markdown().contains("2026-09-08"));
}

#[test]
fn one_row_per_check_across_all_backends() {
    let page = two().to_markdown();
    assert_eq!(page.matches("otlp-logs/minimal-record").count(), 1);
    assert_eq!(page.matches("otlp-logs/body-invalid-utf8").count(), 1);
}

#[test]
fn a_check_a_backend_never_ran_is_blank_not_a_pass() {
    let mut matrix = two();
    matrix.outcomes[1].results.remove(0);
    let page = matrix.to_markdown();
    let row = page.lines().find(|l| l.contains("otlp-logs/minimal-record")).expect("the row is present");
    assert!(row.contains("not run"), "{row}");
}

#[test]
fn the_page_carries_no_score_or_ranking() {
    let page = two().to_markdown().to_lowercase();
    for banned in ["score", "rank", "%", " out of ", "best", "worst", "winner"] {
        assert!(!page.contains(banned), "matrix must not contain {banned:?}");
    }
}

#[test]
fn not_applicable_is_explained_on_the_page() {
    let page = two().to_markdown();
    assert!(page.contains("N/A"), "{page}");
    assert!(page.contains("never counted with the others"), "{page}");
}

#[test]
fn a_pipe_in_a_detail_does_not_break_the_table() {
    let matrix = Matrix::new(
        "es-bulk",
        vec![outcome(
            "quickwit",
            Some("0.8.2"),
            Some("quickwit/quickwit:0.8.2"),
            vec![("es-bulk/x", Verdict::Alter, r#"query {a="b"}|c="d" disagreed"#)],
        )],
        &now(),
    );
    let page = matrix.to_markdown();
    let row = page.lines().find(|l| l.contains("es-bulk/x")).unwrap();
    assert_eq!(row.matches('|').count() - row.matches("\\|").count(), 3, "{row}");
}

#[test]
fn the_html_page_carries_no_score_or_ranking() {
    let page = two().to_html(None, None).to_lowercase();
    for banned in ["score", "rank", "%", " out of ", "best", "worst", "winner"] {
        assert!(!page.contains(banned), "page must not contain {banned:?}");
    }
}

#[test]
fn the_html_page_is_dated_and_versioned() {
    let page = two().to_html(Some("abc1234"), None);
    assert!(page.contains("2026-09-08"), "{page}");
    assert!(page.contains("2.9.4"), "{page}");
    assert!(page.contains("abc1234"), "{page}");
}

#[test]
fn each_verdict_gets_its_own_class() {
    let page = two().to_html(None, None);
    for class in ["class=\"pass\"", "class=\"reject\"", "class=\"alter\""] {
        assert!(page.contains(class), "missing {class}");
    }
    assert!(page.contains(".na{background"), "N/A needs a colour of its own");
    assert!(page.contains("never counted with the others"), "{page}");
}

#[test]
fn a_detail_containing_markup_is_escaped() {
    let matrix = Matrix::new(
        "es-bulk",
        vec![outcome(
            "stub",
            Some("1"),
            Some("stub:1"),
            vec![("es-bulk/x", Verdict::Alter, r#"<script>alert("x")</script> & "quoted""#)],
        )],
        &now(),
    );
    let page = matrix.to_html(None, None);
    assert!(!page.contains("<script>"), "markup must be escaped");
    assert!(page.contains("&lt;script&gt;"), "{page}");
    assert!(page.contains("&amp;"), "{page}");
}

#[test]
fn a_cell_that_changed_since_the_previous_run_says_so() {
    let previous = Matrix::new(
        "otlp-logs",
        vec![outcome("loki", Some("3.1.1"), None, vec![("otlp-logs/x", Verdict::Alter, "was altered")])],
        &at("2026-06-01T00:00:00Z"),
    );
    let current = Matrix::new(
        "otlp-logs",
        vec![outcome("loki", Some("3.7.7"), None, vec![("otlp-logs/x", Verdict::Pass, "fixed")])],
        &at("2026-09-08T00:00:00Z"),
    );
    let history = History { link: "../../2026-06-01/otlp-logs/matrix.html".to_string(), matrix: &previous };
    let page = current.to_html(None, Some(&history));
    assert!(page.contains("changed from ALTER"), "{page}");
    assert!(page.contains("2026-06-01/otlp-logs/matrix.html"), "{page}");
}

#[test]
fn a_new_check_carries_no_history_annotation() {
    let previous = Matrix::new("otlp-logs", vec![], &at("2026-06-01T00:00:00Z"));
    let page = two().to_html(None, Some(&History { link: "elsewhere.html".to_string(), matrix: &previous }));
    assert!(!page.contains("class=\"hist\""), "{page}");
}

#[test]
fn each_row_links_to_its_case_file() {
    let page = two().to_html(None, None);
    assert!(page.contains("cases/otlp-logs/minimal-record.yaml"), "{page}");
}

#[test]
fn the_check_ids_are_every_id_once_in_order() {
    assert_eq!(two().check_ids(), vec!["otlp-logs/body-invalid-utf8", "otlp-logs/minimal-record"]);
}

#[test]
fn a_matrix_is_dated_only_when_its_first_ten_bytes_are_whole_characters() {
    let dated = Matrix::new("s", Vec::new(), "2026-03-01T10:00:00+00:00");
    assert!(dated.is_dated());
    let short = Matrix::new("s", Vec::new(), "2026");
    assert!(!short.is_dated());
    let split = Matrix::new("s", Vec::new(), "2026-03-0é");
    assert!(!split.is_dated());
    let exact = Matrix::new("s", Vec::new(), "2026-03-é");
    assert!(exact.is_dated());
}

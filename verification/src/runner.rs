//! Deciding verdicts.
//!
//! The interesting part of a run is not sending. It is deciding, once a
//! backend has accepted a write, whether what comes back is the same thing. A
//! backend that refuses a payload tells you so; one that alters it does not.
//! Sending, polling and the clock live with the program that drives a run;
//! everything it decides is here.

use vstd::prelude::*;
use vstd::utf8::{decode_utf8, valid_utf8};
use crate::text::{
    before_newline, byte_prefix, byte_prefix_of, char_width, chars_of, debug_quoted, first_line_chars,
    has_byte_prefix, lemma_utf8_len_take_grows, quote_debug, str_eq, string_of, trim_chars, trimmed,
    utf8_len,
};

verus! {

#[derive(Debug, Clone, Copy, PartialEq, Eq, Structural)]
pub enum Verdict {
    /// Written and read back unchanged.
    Pass,
    /// Refused at ingest, with an error.
    Reject,
    /// Accepted, then absent or different when read back.
    Alter,
    /// The backend could not be asked. Not a verdict about the backend, and
    /// never counted towards a pass or a failure.
    NotApplicable,
}

#[derive(Debug)]
pub struct CheckResult {
    pub id: String,
    pub title: String,
    pub verdict: Verdict,
    /// One line saying what happened. Shown beside the verdict.
    pub detail: String,
}

#[derive(Debug)]
pub struct Outcome {
    pub backend: String,
    pub backend_version: Option<String>,
    /// The image the adapter pins. Recorded beside the reported version
    /// because the two can disagree, and a reader needs to know which build a
    /// column actually describes.
    pub backend_image: Option<String>,
    pub suite: String,
    pub url: String,
    pub results: Vec<CheckResult>,
}

pub open spec fn count_of(results: Seq<CheckResult>, verdict: Verdict) -> nat {
    results.filter(|r: CheckResult| r.verdict == verdict).len()
}

impl Outcome {
    /// How many results carry `verdict`.
    pub fn count(&self, verdict: Verdict) -> (n: usize)
        ensures
            n == count_of(self.results@, verdict),
    {
        let mut n: usize = 0;
        let mut i: usize = 0;
        while i < self.results.len()
            invariant
                i <= self.results@.len(),
                n == count_of(self.results@.take(i as int), verdict),
                n <= i,
            decreases self.results@.len() - i,
        {
            assert(self.results@.take(i + 1).drop_last() =~= self.results@.take(i as int));
            reveal_with_fuel(Seq::filter, 1);
            if self.results[i].verdict == verdict {
                n = n + 1;
            }
            i = i + 1;
        }
        assert(self.results@.take(self.results@.len() as int) =~= self.results@);
        n
    }
}

/// One HTTP response, kept as bytes so a body can be read in whatever encoding
/// the store actually used rather than the one it claimed.
pub struct Response {
    pub status: u16,
    pub content_type: Option<String>,
    pub body: Vec<u8>,
}

/// What `String::from_utf8_lossy` makes of some bytes.
pub uninterp spec fn lossy_text(bytes: Seq<u8>) -> Seq<char>;

/// `String::from_utf8_lossy`: valid UTF-8 is decoded as it stands, and each
/// invalid sequence becomes U+FFFD. The contract names the result and states
/// the valid case; how invalid sequences are cut into replacement characters
/// is left to the name.
#[verifier::external_body]
fn from_utf8_lossy(bytes: &[u8]) -> (s: String)
    ensures
        s@ == lossy_text(bytes@),
        valid_utf8(bytes@) ==> s@ == decode_utf8(bytes@),
{
    String::from_utf8_lossy(bytes).into_owned()
}

impl Response {
    /// The body as text, invalid bytes replaced.
    pub fn text(&self) -> (s: String)
        ensures
            s@ == lossy_text(self.body@),
            valid_utf8(self.body@) ==> s@ == decode_utf8(self.body@),
    {
        from_utf8_lossy(self.body.as_slice())
    }
}

/// The first line of a response, trimmed, cut at 120 bytes with an ellipsis.
pub open spec fn shortened_line(text: Seq<char>) -> Seq<char> {
    let line = trimmed(before_newline(text));
    if utf8_len(line) > 120 {
        byte_prefix_of(line, 120).push('…')
    } else {
        line
    }
}

/// Cutting the line does not split a character, which is when `first_line`
/// does not panic.
pub open spec fn line_cuttable(text: Seq<char>) -> bool {
    let line = trimmed(before_newline(text));
    utf8_len(line) <= 120 || has_byte_prefix(line, 120)
}

/// The first line of `text`, trimmed and shortened to 120 bytes.
pub fn first_line(text: &str) -> (r: String)
    requires
        line_cuttable(text@),
    ensures
        r@ == shortened_line(text@),
{
    let all = chars_of(text);
    let first = first_line_chars(all.as_slice());
    let line = trim_chars(first.as_slice());
    let mut bytes: usize = 0;
    let mut i: usize = 0;
    let mut long = false;
    while i < line.len()
        invariant
            i <= line@.len(),
            long == (utf8_len(line@.take(i as int)) > 120),
            !long ==> bytes == utf8_len(line@.take(i as int)),
            long ==> utf8_len(line@) > 120,
        decreases line@.len() - i,
    {
        assert(line@.take(i + 1).drop_last() =~= line@.take(i as int));
        proof {
            lemma_utf8_len_take_grows(line@, i + 1, line@.len() as int);
            assert(line@.take(line@.len() as int) =~= line@);
        }
        if !long {
            bytes = bytes + char_width(line[i]);
            if bytes > 120 {
                long = true;
            }
        }
        i = i + 1;
        proof {
            if long {
                lemma_utf8_len_take_grows(line@, i as int, line@.len() as int);
            }
        }
    }
    assert(line@.take(line@.len() as int) =~= line@);
    if long {
        let mut cut = byte_prefix(line.as_slice(), 120);
        cut.push('…');
        string_of(cut.as_slice())
    } else {
        string_of(line.as_slice())
    }
}

/// Whether `first_line` can shorten the text's first line: it is at most
/// 120 bytes, or its first 120 bytes end on a character boundary.
pub fn line_cuts_cleanly(text: &str) -> (b: bool)
    ensures
        b == line_cuttable(text@),
{
    let all = chars_of(text);
    let first = first_line_chars(all.as_slice());
    let line = trim_chars(first.as_slice());
    let ghost l = line@;
    let mut bytes: usize = 0;
    let mut i: usize = 0;
    assert(l.take(0) =~= Seq::<char>::empty());
    while i < line.len()
        invariant
            i <= l.len(),
            l == line@,
            l == trimmed(before_newline(text@)),
            bytes == utf8_len(l.take(i as int)),
            bytes < 120,
        decreases l.len() - i,
    {
        assert(l.take(i + 1).drop_last() =~= l.take(i as int));
        assert(l.take(i + 1).last() == l[i as int]);
        let next = bytes + char_width(line[i]);
        if next == 120 {
            assert(utf8_len(l.take(i + 1)) == 120);
            assert(has_byte_prefix(l, 120));
            return true;
        }
        if next > 120 {
            proof {
                assert forall|k: int| 0 <= k <= l.len() implies #[trigger] utf8_len(l.take(k)) != 120 by {
                    if k <= i {
                        lemma_utf8_len_take_grows(l, k, i as int);
                    } else {
                        lemma_utf8_len_take_grows(l, i + 1, k);
                    }
                }
                lemma_utf8_len_take_grows(l, i + 1, l.len() as int);
                assert(l.take(l.len() as int) =~= l);
            }
            return false;
        }
        bytes = next;
        i = i + 1;
    }
    assert(l.take(l.len() as int) =~= l);
    true
}

/// The error for a case that declares an expectation the runner does not
/// know.
pub open spec fn unknown_ingest_message(declared: Seq<char>) -> Seq<char> {
    "declares expect.ingest: "@ + debug_quoted(declared)
        + "; expected `accepted`, `rejected` or `accepted-or-rejected`"@
}

/// What the ingest answer decides by itself, or `None` to carry on to
/// read-back.
pub open spec fn ingest_decision(expected: Seq<char>, accepted: bool) -> Option<Option<Verdict>> {
    if expected == "accepted"@ {
        Some(if accepted { None } else { Some(Verdict::Reject) })
    } else if expected == "rejected"@ {
        Some(if accepted { Some(Verdict::Alter) } else { Some(Verdict::Pass) })
    } else if expected == "accepted-or-rejected"@ {
        Some(if accepted { None } else { Some(Verdict::Pass) })
    } else {
        None
    }
}

/// Decides a case at ingest, or returns `None` to carry on to read-back.
///
/// `accepted-or-rejected` exists for checks where either answer at the door is
/// conformant and the question is what happens afterwards. A store that refuses
/// a record it will not keep has told the caller, which is a PASS; the failure
/// such a check looks for is 200 followed by absence, and only read-back can
/// see that.
pub fn ingest_verdict(expected: &str, accepted: bool) -> (r: Result<Option<Verdict>, String>)
    ensures
        r matches Ok(v) ==> ingest_decision(expected@, accepted) == Some(v),
        r matches Err(message) ==> ingest_decision(expected@, accepted) is None && message@
            == unknown_ingest_message(expected@),
        r is Err <==> ingest_decision(expected@, accepted) is None,
{
    if str_eq(expected, "accepted") {
        Ok(if accepted { None } else { Some(Verdict::Reject) })
    } else if str_eq(expected, "rejected") {
        Ok(if accepted { Some(Verdict::Alter) } else { Some(Verdict::Pass) })
    } else if str_eq(expected, "accepted-or-rejected") {
        Ok(if accepted { None } else { Some(Verdict::Pass) })
    } else {
        let mut m = chars_of("declares expect.ingest: ");
        m.extend_from_slice(quote_debug(chars_of(expected).as_slice()).as_slice());
        m.extend_from_slice(
            chars_of("; expected `accepted`, `rejected` or `accepted-or-rejected`").as_slice(),
        );
        Err(string_of(m.as_slice()))
    }
}

} // verus!

verus! {

// ---------------------------------------------------------------------------
// What a store reported about a write it accepted
// ---------------------------------------------------------------------------

/// The text appended to a result line for an export report: empty when the
/// store reported nothing; otherwise `; ` and, joined by `; `, the rejected
/// count with the first line of its message and the encoding mismatch.
pub open spec fn report_suffix(report: Option<crate::otlp::ReportView>) -> Seq<char> {
    match report {
        None => Seq::empty(),
        Some(r) => {
            let rejected_part: Seq<Seq<char>> = if r.0 > 0 {
                seq![
                    "store reported "@ + crate::text::signed_decimal(r.0) + " rejected record(s)"@ + if r.1.len()
                        == 0 {
                        Seq::empty()
                    } else {
                        ": "@ + shortened_line(r.1)
                    },
                ]
            } else {
                Seq::empty()
            };
            let mismatch_part: Seq<Seq<char>> = match r.2 {
                Some(m) => seq![m + ", so no conformant client can read that report"@],
                None => Seq::empty(),
            };
            let parts = rejected_part + mismatch_part;
            if parts.len() == 0 {
                Seq::empty()
            } else {
                "; "@ + crate::text::joined(parts, "; "@)
            }
        },
    }
}

/// The first line of a rejection message can be shortened without splitting
/// a character, which is when `describe_report` does not panic.
pub open spec fn report_describable(report: Option<crate::otlp::ReportView>) -> bool {
    match report {
        Some(r) => r.0 > 0 && r.1.len() > 0 ==> line_cuttable(r.1),
        None => true,
    }
}

pub open spec fn opt_report_ref(r: Option<&crate::otlp::ExportReport>) -> Option<crate::otlp::ReportView> {
    match r {
        Some(x) => Some(x.report_view()),
        None => None,
    }
}

/// Renders what a store reported about a write it accepted, for appending to
/// a result line. A store that answers 200 and names what it dropped has
/// behaved better than one that answers 200 and says nothing; the verdict
/// stays the same, and the detail says which of the two happened.
pub fn describe_report(report: Option<&crate::otlp::ExportReport>) -> (r: String)
    requires
        report_describable(opt_report_ref(report)),
    ensures
        r@ == report_suffix(opt_report_ref(report)),
{
    let report = match report {
        Some(x) => x,
        None => {
            return String::new();
        },
    };
    let ghost rv = report.report_view();
    let ghost rejected_part: Seq<Seq<char>> = if rv.0 > 0 {
        seq![
            "store reported "@ + crate::text::signed_decimal(rv.0) + " rejected record(s)"@ + if rv.1.len()
                == 0 {
                Seq::empty()
            } else {
                ": "@ + shortened_line(rv.1)
            },
        ]
    } else {
        Seq::empty()
    };
    let ghost mismatch_part: Seq<Seq<char>> = match rv.2 {
        Some(m) => seq![m + ", so no conformant client can read that report"@],
        None => Seq::empty(),
    };
    let mut parts: Vec<Vec<char>> = Vec::new();
    if report.rejected > 0 {
        let mut p: Vec<char> = Vec::new();
        crate::text::push_str(&mut p, "store reported ");
        let n = crate::text::i64_text(report.rejected);
        p.extend_from_slice(n.as_slice());
        crate::text::push_str(&mut p, " rejected record(s)");
        let ghost head = p@;
        let msg = chars_of(report.message.as_str());
        if msg.len() > 0 {
            crate::text::push_str(&mut p, ": ");
            let line = first_line(report.message.as_str());
            crate::text::push_str(&mut p, line.as_str());
            assert(p@ =~= head + (": "@ + shortened_line(rv.1)));
        } else {
            assert(p@ =~= head + Seq::<char>::empty());
        }
        assert(head =~= "store reported "@ + crate::text::signed_decimal(rv.0) + " rejected record(s)"@);
        assert(p@ == rejected_part[0]);
        let ghost pv = p@;
        parts.push(p);
        assert(crate::text::views_of(parts@) =~= seq![pv]);
    }
    assert(crate::text::views_of(parts@) =~= rejected_part);
    match &report.encoding_mismatch {
        Some(m) => {
            let mut p: Vec<char> = Vec::new();
            crate::text::push_str(&mut p, m.as_str());
            crate::text::push_str(&mut p, ", so no conformant client can read that report");
            let ghost before = crate::text::views_of(parts@);
            parts.push(p);
            assert(crate::text::views_of(parts@) =~= before.push(p@));
        },
        None => {},
    }
    assert(crate::text::views_of(parts@) =~= rejected_part + mismatch_part);
    if parts.len() == 0 {
        return String::new();
    }
    let sep = chars_of("; ");
    let joined = crate::text::join_chars(&parts, sep.as_slice());
    let mut out = chars_of("; ");
    out.extend_from_slice(joined.as_slice());
    string_of(out.as_slice())
}

// ---------------------------------------------------------------------------
// Reading what a case sent
// ---------------------------------------------------------------------------

/// Which reader applies is a property of the protocol: a check names its
/// fields in the protocol's own vocabulary.
pub open spec fn sent_field(
    protocol: Seq<char>,
    sent: crate::json::JsonView,
    field: Seq<char>,
    series: Option<Seq<char>>,
) -> Option<crate::json::JsonView> {
    if protocol == "es-bulk"@ {
        crate::es::bulk_field(sent, field)
    } else if protocol == "remote-write"@ {
        crate::remote_write::series_field(sent, field, series)
    } else {
        crate::otlp::log_field(sent, field)
    }
}

/// Reads a logical field of the payload a case sent, with the reader its
/// protocol calls for.
pub fn logical_field_for(
    protocol: &str,
    sent: &crate::json::Json,
    field: &str,
    series: Option<&str>,
) -> (r: Option<crate::json::Json>)
    ensures
        crate::json::opt_owned_view(r) == sent_field(protocol@, sent@, field@, crate::otlp::opt_str_view(series)),
{
    if str_eq(protocol, "es-bulk") {
        crate::es::logical_field(sent, field)
    } else if str_eq(protocol, "remote-write") {
        crate::remote_write::logical_field(sent, field, series)
    } else {
        crate::otlp::logical_field(sent, field)
    }
}

/// This run's record in a read-back response: the records are the array the
/// pointer names (the response itself for an empty pointer), or the one
/// object there; the first whose JSON text holds the run key. Matching on
/// the run key rules out an error object and a record left by an earlier
/// run.
pub open spec fn record_in(
    value: crate::json::JsonView,
    records_pointer: Seq<char>,
    run_key: Seq<char>,
) -> Option<crate::json::JsonView> {
    let node = if records_pointer.len() == 0 {
        Some(value)
    } else {
        crate::json::pointer_get(value, records_pointer)
    };
    match node {
        Some(crate::json::JsonView::Array(items)) => first_holding(items, run_key),
        Some(crate::json::JsonView::Object(m)) => first_holding(
            seq![crate::json::JsonView::Object(m)],
            run_key,
        ),
        _ => None,
    }
}

/// The first item whose JSON text contains `key`.
pub open spec fn first_holding(items: Seq<crate::json::JsonView>, key: Seq<char>) -> Option<
    crate::json::JsonView,
>
    decreases items.len(),
{
    if items.len() == 0 {
        None
    } else if crate::text::contains_seq(crate::json::json_text(items[0]), key) {
        Some(items[0])
    } else {
        first_holding(items.drop_first(), key)
    }
}

fn holds_key(item: &crate::json::Json, key: &[char]) -> (b: bool)
    ensures
        b == crate::text::contains_seq(crate::json::json_text(item@), key@),
{
    let t = item.to_text();
    let cs = chars_of(t.as_str());
    crate::text::contains_chars(cs.as_slice(), key)
}

/// Pulls this run's record out of a read-back response.
pub fn first_record(value: &crate::json::Json, records_pointer: &str, run_key: &str) -> (r: Option<
    crate::json::Json,
>)
    ensures
        crate::json::opt_owned_view(r) == record_in(value@, records_pointer@, run_key@),
{
    let rp = chars_of(records_pointer);
    let node = if rp.len() == 0 {
        value
    } else {
        match value.pointer(records_pointer) {
            Some(n) => n,
            None => {
                return None;
            },
        }
    };
    let key = chars_of(run_key);
    match node {
        crate::json::Json::Array(items) => {
            let ghost iv = node@->Array_0;
            assert(record_in(value@, records_pointer@, run_key@) == first_holding(iv, run_key@));
            let mut i: usize = 0;
            assert(iv.skip(0) =~= iv);
            while i < items.len()
                invariant
                    *node == crate::json::Json::Array(*items),
                    iv == node@->Array_0,
                    iv.len() == items@.len(),
                    forall|k: int| 0 <= k < iv.len() ==> #[trigger] iv[k] == items@[k]@,
                    i <= items@.len(),
                    key@ == run_key@,
                    record_in(value@, records_pointer@, run_key@) == first_holding(iv, run_key@),
                    first_holding(iv, run_key@) == first_holding(iv.skip(i as int), run_key@),
                decreases items@.len() - i,
            {
                assert(iv.skip(i as int)[0] == items@[i as int]@);
                assert(iv.skip(i as int).drop_first() =~= iv.skip(i + 1));
                if holds_key(&items[i], key.as_slice()) {
                    assert(first_holding(iv.skip(i as int), run_key@) == Some(items@[i as int]@));
                    let found = items[i].copy();
                    assert(crate::json::opt_owned_view(Some(found)) == record_in(value@, records_pointer@, run_key@));
                    return Some(found);
                }
                i = i + 1;
            }
            assert(iv.skip(i as int) =~= Seq::<crate::json::JsonView>::empty());
            assert(record_in(value@, records_pointer@, run_key@) is None);
            None
        },
        crate::json::Json::Object(_) => {
            let ghost one = seq![node@];
            assert(one.drop_first() =~= Seq::<crate::json::JsonView>::empty());
            assert(record_in(value@, records_pointer@, run_key@) == first_holding(one, run_key@));
            if holds_key(node, key.as_slice()) {
                let c = node.copy();
                assert(crate::json::opt_owned_view(Some(c)) == record_in(value@, records_pointer@, run_key@));
                Some(c)
            } else {
                assert(one[0] == node@);
                assert(first_holding(one.drop_first(), run_key@) is None);
                assert(first_holding(one, run_key@) == first_holding(one.drop_first(), run_key@));
                None
            }
        },
        _ => {
            assert(record_in(value@, records_pointer@, run_key@) is None);
            None
        },
    }
}

/// What `parse_sent` makes of a payload: the JSON it holds, else the
/// documents of an NDJSON `_bulk` body, else the JSON of its lossy text (or
/// `null`), flagged as lossy.
pub open spec fn sent_reading(bytes: Seq<u8>) -> (crate::json::JsonView, bool) {
    match crate::json::parsed_json(bytes) {
        Some(v) => (v, false),
        None => match crate::es::bulk_reading(bytes) {
            Ok(v) => (v, false),
            Err(_) => (
                match crate::json::parsed_json(vstd::utf8::encode_utf8(lossy_text(bytes))) {
                    Some(v) => v,
                    None => crate::json::JsonView::Null,
                },
                true,
            ),
        },
    }
}

/// Parses the payload a case sent so its fields can be compared with what
/// came back, saying whether a lossy decode was needed: a payload carrying
/// invalid UTF-8 is deliberate in the corpus, and a strict parse would make
/// every field read as absent.
pub fn parse_sent(bytes: &[u8]) -> (r: (crate::json::Json, bool))
    ensures
        (r.0@, r.1) == sent_reading(bytes@),
{
    if let Some(v) = crate::json::Json::parse(bytes) {
        return (v, false);
    }
    if let Ok(v) = crate::es::parse_bulk(bytes) {
        return (v, false);
    }
    let lossy = from_utf8_lossy(bytes);
    match crate::json::Json::parse(lossy.as_str().as_bytes()) {
        Some(v) => (v, true),
        None => (crate::json::Json::Null, true),
    }
}

} // verus!

verus! {

// ---------------------------------------------------------------------------
// Controls
// ---------------------------------------------------------------------------

/// What a control's result says about the rest of its suite: nothing when
/// it passed; otherwise the reason every other case is not applicable. A
/// control that could not run already carries the full reason on its own
/// row, so the others only name it.
pub open spec fn control_block(verdict: Verdict, detail: Seq<char>, case_id: Seq<char>) -> Option<Seq<char>> {
    match verdict {
        Verdict::Pass => None,
        Verdict::Reject => Some("control rejected: "@ + detail),
        Verdict::Alter => Some("control altered: adapter mapping is wrong, fix it before trusting any row"@),
        Verdict::NotApplicable => if crate::json::strip_prefix(detail, "harness error"@) is Some {
            Some("not attempted: control "@ + case_id + " did not run"@)
        } else {
            Some(detail)
        },
    }
}

/// Why the rest of a suite is not attempted after a control's result, if it
/// is not.
pub fn block_reason(result: &CheckResult, case_id: &str) -> (r: Option<String>)
    ensures
        crate::otlp::opt_string_view(r) == control_block(result.verdict, result.detail@, case_id@),
{
    match result.verdict {
        Verdict::Pass => None,
        Verdict::Reject => {
            let mut out = chars_of("control rejected: ");
            crate::text::push_str(&mut out, result.detail.as_str());
            Some(string_of(out.as_slice()))
        },
        Verdict::Alter => Some(string_of(
            chars_of("control altered: adapter mapping is wrong, fix it before trusting any row").as_slice(),
        )),
        Verdict::NotApplicable => {
            if crate::json::strip_prefix_exec(result.detail.as_str(), "harness error").is_some() {
                let mut out = chars_of("not attempted: control ");
                crate::text::push_str(&mut out, case_id);
                crate::text::push_str(&mut out, " did not run");
                Some(string_of(out.as_slice()))
            } else {
                Some(result.detail.clone())
            }
        },
    }
}

// ---------------------------------------------------------------------------
// Ordering the results
// ---------------------------------------------------------------------------

pub open spec fn id_le(a: Seq<char>, b: Seq<char>) -> bool {
    !crate::order::text_less(b, a)
}

/// `r` inserted after every result whose id does not sort after its own.
pub open spec fn insert_by_id(sorted: Seq<CheckResult>, r: CheckResult) -> Seq<CheckResult>
    decreases sorted.len(),
{
    if sorted.len() == 0 {
        seq![r]
    } else if crate::order::text_less(r.id@, sorted.last().id@) {
        insert_by_id(sorted.drop_last(), r).push(sorted.last())
    } else {
        sorted.push(r)
    }
}

/// The results in ascending order of id, results with equal ids in the order
/// they came: a stable sort.
pub open spec fn sorted_by_id(results: Seq<CheckResult>) -> Seq<CheckResult>
    decreases results.len(),
{
    if results.len() == 0 {
        Seq::empty()
    } else {
        insert_by_id(sorted_by_id(results.drop_last()), results.last())
    }
}

pub open spec fn ids_ascending(results: Seq<CheckResult>) -> bool {
    forall|i: int, j: int| 0 <= i < j < results.len() ==> id_le(#[trigger] results[i].id@, #[trigger] results[j].id@)
}

fn insert_result(sorted: &mut Vec<CheckResult>, r: CheckResult)
    ensures
        final(sorted)@ == insert_by_id(old(sorted)@, r),
{
    let ghost s0 = sorted@;
    let rid = chars_of(r.id.as_str());
    let mut i: usize = sorted.len();
    assert(s0.take(s0.len() as int) =~= s0);
    assert(insert_by_id(s0, r) == insert_by_id(s0.take(i as int), r) + s0.skip(i as int)) by {
        assert(s0.skip(s0.len() as int) =~= Seq::<CheckResult>::empty());
        assert(insert_by_id(s0, r) + Seq::<CheckResult>::empty() =~= insert_by_id(s0, r));
    }
    loop
        invariant
            i <= sorted@.len(),
            sorted@ == s0,
            rid@ == r.id@,
            insert_by_id(s0, r) == insert_by_id(s0.take(i as int), r) + s0.skip(i as int),
        ensures
            i <= sorted@.len(),
            sorted@ == s0,
            insert_by_id(s0, r) == insert_by_id(s0.take(i as int), r) + s0.skip(i as int),
            i == 0 || !crate::order::text_less(r.id@, s0[i - 1].id@),
        decreases i,
    {
        if i == 0 {
            break;
        }
        let other = chars_of(sorted[i - 1].id.as_str());
        if !crate::order::less(rid.as_slice(), other.as_slice()) {
            break;
        }
        proof {
            let t = s0.take(i as int);
            assert(t.last() == s0[i - 1]);
            assert(t.drop_last() =~= s0.take(i - 1));
            assert(insert_by_id(t, r) == insert_by_id(s0.take(i - 1), r).push(s0[i - 1]));
            assert(s0.skip(i - 1) =~= seq![s0[i - 1]] + s0.skip(i as int));
            assert(insert_by_id(s0.take(i - 1), r).push(s0[i - 1]) + s0.skip(i as int) =~= insert_by_id(
                s0.take(i - 1),
                r,
            ) + s0.skip(i - 1));
        }
        i = i - 1;
    }
    proof {
        let t = s0.take(i as int);
        if i > 0 {
            assert(t.last() == s0[i - 1]);
        }
        assert(insert_by_id(t, r) == t.push(r));
        assert(s0.insert(i as int, r) =~= t.push(r) + s0.skip(i as int));
    }
    sorted.insert(i, r);
}

/// The results in ascending order of id, equal ids keeping their order.
pub fn sort_results(results: Vec<CheckResult>) -> (r: Vec<CheckResult>)
    ensures
        r@ == sorted_by_id(results@),
{
    let mut out: Vec<CheckResult> = Vec::new();
    let mut rest = results;
    let ghost all = rest@;
    let mut i: usize = 0;
    let n = rest.len();
    assert(all.skip(0) =~= all);
    while i < n
        invariant
            n == all.len(),
            i <= n,
            rest@ == all.skip(i as int),
            out@ == sorted_by_id(all.take(i as int)),
        decreases n - i,
    {
        let r = rest.remove(0);
        assert(r == all[i as int]);
        assert(rest@ =~= all.skip(i + 1));
        assert(all.take(i + 1).drop_last() =~= all.take(i as int));
        insert_result(&mut out, r);
        i = i + 1;
    }
    assert(all.take(n as int) =~= all);
    out
}

} // verus!

verus! {

// ---------------------------------------------------------------------------
// Judging a read-back
// ---------------------------------------------------------------------------

/// One field a check names: what was sent, what came back, and how the two
/// are compared. `sent_float` and `read_float` are the bit patterns the
/// two sides read as a float, where they do.
pub struct Reading {
    pub field: String,
    pub kind: crate::compare::Kind,
    pub sent: Option<crate::json::Json>,
    pub read: Option<crate::json::Json>,
    pub sent_float: Option<u64>,
    pub read_float: Option<u64>,
}

pub open spec fn reading_equal(r: Reading) -> bool {
    crate::compare::readings_equal(
        crate::compare::opt_json(r.sent),
        crate::compare::opt_json(r.read),
        r.kind,
        r.sent_float,
        r.read_float,
    )
}

/// `field: sent …, read back …`.
pub open spec fn reading_line(r: Reading) -> Seq<char> {
    r.field@ + ": sent "@ + crate::compare::described(crate::compare::opt_json(r.sent), r.kind)
        + ", read back "@ + crate::compare::described(crate::compare::opt_json(r.read), r.kind)
}

/// The lines a read-back reports: every field that differs, or under
/// anything but `exact` every field.
pub open spec fn observed_lines(readings: Seq<Reading>, exact: bool) -> Seq<Seq<char>>
    decreases readings.len(),
{
    if readings.len() == 0 {
        Seq::empty()
    } else {
        let r = readings.last();
        let rest = observed_lines(readings.drop_last(), exact);
        if !exact || !reading_equal(r) {
            rest.push(reading_line(r))
        } else {
            rest
        }
    }
}

/// For a payload that had to be read lossily: a field that compares equal
/// only says the backend replaced the same bytes the reader did.
pub open spec fn replaced_lines(readings: Seq<Reading>) -> Seq<Seq<char>>
    decreases readings.len(),
{
    if readings.len() == 0 {
        Seq::empty()
    } else {
        let r = readings.last();
        replaced_lines(readings.drop_last()).push(
            if reading_equal(r) {
                r.field@ + ": invalid bytes replaced with U+FFFD"@
            } else {
                reading_line(r)
            },
        )
    }
}

/// What one read-back assertion says: the verdict and its line, or the
/// message for a case that declares a match mode there is none of.
pub open spec fn readback_judgement(
    case_id: Seq<char>,
    label: Seq<char>,
    match_: Seq<char>,
    found: bool,
    status: u16,
    reported: Seq<char>,
    readings: Seq<Reading>,
    sent_was_lossy: bool,
) -> Result<(Verdict, Seq<char>), Seq<char>> {
    let code = crate::text::signed_decimal(status as int);
    if match_ == "absent"@ {
        if !found {
            Ok((Verdict::Pass, label + "absent, as the check requires"@))
        } else {
            Ok((Verdict::Alter, label + "still queryable when the check requires it to be gone"@))
        }
    } else if !found {
        Ok((Verdict::Alter, label + "accepted ("@ + code + ") but never became queryable"@ + reported))
    } else if sent_was_lossy && match_ == "exact"@ {
        Ok((Verdict::Alter, label + crate::text::joined(replaced_lines(readings), "; "@)))
    } else if match_ == "exact"@ {
        let observed = observed_lines(readings, true);
        if observed.len() == 0 {
            Ok((Verdict::Pass, label + code + ", round trip intact"@ + reported))
        } else {
            Ok((Verdict::Alter, label + crate::text::joined(observed, "; "@)))
        }
    } else if match_ == "present"@ {
        Ok((Verdict::Pass, label + "recorded — "@ + crate::text::joined(observed_lines(readings, false), "; "@)))
    } else {
        Err("case "@ + case_id + " declares readback.match: "@ + crate::text::debug_quoted(match_)
            + "; expected `exact`, `present` or `absent`"@)
    }
}

fn reading_line_exec(r: &Reading) -> (out: Vec<char>)
    ensures
        out@ == reading_line(*r),
{
    let mut out = chars_of(r.field.as_str());
    crate::text::push_str(&mut out, ": sent ");
    let a = crate::compare::describe(&r.sent, r.kind);
    crate::text::push_str(&mut out, a.as_str());
    crate::text::push_str(&mut out, ", read back ");
    let b = crate::compare::describe(&r.read, r.kind);
    crate::text::push_str(&mut out, b.as_str());
    out
}

fn reading_equal_exec(r: &Reading) -> (b: bool)
    ensures
        b == reading_equal(*r),
{
    crate::compare::equal(&r.sent, &r.read, r.kind, r.sent_float, r.read_float)
}

fn observed_exec(readings: &Vec<Reading>, exact: bool) -> (r: Vec<Vec<char>>)
    ensures
        crate::text::views_of(r@) == observed_lines(readings@, exact),
{
    let mut out: Vec<Vec<char>> = Vec::new();
    let mut i: usize = 0;
    while i < readings.len()
        invariant
            i <= readings@.len(),
            crate::text::views_of(out@) == observed_lines(readings@.take(i as int), exact),
        decreases readings@.len() - i,
    {
        assert(readings@.take(i + 1).drop_last() =~= readings@.take(i as int));
        assert(readings@.take(i + 1).last() == readings@[i as int]);
        let ghost before = crate::text::views_of(out@);
        if !exact || !reading_equal_exec(&readings[i]) {
            let line = reading_line_exec(&readings[i]);
            out.push(line);
            assert(crate::text::views_of(out@) =~= before.push(reading_line(readings@[i as int])));
        }
        i = i + 1;
    }
    assert(readings@.take(readings@.len() as int) =~= readings@);
    out
}

fn replaced_exec(readings: &Vec<Reading>) -> (r: Vec<Vec<char>>)
    ensures
        crate::text::views_of(r@) == replaced_lines(readings@),
{
    let mut out: Vec<Vec<char>> = Vec::new();
    let mut i: usize = 0;
    while i < readings.len()
        invariant
            i <= readings@.len(),
            crate::text::views_of(out@) == replaced_lines(readings@.take(i as int)),
        decreases readings@.len() - i,
    {
        assert(readings@.take(i + 1).drop_last() =~= readings@.take(i as int));
        assert(readings@.take(i + 1).last() == readings@[i as int]);
        let ghost before = crate::text::views_of(out@);
        let line = if reading_equal_exec(&readings[i]) {
            let mut l = chars_of(readings[i].field.as_str());
            crate::text::push_str(&mut l, ": invalid bytes replaced with U+FFFD");
            l
        } else {
            reading_line_exec(&readings[i])
        };
        let ghost lv = line@;
        out.push(line);
        assert(crate::text::views_of(out@) =~= before.push(lv));
        i = i + 1;
    }
    assert(readings@.take(readings@.len() as int) =~= readings@);
    out
}

/// Decides one read-back assertion once the read is done: `found` says
/// whether this run's record came back, `readings` are the fields the check
/// names, and `label` names the series the assertion is about, if any.
///
/// `absent` passes only when the record never appeared; otherwise a record
/// that never appeared is an alteration. Under `exact` any field that
/// differs is, and a payload read lossily is reported as the substitution
/// rather than a match. `present` reports what was stored without judging
/// it.
pub fn judge_readback(
    case_id: &str,
    label: &str,
    match_: &str,
    found: bool,
    status: u16,
    reported: &str,
    readings: &Vec<Reading>,
    sent_was_lossy: bool,
) -> (r: Result<(Verdict, String), String>)
    ensures
        match r {
            Ok((v, line)) => readback_judgement(
                case_id@,
                label@,
                match_@,
                found,
                status,
                reported@,
                readings@,
                sent_was_lossy,
            ) == Ok::<(Verdict, Seq<char>), Seq<char>>((v, line@)),
            Err(e) => readback_judgement(
                case_id@,
                label@,
                match_@,
                found,
                status,
                reported@,
                readings@,
                sent_was_lossy,
            ) == Err::<(Verdict, Seq<char>), Seq<char>>(e@),
        },
{
    let code = crate::text::u64_text(status as u64);
    let sep = chars_of("; ");
    let mut out = chars_of(label);
    let ghost l = label@;
    if str_eq(match_, "absent") {
        if !found {
            crate::text::push_str(&mut out, "absent, as the check requires");
            assert(out@ =~= l + "absent, as the check requires"@);
            return Ok((Verdict::Pass, string_of(out.as_slice())));
        } else {
            crate::text::push_str(&mut out, "still queryable when the check requires it to be gone");
            assert(out@ =~= l + "still queryable when the check requires it to be gone"@);
            return Ok((Verdict::Alter, string_of(out.as_slice())));
        }
    }
    if !found {
        crate::text::push_str(&mut out, "accepted (");
        out.extend_from_slice(code.as_slice());
        crate::text::push_str(&mut out, ") but never became queryable");
        crate::text::push_str(&mut out, reported);
        assert(out@ =~= l + "accepted ("@ + code@ + ") but never became queryable"@ + reported@);
        return Ok((Verdict::Alter, string_of(out.as_slice())));
    }
    let exact = str_eq(match_, "exact");
    if sent_was_lossy && exact {
        let lines = replaced_exec(readings);
        let joined = crate::text::join_chars(&lines, sep.as_slice());
        out.extend_from_slice(joined.as_slice());
        assert(out@ =~= l + crate::text::joined(replaced_lines(readings@), "; "@));
        return Ok((Verdict::Alter, string_of(out.as_slice())));
    }
    if exact {
        let lines = observed_exec(readings, true);
        if lines.len() == 0 {
            out.extend_from_slice(code.as_slice());
            crate::text::push_str(&mut out, ", round trip intact");
            crate::text::push_str(&mut out, reported);
            assert(observed_lines(readings@, true).len() == 0);
            assert(out@ =~= l + code@ + ", round trip intact"@ + reported@);
            return Ok((Verdict::Pass, string_of(out.as_slice())));
        }
        let joined = crate::text::join_chars(&lines, sep.as_slice());
        out.extend_from_slice(joined.as_slice());
        assert(observed_lines(readings@, true).len() != 0);
        assert(out@ =~= l + crate::text::joined(observed_lines(readings@, true), "; "@));
        return Ok((Verdict::Alter, string_of(out.as_slice())));
    }
    if str_eq(match_, "present") {
        let lines = observed_exec(readings, false);
        let joined = crate::text::join_chars(&lines, sep.as_slice());
        crate::text::push_str(&mut out, "recorded — ");
        out.extend_from_slice(joined.as_slice());
        assert(out@ =~= l + "recorded — "@ + crate::text::joined(observed_lines(readings@, false), "; "@));
        return Ok((Verdict::Pass, string_of(out.as_slice())));
    }
    let mut e = chars_of("case ");
    crate::text::push_str(&mut e, case_id);
    crate::text::push_str(&mut e, " declares readback.match: ");
    let q = quote_debug(chars_of(match_).as_slice());
    e.extend_from_slice(q.as_slice());
    crate::text::push_str(&mut e, "; expected `exact`, `present` or `absent`");
    assert(e@ =~= "case "@ + case_id@ + " declares readback.match: "@ + crate::text::debug_quoted(match_@)
        + "; expected `exact`, `present` or `absent`"@);
    Err(string_of(e.as_slice()))
}

} // verus!

verus! {

// ---------------------------------------------------------------------------
// Reading a field of what came back
// ---------------------------------------------------------------------------

/// The pointer an adapter maps a field to, the first mapping of that name.
pub open spec fn mapped_pointer(fields: Seq<(String, String)>, field: Seq<char>) -> Option<Seq<char>>
    decreases fields.len(),
{
    if fields.len() == 0 {
        None
    } else if fields[0].0@ == field {
        Some(fields[0].1@)
    } else {
        mapped_pointer(fields.drop_first(), field)
    }
}

/// A logical field of a backend record: where the adapter maps it, or the
/// record's member of that name. Renaming is allowed; there is nowhere here
/// to rewrite a value.
pub open spec fn record_field(
    fields: Seq<(String, String)>,
    record: crate::json::JsonView,
    field: Seq<char>,
) -> Option<crate::json::JsonView> {
    match mapped_pointer(fields, field) {
        Some(p) => crate::json::pointer_get(record, p),
        None => record.get(field),
    }
}

fn mapped_pointer_exec<'a>(fields: &'a Vec<(String, String)>, field: &str) -> (r: Option<&'a String>)
    ensures
        match r {
            Some(p) => mapped_pointer(fields@, field@) == Some(p@),
            None => mapped_pointer(fields@, field@) is None,
        },
{
    let mut i: usize = 0;
    assert(fields@.skip(0) =~= fields@);
    while i < fields.len()
        invariant
            i <= fields@.len(),
            mapped_pointer(fields@, field@) == mapped_pointer(fields@.skip(i as int), field@),
        decreases fields@.len() - i,
    {
        assert(fields@.skip(i as int)[0] == fields@[i as int]);
        assert(fields@.skip(i as int).drop_first() =~= fields@.skip(i + 1));
        if str_eq(fields[i].0.as_str(), field) {
            return Some(&fields[i].1);
        }
        i = i + 1;
    }
    None
}

/// Looks a logical field up in a backend record, honouring the adapter's
/// renames.
pub fn field_of(fields: &Vec<(String, String)>, record: &crate::json::Json, field: &str) -> (r: Option<
    crate::json::Json,
>)
    ensures
        crate::json::opt_owned_view(r) == record_field(fields@, record@, field@),
{
    match mapped_pointer_exec(fields, field) {
        Some(p) => crate::json::cloned(record.pointer(p.as_str())),
        None => crate::json::cloned(record.get(field)),
    }
}

/// The kind a field check names, or the message refusing it.
pub open spec fn check_kind(case_id: Seq<char>, check: crate::case::FieldCheck) -> Result<crate::compare::Kind, Seq<char>> {
    match check.kind {
        None => Ok(crate::compare::Kind::Raw),
        Some(k) => match crate::compare::kind_named(k@) {
            Some(kind) => Ok(kind),
            None => Err("case "@ + case_id + " field "@ + check.field@ + ": "@
                + crate::compare::unknown_kind_message(k@)),
        },
    }
}

/// The reading a field check makes of what was sent and what came back; the
/// float readings are left for the caller to fill in.
pub fn reading_for(
    case_id: &str,
    protocol: &str,
    sent: &crate::json::Json,
    record: &crate::json::Json,
    fields: &Vec<(String, String)>,
    check: &crate::case::FieldCheck,
    series: Option<&str>,
) -> (r: Result<Reading, String>)
    ensures
        match r {
            Ok(reading) => check_kind(case_id@, *check) == Ok::<crate::compare::Kind, Seq<char>>(reading.kind)
                && reading.field@ == check.field@
                && crate::compare::opt_json(reading.sent) == sent_field(protocol@, sent@, check.field@, crate::otlp::opt_str_view(series))
                && crate::compare::opt_json(reading.read) == record_field(fields@, record@, check.field@)
                && reading.sent_float is None && reading.read_float is None,
            Err(e) => check_kind(case_id@, *check) == Err::<crate::compare::Kind, Seq<char>>(e@),
        },
{
    let kind = match &check.kind {
        None => crate::compare::Kind::Raw,
        Some(k) => match crate::compare::kind_from_str(k.as_str()) {
            Ok(kind) => kind,
            Err(m) => {
                let mut e = chars_of("case ");
                crate::text::push_str(&mut e, case_id);
                crate::text::push_str(&mut e, " field ");
                crate::text::push_str(&mut e, check.field.as_str());
                crate::text::push_str(&mut e, ": ");
                crate::text::push_str(&mut e, m.as_str());
                return Err(string_of(e.as_slice()));
            },
        },
    };
    let want = logical_field_for(protocol, sent, check.field.as_str(), series);
    let got = field_of(fields, record, check.field.as_str());
    Ok(Reading {
        field: check.field.clone(),
        kind,
        sent: want,
        read: got,
        sent_float: None,
        read_float: None,
    })
}

/// The worst of a case's read-back verdicts: an alteration anywhere is the
/// case's verdict.
pub open spec fn worst_of(verdicts: Seq<Verdict>) -> Verdict {
    if verdicts.contains(Verdict::Alter) {
        Verdict::Alter
    } else {
        Verdict::Pass
    }
}

/// The verdict and line of a case with several read-back assertions: an
/// alteration if any assertion found one, and every assertion's line joined
/// by ` | `.
pub fn combine_readbacks(parts: &Vec<(Verdict, String)>) -> (r: (Verdict, String))
    ensures
        r.0 == worst_of(parts@.map_values(|p: (Verdict, String)| p.0)),
        r.0 == Verdict::Alter <==> exists|k: int| 0 <= k < parts@.len() && parts@[k].0 == Verdict::Alter,
        r.0 == Verdict::Alter || r.0 == Verdict::Pass,
        r.1@ == crate::text::joined(parts@.map_values(|p: (Verdict, String)| p.1@), " | "@),
{
    let mut verdict = Verdict::Pass;
    let mut lines: Vec<Vec<char>> = Vec::new();
    let ghost vs = parts@.map_values(|p: (Verdict, String)| p.0);
    let mut i: usize = 0;
    while i < parts.len()
        invariant
            i <= parts@.len(),
            vs == parts@.map_values(|p: (Verdict, String)| p.0),
            verdict == worst_of(vs.take(i as int)),
            crate::text::views_of(lines@) == parts@.map_values(|p: (Verdict, String)| p.1@).take(i as int),
        decreases parts@.len() - i,
    {
        assert(vs.take(i + 1) =~= vs.take(i as int).push(vs[i as int]));
        if parts[i].0 == Verdict::Alter {
            verdict = Verdict::Alter;
            assert(vs.take(i + 1)[i as int] == Verdict::Alter);
        } else {
            let ghost t = vs.take(i as int);
            let ghost t1 = vs.take(i + 1);
            assert(t1.contains(Verdict::Alter) == t.contains(Verdict::Alter)) by {
                if t1.contains(Verdict::Alter) {
                    let k = choose|k: int| 0 <= k < t1.len() && #[trigger] t1[k] == Verdict::Alter;
                    if k < i {
                        assert(t[k] == Verdict::Alter);
                    }
                }
                if t.contains(Verdict::Alter) {
                    let k = choose|k: int| 0 <= k < t.len() && #[trigger] t[k] == Verdict::Alter;
                    assert(t1[k] == Verdict::Alter);
                }
            }
        }
        let ghost before = crate::text::views_of(lines@);
        lines.push(chars_of(parts[i].1.as_str()));
        assert(crate::text::views_of(lines@) =~= before.push(parts@[i as int].1@));
        assert(parts@.map_values(|p: (Verdict, String)| p.1@).take(i + 1) =~= parts@.map_values(
            |p: (Verdict, String)| p.1@,
        ).take(i as int).push(parts@[i as int].1@));
        i = i + 1;
    }
    assert(vs.take(parts@.len() as int) =~= vs);
    assert(parts@.map_values(|p: (Verdict, String)| p.1@).take(parts@.len() as int) =~= parts@.map_values(
        |p: (Verdict, String)| p.1@,
    ));
    proof {
        crate::laws::law_an_alteration_anywhere_alters_the_case(vs);
        if exists|k: int| 0 <= k < parts@.len() && parts@[k].0 == Verdict::Alter {
            let k = choose|k: int| 0 <= k < parts@.len() && parts@[k].0 == Verdict::Alter;
            assert(vs[k] == Verdict::Alter);
        }
        if exists|k: int| 0 <= k < vs.len() && vs[k] == Verdict::Alter {
            let k = choose|k: int| 0 <= k < vs.len() && vs[k] == Verdict::Alter;
            assert(parts@[k].0 == Verdict::Alter);
        }
    }
    let sep = chars_of(" | ");
    let joined = crate::text::join_chars(&lines, sep.as_slice());
    (verdict, string_of(joined.as_slice()))
}

} // verus!

verus! {

// ---------------------------------------------------------------------------
// The backend's version
// ---------------------------------------------------------------------------

/// What the regex crate makes of a pattern and a text: nothing when the
/// pattern does not compile, otherwise the first capture group of the first
/// match, if there is one.
pub uninterp spec fn regex_group(pattern: Seq<char>, text: Seq<char>) -> Option<Option<Seq<char>>>;

pub open spec fn group_view(r: Option<Option<String>>) -> Option<Option<Seq<char>>> {
    match r {
        Some(Some(g)) => Some(Some(g@)),
        Some(None) => Some(None),
        None => None,
    }
}

/// `regex::Regex::new`, then `captures` and its group `1`. Claimed: the
/// result is the named reading of the pattern and the text; the regex
/// language is not restated.
#[verifier::external_body]
fn capture_group(pattern: &str, text: &str) -> (r: Option<Option<String>>)
    ensures
        group_view(r) == regex_group(pattern@, text@),
{
    regex::Regex::new(pattern).ok().map(|re| re.captures(text).and_then(|c| c.get(1)).map(|m| m.as_str().to_string()))
}

/// A version read out of a text response with an adapter's pattern: the
/// first capture group of the first match. A pattern that does not compile
/// reads nothing here.
pub fn version_from_text(pattern: &str, text: &str) -> (r: Option<String>)
    ensures
        crate::otlp::opt_string_view(r) == (match regex_group(pattern@, text@) {
            Some(g) => g,
            None => None,
        }),
{
    match capture_group(pattern, text) {
        Some(g) => g,
        None => None,
    }
}

/// What the version request's response says the version is: nothing for a
/// status outside 2xx; with a pattern, its capture (a pattern that does not
/// compile is refused); with a field, the string at that pointer (a field
/// starting with `/`) or member, of the body read as JSON (`null` when it is
/// not).
pub open spec fn version_reading(vf: crate::backend::VersionFrom, status: u16, text: Seq<char>) -> Result<
    Option<Seq<char>>,
    Seq<char>,
> {
    if !(200 <= status < 300) {
        Ok(None)
    } else {
        match vf.pattern {
            Some(p) => match regex_group(p@, text) {
                Some(g) => Ok(g),
                None => Err("version_from.pattern "@ + crate::text::debug_quoted(p@)),
            },
            None => match vf.field {
                None => Err("version_from needs either a `field` or a `pattern`"@),
                Some(f) => {
                    let value = match crate::json::parsed_json(vstd::utf8::encode_utf8(text)) {
                        Some(v) => v,
                        None => crate::json::JsonView::Null,
                    };
                    let found = if f@.len() > 0 && f@[0] == '/' {
                        crate::json::pointer_get(value, f@)
                    } else {
                        value.get(f@)
                    };
                    match found {
                        Some(crate::json::JsonView::String(s)) => Ok(Some(s)),
                        _ => Ok(None),
                    }
                },
            },
        }
    }
}

/// Reads the backend's version out of the response to its adapter's
/// version request.
pub fn version_from_response(vf: &crate::backend::VersionFrom, status: u16, text: &str) -> (r: Result<
    Option<String>,
    String,
>)
    ensures
        match r {
            Ok(v) => version_reading(*vf, status, text@) == Ok::<Option<Seq<char>>, Seq<char>>(
                crate::otlp::opt_string_view(v),
            ),
            Err(e) => version_reading(*vf, status, text@) == Err::<Option<Seq<char>>, Seq<char>>(e@),
        },
{
    if !(200 <= status && status < 300) {
        return Ok(None);
    }
    match &vf.pattern {
        Some(p) => {
            let got = capture_group(p.as_str(), text);
            assert(vf.pattern == Some(*p));
            return match got {
                Some(Some(g)) => {
                    assert(regex_group(p@, text@) == Some(Some(g@)));
                    assert(200 <= status < 300);
                    assert(version_reading(*vf, status, text@) == Ok::<Option<Seq<char>>, Seq<char>>(Some(g@)));
                    Ok(Some(g))
                },
                Some(None) => {
                    assert(regex_group(p@, text@) == Some(None::<Seq<char>>));
                    Ok(None)
                },
                None => {
                    let mut e = chars_of("version_from.pattern ");
                    let q = quote_debug(chars_of(p.as_str()).as_slice());
                    e.extend_from_slice(q.as_slice());
                    assert(e@ =~= "version_from.pattern "@ + debug_quoted(p@));
                    Err(string_of(e.as_slice()))
                },
            };
        },
        None => {},
    }
    let field = match &vf.field {
        Some(f) => f,
        None => {
            return Err(string_of(chars_of("version_from needs either a `field` or a `pattern`").as_slice()));
        },
    };
    let value = match crate::json::Json::parse(text.as_bytes()) {
        Some(v) => v,
        None => crate::json::Json::Null,
    };
    let fc = chars_of(field.as_str());
    let found = if fc.len() > 0 && fc[0] == '/' {
        value.pointer(field.as_str())
    } else {
        value.get(field.as_str())
    };
    match found {
        Some(crate::json::Json::String(s)) => Ok(Some(s.clone())),
        _ => Ok(None),
    }
}

// ---------------------------------------------------------------------------
// Requests
// ---------------------------------------------------------------------------

/// How a request is authenticated.
pub enum AuthMode {
    Anonymous,
    /// Basic auth with the user name (empty when absent) and the password.
    Basic(String, Option<String>),
    /// A bearer token (empty when absent).
    Bearer(String),
}

pub open spec fn opt_or_empty(o: Option<String>) -> Seq<char> {
    match o {
        Some(s) => s@,
        None => Seq::empty(),
    }
}

/// The authentication an adapter declares: `basic` and `bearer` are known;
/// any other kind, or none, sends nothing.
pub open spec fn auth_of(auth: Option<crate::backend::Auth>, mode: AuthMode) -> bool {
    match auth {
        Some(a) => if a.kind@ == "basic"@ {
            mode matches AuthMode::Basic(u, p) && u@ == opt_or_empty(a.username)
                && crate::otlp::opt_string_view(p) == crate::otlp::opt_string_view(a.password)
        } else if a.kind@ == "bearer"@ {
            mode matches AuthMode::Bearer(t) && t@ == opt_or_empty(a.token)
        } else {
            mode is Anonymous
        },
        None => mode is Anonymous,
    }
}

fn copy_opt(o: &Option<String>) -> (r: Option<String>)
    ensures
        crate::otlp::opt_string_view(r) == crate::otlp::opt_string_view(*o),
{
    match o {
        Some(s) => Some(s.clone()),
        None => None,
    }
}

fn or_empty(o: &Option<String>) -> (r: String)
    ensures
        r@ == opt_or_empty(*o),
{
    match o {
        Some(s) => s.clone(),
        None => String::new(),
    }
}

/// The authentication to send.
pub fn auth_mode(auth: &Option<crate::backend::Auth>) -> (r: AuthMode)
    ensures
        auth_of(*auth, r),
{
    match auth {
        Some(a) => {
            if str_eq(a.kind.as_str(), "basic") {
                AuthMode::Basic(or_empty(&a.username), copy_opt(&a.password))
            } else if str_eq(a.kind.as_str(), "bearer") {
                AuthMode::Bearer(or_empty(&a.token))
            } else {
                AuthMode::Anonymous
            }
        },
        None => AuthMode::Anonymous,
    }
}

/// The HTTP methods a request may use.
#[derive(PartialEq, Eq, Structural, Clone, Copy, Debug)]
pub enum Method {
    Post,
    Put,
    Get,
    Delete,
}

pub open spec fn method_named(m: Seq<char>) -> Option<Method> {
    if m == "POST"@ {
        Some(Method::Post)
    } else if m == "PUT"@ {
        Some(Method::Put)
    } else if m == "GET"@ {
        Some(Method::Get)
    } else if m == "DELETE"@ {
        Some(Method::Delete)
    } else {
        None
    }
}

/// The method a request names, or the message refusing it.
pub fn method_of(m: &str) -> (r: Result<Method, String>)
    ensures
        match r {
            Ok(x) => method_named(m@) == Some(x),
            Err(e) => method_named(m@) is None && e@ == "unsupported method "@ + m@,
        },
{
    if str_eq(m, "POST") {
        Ok(Method::Post)
    } else if str_eq(m, "PUT") {
        Ok(Method::Put)
    } else if str_eq(m, "GET") {
        Ok(Method::Get)
    } else if str_eq(m, "DELETE") {
        Ok(Method::Delete)
    } else {
        let mut e = chars_of("unsupported method ");
        crate::text::push_str(&mut e, m);
        Err(string_of(e.as_slice()))
    }
}

pub open spec fn pair_views(v: Seq<(String, String)>) -> Seq<(Seq<char>, Seq<char>)> {
    v.map_values(|p: (String, String)| (p.0@, p.1@))
}

/// The headers after the encoding's own required ones are filled in where
/// the adapter has not declared them: each missing name is added at the end,
/// in order.
pub open spec fn filled_headers(
    declared: Seq<(Seq<char>, Seq<char>)>,
    required: Seq<(Seq<char>, Seq<char>)>,
) -> Seq<(Seq<char>, Seq<char>)>
    decreases required.len(),
{
    if required.len() == 0 {
        declared
    } else {
        let before = filled_headers(declared, required.drop_last());
        let h = required.last();
        if before.map_values(|p: (Seq<char>, Seq<char>)| p.0).contains(h.0) {
            before
        } else {
            before.push(h)
        }
    }
}

fn has_name(headers: &Vec<(String, String)>, name: &str) -> (b: bool)
    ensures
        b == pair_views(headers@).map_values(|p: (Seq<char>, Seq<char>)| p.0).contains(name@),
{
    let ghost names = pair_views(headers@).map_values(|p: (Seq<char>, Seq<char>)| p.0);
    let mut i: usize = 0;
    while i < headers.len()
        invariant
            i <= headers@.len(),
            names == pair_views(headers@).map_values(|p: (Seq<char>, Seq<char>)| p.0),
            forall|j: int| 0 <= j < i ==> #[trigger] names[j] != name@,
        decreases headers@.len() - i,
    {
        if str_eq(headers[i].0.as_str(), name) {
            assert(names[i as int] == name@);
            return true;
        }
        i = i + 1;
    }
    false
}

/// Fills in the headers `encoding` requires that the adapter has not
/// declared; a declared header keeps its value.
pub fn fill_headers(headers: &mut Vec<(String, String)>, encoding: &str)
    ensures
        pair_views(final(headers)@) == filled_headers(
            pair_views(old(headers)@),
            crate::encode::required_headers(encoding@),
        ),
{
    let required = crate::encode::headers_for(encoding);
    let ghost start = pair_views(headers@);
    let ghost req = crate::encode::header_views(required@);
    let mut i: usize = 0;
    while i < required.len()
        invariant
            i <= required@.len(),
            req == crate::encode::header_views(required@),
            req == crate::encode::required_headers(encoding@),
            pair_views(headers@) == filled_headers(start, req.take(i as int)),
        decreases required@.len() - i,
    {
        assert(req.take(i + 1).drop_last() =~= req.take(i as int));
        assert(req.take(i + 1).last() == (required@[i as int].0@, required@[i as int].1@));
        let (name, value) = required[i];
        if !has_name(headers, name) {
            let ghost before = pair_views(headers@);
            headers.push((string_of(chars_of(name).as_slice()), string_of(chars_of(value).as_slice())));
            assert(pair_views(headers@) =~= before.push((name@, value@)));
        }
        i = i + 1;
    }
    assert(req.take(required@.len() as int) =~= req);
}

} // verus!

verus! {

/// `a` sorts before `b` as a tuple of two strings does: by the first, then
/// by the second.
pub open spec fn pair_less(a: (Seq<char>, Seq<char>), b: (Seq<char>, Seq<char>)) -> bool {
    crate::order::text_less(a.0, b.0) || (a.0 == b.0 && crate::order::text_less(a.1, b.1))
}

/// `p` inserted after every pair that does not sort after it.
pub open spec fn insert_pair(sorted: Seq<(Seq<char>, Seq<char>)>, p: (Seq<char>, Seq<char>)) -> Seq<
    (Seq<char>, Seq<char>),
>
    decreases sorted.len(),
{
    if sorted.len() == 0 {
        seq![p]
    } else if pair_less(p, sorted.last()) {
        insert_pair(sorted.drop_last(), p).push(sorted.last())
    } else {
        sorted.push(p)
    }
}

/// The pairs in ascending order, as `sort` on a list of string pairs leaves
/// them.
pub open spec fn sorted_pairs(s: Seq<(Seq<char>, Seq<char>)>) -> Seq<(Seq<char>, Seq<char>)>
    decreases s.len(),
{
    if s.len() == 0 {
        Seq::empty()
    } else {
        insert_pair(sorted_pairs(s.drop_last()), s.last())
    }
}

fn pair_less_exec(a: (&[char], &[char]), b: (&[char], &[char])) -> (r: bool)
    ensures
        r == pair_less((a.0@, a.1@), (b.0@, b.1@)),
{
    crate::order::less(a.0, b.0) || (crate::text::chars_eq(a.0, b.0) && crate::order::less(a.1, b.1))
}

fn insert_pair_exec(sorted: &mut Vec<(String, String)>, p: (String, String))
    ensures
        pair_views(final(sorted)@) == insert_pair(pair_views(old(sorted)@), (p.0@, p.1@)),
{
    let ghost s0 = pair_views(sorted@);
    let ghost pv = (p.0@, p.1@);
    let pk = chars_of(p.0.as_str());
    let pvv = chars_of(p.1.as_str());
    let mut i: usize = sorted.len();
    assert(s0.take(s0.len() as int) =~= s0);
    assert(insert_pair(s0, pv) == insert_pair(s0.take(i as int), pv) + s0.skip(i as int)) by {
        assert(s0.skip(s0.len() as int) =~= Seq::<(Seq<char>, Seq<char>)>::empty());
        assert(insert_pair(s0, pv) + Seq::<(Seq<char>, Seq<char>)>::empty() =~= insert_pair(s0, pv));
    }
    loop
        invariant
            i <= sorted@.len(),
            pair_views(sorted@) == s0,
            pk@ == pv.0,
            pvv@ == pv.1,
            insert_pair(s0, pv) == insert_pair(s0.take(i as int), pv) + s0.skip(i as int),
        ensures
            i <= sorted@.len(),
            pair_views(sorted@) == s0,
            insert_pair(s0, pv) == insert_pair(s0.take(i as int), pv) + s0.skip(i as int),
            i == 0 || !pair_less(pv, s0[i - 1]),
        decreases i,
    {
        if i == 0 {
            break;
        }
        let ok = chars_of(sorted[i - 1].0.as_str());
        let ov = chars_of(sorted[i - 1].1.as_str());
        assert(s0[i - 1] == (ok@, ov@));
        if !pair_less_exec((pk.as_slice(), pvv.as_slice()), (ok.as_slice(), ov.as_slice())) {
            break;
        }
        proof {
            let t = s0.take(i as int);
            assert(t.last() == s0[i - 1]);
            assert(t.drop_last() =~= s0.take(i - 1));
            assert(insert_pair(t, pv) == insert_pair(s0.take(i - 1), pv).push(s0[i - 1]));
            assert(insert_pair(s0.take(i - 1), pv).push(s0[i - 1]) + s0.skip(i as int) =~= insert_pair(
                s0.take(i - 1),
                pv,
            ) + s0.skip(i - 1));
        }
        i = i - 1;
    }
    proof {
        let t = s0.take(i as int);
        if i > 0 {
            assert(t.last() == s0[i - 1]);
        }
        assert(insert_pair(t, pv) == t.push(pv));
    }
    sorted.insert(i, p);
    assert(pair_views(sorted@) =~= s0.take(i as int).push(pv) + s0.skip(i as int));
}

/// The pairs sorted as `sort` sorts them.
pub fn sort_pairs(pairs: Vec<(String, String)>) -> (r: Vec<(String, String)>)
    ensures
        pair_views(r@) == sorted_pairs(pair_views(pairs@)),
{
    let mut out: Vec<(String, String)> = Vec::new();
    let mut rest = pairs;
    let ghost all = pair_views(rest@);
    let mut i: usize = 0;
    let n = rest.len();
    assert(pair_views(rest@) =~= all.skip(0));
    assert(pair_views(out@) =~= sorted_pairs(all.take(0)));
    while i < n
        invariant
            n == all.len(),
            i <= n,
            pair_views(rest@) == all.skip(i as int),
            pair_views(out@) == sorted_pairs(all.take(i as int)),
        decreases n - i,
    {
        assert(pair_views(rest@).len() == rest@.len());
        assert(pair_views(rest@)[0] == all[i as int]);
        let ghost first = rest@[0];
        let ghost old_rest = rest@;
        let p = rest.remove(0);
        assert(p == first);
        assert((p.0@, p.1@) == all[i as int]);
        assert(rest@ =~= old_rest.drop_first());
        assert forall|k: int| 0 <= k < rest@.len() implies #[trigger] pair_views(rest@)[k] == all.skip(i + 1)[k] by {
            assert(pair_views(rest@)[k] == pair_views(old_rest)[k + 1]);
        }
        assert(pair_views(rest@) =~= all.skip(i + 1));
        assert(all.take(i + 1).drop_last() =~= all.take(i as int));
        insert_pair_exec(&mut out, p);
        i = i + 1;
    }
    assert(all.take(n as int) =~= all);
    out
}

/// A request ready to send: its method, its URL, its headers and its query
/// parameters, every value rendered.
pub struct Prepared {
    pub method: Method,
    pub url: String,
    pub headers: Vec<(String, String)>,
    /// Sorted, so two runs of one case send the same query string.
    pub params: Vec<(String, String)>,
}

pub open spec fn rendered_pairs(v: Seq<(String, String)>, vars: Seq<(Seq<char>, Seq<char>)>) -> Seq<
    (Seq<char>, Seq<char>),
> {
    v.map_values(|p: (String, String)| (p.0@, crate::template::substituted(p.1@, vars)))
}

/// What `prepare` makes of a declared request: the parts of `METHOD /path`,
/// the method known, the URL the base URL and the rendered path, the headers
/// and the parameters with their values rendered, the parameters sorted.
pub open spec fn prepared_request(
    req: crate::backend::Request,
    vars: Seq<(Seq<char>, Seq<char>)>,
    base_url: Seq<char>,
) -> Result<(Method, Seq<char>, Seq<(Seq<char>, Seq<char>)>, Seq<(Seq<char>, Seq<char>)>), Seq<char>> {
    match crate::backend::request_parts(req.request@) {
        Err(e) => Err(e),
        Ok((m, p)) => match method_named(m) {
            None => Err("unsupported method "@ + m),
            Some(x) => Ok((
                x,
                base_url + crate::template::substituted(p, vars),
                rendered_pairs(req.headers@, vars),
                sorted_pairs(rendered_pairs(req.params@, vars)),
            )),
        },
    }
}

fn render_pairs(v: &Vec<(String, String)>, vars: &crate::template::Vars) -> (r: Vec<(String, String)>)
    ensures
        pair_views(r@) == rendered_pairs(v@, vars.spec_entries()),
{
    let mut out: Vec<(String, String)> = Vec::new();
    let mut i: usize = 0;
    while i < v.len()
        invariant
            i <= v@.len(),
            pair_views(out@) == rendered_pairs(v@, vars.spec_entries()).take(i as int),
        decreases v@.len() - i,
    {
        let ghost before = pair_views(out@);
        let k = v[i].0.clone();
        let val = crate::template::render(v[i].1.as_str(), vars);
        out.push((k, val));
        assert(pair_views(out@) =~= before.push(rendered_pairs(v@, vars.spec_entries())[i as int]));
        assert(rendered_pairs(v@, vars.spec_entries()).take(i + 1) =~= rendered_pairs(
            v@,
            vars.spec_entries(),
        ).take(i as int).push(rendered_pairs(v@, vars.spec_entries())[i as int]));
        i = i + 1;
    }
    assert(rendered_pairs(v@, vars.spec_entries()).take(v@.len() as int) =~= rendered_pairs(
        v@,
        vars.spec_entries(),
    ));
    out
}

/// Prepares a declared request for sending against `base_url`.
pub fn prepare(req: &crate::backend::Request, vars: &crate::template::Vars, base_url: &str) -> (r: Result<
    Prepared,
    String,
>)
    ensures
        match r {
            Ok(p) => prepared_request(*req, vars.spec_entries(), base_url@) == Ok::<
                (Method, Seq<char>, Seq<(Seq<char>, Seq<char>)>, Seq<(Seq<char>, Seq<char>)>),
                Seq<char>,
            >((p.method, p.url@, pair_views(p.headers@), pair_views(p.params@))),
            Err(e) => prepared_request(*req, vars.spec_entries(), base_url@) == Err::<
                (Method, Seq<char>, Seq<(Seq<char>, Seq<char>)>, Seq<(Seq<char>, Seq<char>)>),
                Seq<char>,
            >(e@),
        },
{
    let (m, p) = match req.parts() {
        Ok(parts) => parts,
        Err(e) => {
            return Err(e);
        },
    };
    let method = match method_of(m.as_str()) {
        Ok(x) => x,
        Err(e) => {
            return Err(e);
        },
    };
    let mut url = chars_of(base_url);
    let path = crate::template::render(p.as_str(), vars);
    crate::text::push_str(&mut url, path.as_str());
    let headers = render_pairs(&req.headers, vars);
    let params = sort_pairs(render_pairs(&req.params, vars));
    Ok(Prepared { method, url: string_of(url.as_slice()), headers, params })
}

/// `s` without any trailing `/`.
pub open spec fn without_trailing_slashes(s: Seq<char>) -> Seq<char>
    decreases s.len(),
{
    if s.len() > 0 && s.last() == '/' {
        without_trailing_slashes(s.drop_last())
    } else {
        s
    }
}

/// A base URL without trailing slashes, so a path can follow it
/// (`trim_end_matches('/')`).
pub fn base_url_of(url: &str) -> (r: String)
    ensures
        r@ == without_trailing_slashes(url@),
{
    let cs = chars_of(url);
    let mut n: usize = cs.len();
    assert(cs@.take(n as int) =~= cs@);
    while n > 0 && cs[n - 1] == '/'
        invariant
            n <= cs@.len(),
            without_trailing_slashes(url@) == without_trailing_slashes(cs@.take(n as int)),
            cs@ == url@,
        decreases n,
    {
        assert(cs@.take(n as int).drop_last() =~= cs@.take(n - 1));
        n = n - 1;
    }
    string_of(crate::text::slice_to(cs.as_slice(), n).as_slice())
}

/// `n` in lower-case hex, no leading zeros.
pub open spec fn lower_hex_text(n: nat) -> Seq<char>
    decreases n,
{
    if n < 16 {
        seq![crate::json::lower_hex(n as int)]
    } else {
        lower_hex_text(n / 16).push(crate::json::lower_hex((n % 16) as int))
    }
}

fn hex_chars(n: u64) -> (v: Vec<char>)
    ensures
        v@ == lower_hex_text(n as nat),
    decreases n,
{
    let d = (n % 16) as u8;
    let c = if d < 10 {
        (d + 48) as char
    } else {
        (d - 10 + 97) as char
    };
    if n < 16 {
        let mut v = Vec::new();
        v.push(c);
        v
    } else {
        let mut v = hex_chars(n / 16);
        v.push(c);
        v
    }
}

/// A run key: `sm-` and the number in lower-case hex.
pub fn run_key_text(n: u64) -> (r: String)
    ensures
        r@ == "sm-"@ + lower_hex_text(n as nat),
{
    let mut out = chars_of("sm-");
    let h = hex_chars(n);
    out.extend_from_slice(h.as_slice());
    string_of(out.as_slice())
}

/// What std's `str::to_lowercase` makes of the text.
pub uninterp spec fn lowercased(s: Seq<char>) -> Seq<char>;

/// `str::to_lowercase`. Claimed: the result is the named function of the
/// text; Unicode's case mapping is not restated.
#[verifier::external_body]
fn to_lowercase(s: &str) -> (r: String)
    ensures
        r@ == lowercased(s@),
{
    s.to_lowercase()
}

/// `/`, `-` and `.` become `_`.
pub open spec fn stream_safe(c: char) -> char {
    if c == '/' || c == '-' || c == '.' {
        '_'
    } else {
        c
    }
}

/// The stream a case writes to: one per case, so a failure in one check
/// cannot contaminate the next and teardown is a single call.
pub fn stream_name(case_id: &str) -> (r: String)
    ensures
        r@ == "specmatrix_"@ + lowercased(case_id@.map_values(|c: char| stream_safe(c))),
{
    let cs = chars_of(case_id);
    let mut mapped: Vec<char> = Vec::new();
    let mut i: usize = 0;
    while i < cs.len()
        invariant
            i <= cs@.len(),
            cs@ == case_id@,
            mapped@ == cs@.take(i as int).map_values(|c: char| stream_safe(c)),
        decreases cs@.len() - i,
    {
        let c = cs[i];
        mapped.push(if c == '/' || c == '-' || c == '.' {
            '_'
        } else {
            c
        });
        assert(cs@.take(i + 1).map_values(|c: char| stream_safe(c)) =~= cs@.take(i as int).map_values(
            |c: char| stream_safe(c),
        ).push(stream_safe(c)));
        i = i + 1;
    }
    assert(cs@.take(cs@.len() as int) =~= cs@);
    let text = string_of(mapped.as_slice());
    let lower = to_lowercase(text.as_str());
    let mut out = chars_of("specmatrix_");
    crate::text::push_str(&mut out, lower.as_str());
    string_of(out.as_slice())
}

} // verus!

//! What each step of a case's run means once it has answered.
//!
//! Running a case alternates outside work (reading the payload, sending,
//! polling) with decisions. The program that drives a run does the work and
//! hands each answer here; every rule about what an answer means is one of
//! these functions: which answers end the case, with which verdict and line,
//! and which let it carry on.

use vstd::prelude::*;
use crate::encode::{chosen_encoding, string_seq};
use crate::runner::{CheckResult, Verdict};
use crate::text::{chars_of, joined, push_str, signed_decimal, string_of};

verus! {

/// `N/A` for an encoding no side shares: every encoding the case can be sent
/// in, joined by ` or `.
pub open spec fn refused_encoding_line(offered: Seq<Seq<char>>) -> Seq<char> {
    "encoding "@ + joined(offered, " or "@) + " not accepted by this backend"@
}

/// The encoding a case is sent in, or the line saying it cannot be sent. A
/// backend that speaks none of the encodings a case can be sent in is
/// ineligible for the check rather than failing it: sending anyway would turn
/// one fact into one rejection per case.
pub fn encoding_step(accepted: &[String], offered: &[String]) -> (r: Result<String, String>)
    ensures
        r matches Ok(e) ==> chosen_encoding(string_seq(accepted@), string_seq(offered@)) == Some(e@),
        r matches Err(line) ==> chosen_encoding(string_seq(accepted@), string_seq(offered@)) is None
            && line@ == refused_encoding_line(string_seq(offered@)),
{
    match crate::encode::choose_encoding(accepted, offered) {
        Some(e) => Ok(e),
        None => {
            let mut parts: Vec<Vec<char>> = Vec::new();
            let mut i: usize = 0;
            while i < offered.len()
                invariant
                    i <= offered@.len(),
                    crate::text::views_of(parts@) == string_seq(offered@).take(i as int),
                decreases offered@.len() - i,
            {
                let ghost before = crate::text::views_of(parts@);
                parts.push(chars_of(offered[i].as_str()));
                assert(crate::text::views_of(parts@) =~= before.push(offered@[i as int]@));
                assert(string_seq(offered@).take(i + 1) =~= string_seq(offered@).take(i as int).push(
                    offered@[i as int]@,
                ));
                i = i + 1;
            }
            assert(string_seq(offered@).take(offered@.len() as int) =~= string_seq(offered@));
            let mut out = chars_of("encoding ");
            let list = crate::text::join_chars(&parts, chars_of(" or ").as_slice());
            out.extend_from_slice(list.as_slice());
            push_str(&mut out, " not accepted by this backend");
            Err(string_of(out.as_slice()))
        },
    }
}

/// `N/A` for a payload the chosen encoding cannot carry.
pub open spec fn unencodable_line(encoding: Seq<char>, error: Seq<char>) -> Seq<char> {
    "payload cannot be encoded as "@ + encoding + ": "@ + error
}

/// The body to send, or the line saying the payload cannot be sent in the
/// encoding picked for it. Such a case gets no verdict at all: a
/// payload with invalid UTF-8 cannot exist as a protobuf string, and calling
/// that a failure would be a claim about the backend based on a limit of the
/// wire format.
pub fn wire_step(encoding: &str, converted: Result<Vec<u8>, String>) -> (r: Result<Vec<u8>, String>)
    ensures
        match converted {
            Ok(body) => r == Ok::<Vec<u8>, String>(body),
            Err(e) => r matches Err(line) && line@ == unencodable_line(encoding@, e@),
        },
{
    match converted {
        Ok(body) => Ok(body),
        Err(e) => {
            let mut out = chars_of("payload cannot be encoded as ");
            push_str(&mut out, encoding);
            push_str(&mut out, ": ");
            push_str(&mut out, e.as_str());
            Err(string_of(out.as_slice()))
        },
    }
}

/// A setup request has failed when it answered neither 2xx nor 400; several
/// stores answer 400 for "already exists", which is not a failure to set up.
pub open spec fn setup_failed(status: u16) -> bool {
    !(200 <= status < 300) && status != 400
}

/// `N/A` for a setup that failed: the status and the first line of the
/// answer.
pub open spec fn setup_failed_line(status: u16, first_line: Seq<char>) -> Seq<char> {
    "setup failed: "@ + signed_decimal(status as int) + " "@ + first_line
}

/// The line ending a case whose setup request failed, if it did.
/// `first_line` is the first line of the setup answer.
pub fn setup_step(status: u16, first_line: &str) -> (r: Option<String>)
    ensures
        r is Some <==> setup_failed(status),
        r matches Some(line) ==> line@ == setup_failed_line(status, first_line@),
{
    if !(200 <= status && status < 300) && status != 400 {
        let mut out = chars_of("setup failed: ");
        let code = crate::text::u64_text(status as u64);
        out.extend_from_slice(code.as_slice());
        push_str(&mut out, " ");
        push_str(&mut out, first_line);
        Some(string_of(out.as_slice()))
    } else {
        None
    }
}

pub open spec fn not_ready_line() -> Seq<char> {
    "the backend's preconditions did not hold within the adapter's timeout"@
}

/// The line ending a case whose preconditions never held. A case measured
/// before the store has finished setting itself up would report its start-up
/// as its behaviour; this is a reason not to measure, not a verdict.
pub fn ready_step(ready: bool) -> (r: Option<String>)
    ensures
        r is Some <==> !ready,
        r matches Some(line) ==> line@ == not_ready_line(),
{
    if ready {
        None
    } else {
        Some(string_of(chars_of("the backend's preconditions did not hold within the adapter's timeout").as_slice()))
    }
}

/// A status of 2xx is an acceptance.
pub open spec fn accepted_status(status: u16) -> bool {
    200 <= status < 300
}

/// What the ingest answer decides: the verdict and its line, nothing when
/// the case carries on to read-back, or the error for a case whose declared
/// expectation does not exist. A refusal's line is the status and the first
/// line of the answer.
pub open spec fn ingest_outcome(
    case_id: Seq<char>,
    expected: Seq<char>,
    status: u16,
    first_line: Seq<char>,
) -> Result<Option<(Verdict, Seq<char>)>, Seq<char>> {
    let accepted = accepted_status(status);
    match crate::runner::ingest_decision(expected, accepted) {
        None => Err("case "@ + case_id + ": "@ + crate::runner::unknown_ingest_message(expected)),
        Some(None) => Ok(None),
        Some(Some(v)) => Ok(
            Some(
                (
                    v,
                    if accepted {
                        "accepted a payload the check expects to be refused"@
                    } else {
                        signed_decimal(status as int) + " "@ + first_line
                    },
                ),
            ),
        ),
    }
}

pub open spec fn ingest_view(r: Result<Option<(Verdict, String)>, String>) -> Result<
    Option<(Verdict, Seq<char>)>,
    Seq<char>,
> {
    match r {
        Ok(Some((v, line))) => Ok(Some((v, line@))),
        Ok(None) => Ok(None),
        Err(e) => Err(e@),
    }
}

/// Decides a case at ingest. `first_line` is the first line of the answer.
pub fn ingest_step(case_id: &str, expected: &str, status: u16, first_line: &str) -> (r: Result<
    Option<(Verdict, String)>,
    String,
>)
    ensures
        ingest_view(r) == ingest_outcome(case_id@, expected@, status, first_line@),
{
    let accepted = 200 <= status && status < 300;
    match crate::runner::ingest_verdict(expected, accepted) {
        Err(message) => {
            let mut out = chars_of("case ");
            push_str(&mut out, case_id);
            push_str(&mut out, ": ");
            push_str(&mut out, message.as_str());
            Err(string_of(out.as_slice()))
        },
        Ok(None) => Ok(None),
        Ok(Some(v)) => {
            if accepted {
                Ok(Some((v, string_of(chars_of("accepted a payload the check expects to be refused").as_slice()))))
            } else {
                let mut out = crate::text::u64_text(status as u64);
                push_str(&mut out, " ");
                push_str(&mut out, first_line);
                Ok(Some((v, string_of(out.as_slice()))))
            }
        },
    }
}

/// What a query check decides: under `any` order the rows must be the same
/// set, under `as-listed` the same list; agreement passes, a difference is an
/// alteration with the line saying what differs. Any other order is an
/// error in the case.
pub open spec fn query_outcome(
    case_id: Seq<char>,
    order: Seq<char>,
    expected: Seq<Seq<char>>,
    returned: Seq<Seq<char>>,
    status: u16,
) -> Result<(Verdict, Seq<char>), Seq<char>> {
    let agrees = signed_decimal(status as int) + ", query agrees"@;
    if order == "any"@ {
        if expected.to_set() == returned.to_set() {
            Ok((Verdict::Pass, agrees))
        } else {
            Ok((Verdict::Alter, crate::query::difference_line(expected.to_set(), returned.to_set())))
        }
    } else if order == "as-listed"@ {
        if expected == returned {
            Ok((Verdict::Pass, agrees))
        } else {
            Ok((Verdict::Alter, crate::query::order_line(expected, returned)))
        }
    } else {
        Err("case "@ + case_id + " declares query.order: "@ + crate::text::debug_quoted(order)
            + "; expected `any` or `as-listed`"@)
    }
}

pub open spec fn judged_view(r: Result<(Verdict, String), String>) -> Result<(Verdict, Seq<char>), Seq<char>> {
    match r {
        Ok((v, line)) => Ok((v, line@)),
        Err(e) => Err(e@),
    }
}

/// Decides a query check from the rows that came back. The data can be
/// intact and the same query answer differently; nothing errors and a
/// dashboard renders, which is what makes this class of divergence worth a
/// tool.
pub fn query_step(case_id: &str, order: &str, expected: &[String], returned: &[String], status: u16) -> (r:
    Result<(Verdict, String), String>)
    ensures
        judged_view(r) == query_outcome(
            case_id@,
            order@,
            crate::query::string_views(expected@),
            crate::query::string_views(returned@),
            status,
        ),
{
    let mut agrees = crate::text::u64_text(status as u64);
    push_str(&mut agrees, ", query agrees");
    let difference = if crate::text::str_eq(order, "any") {
        crate::query::compare(expected, returned)
    } else if crate::text::str_eq(order, "as-listed") {
        crate::query::compare_ordered(expected, returned)
    } else {
        let mut e = chars_of("case ");
        push_str(&mut e, case_id);
        push_str(&mut e, " declares query.order: ");
        let q = crate::text::quote_debug(chars_of(order).as_slice());
        e.extend_from_slice(q.as_slice());
        push_str(&mut e, "; expected `any` or `as-listed`");
        assert(e@ =~= "case "@ + case_id@ + " declares query.order: "@ + crate::text::debug_quoted(order@)
            + "; expected `any` or `as-listed`"@);
        return Err(string_of(e.as_slice()));
    };
    match difference {
        None => Ok((Verdict::Pass, string_of(agrees.as_slice()))),
        Some(line) => Ok((Verdict::Alter, line)),
    }
}

/// The line of an accepted case that has nothing to read back: the case
/// declares no read-back, or the adapter declares no way to do one.
pub open spec fn unread_line(status: u16, reported: Seq<char>, case_declares: bool) -> Seq<char> {
    signed_decimal(status as int) + if case_declares {
        ", adapter declares no read-back"@
    } else {
        ", no read-back declared"@
    } + reported
}

/// Passes an accepted case with nothing to read back. `case_declares` says
/// whether the case asked for a read-back the adapter cannot do.
pub fn unread_step(status: u16, reported: &str, case_declares: bool) -> (r: (Verdict, String))
    ensures
        r.0 == Verdict::Pass,
        r.1@ == unread_line(status, reported@, case_declares),
{
    let mut out = crate::text::u64_text(status as u64);
    if case_declares {
        push_str(&mut out, ", adapter declares no read-back");
    } else {
        push_str(&mut out, ", no read-back declared");
    }
    push_str(&mut out, reported);
    (Verdict::Pass, string_of(out.as_slice()))
}

/// A case's row when the runner or the network failed: `N/A`, never a
/// verdict, since the backend has not been asked anything.
pub fn harness_error(id: &str, title: &str, message: &str) -> (r: CheckResult)
    ensures
        r.id@ == id@,
        r.title@ == title@,
        r.verdict == Verdict::NotApplicable,
        r.detail@ == "harness error: "@ + message@,
{
    let mut out = chars_of("harness error: ");
    push_str(&mut out, message);
    CheckResult {
        id: string_of(chars_of(id).as_slice()),
        title: string_of(chars_of(title).as_slice()),
        verdict: Verdict::NotApplicable,
        detail: string_of(out.as_slice()),
    }
}

/// The row of a case the suite does not attempt because a control did not
/// pass, or nothing when no control blocked it and the case must run.
pub fn blocked_step(blocked: &Option<String>, id: &str, title: &str) -> (r: Option<CheckResult>)
    ensures
        r is Some <==> blocked is Some,
        r matches Some(row) ==> row.id@ == id@ && row.title@ == title@ && row.verdict
            == Verdict::NotApplicable && (blocked matches Some(reason) && row.detail@ == reason@),
{
    match blocked {
        Some(reason) => Some(
            CheckResult {
                id: string_of(chars_of(id).as_slice()),
                title: string_of(chars_of(title).as_slice()),
                verdict: Verdict::NotApplicable,
                detail: string_of(chars_of(reason.as_str()).as_slice()),
            },
        ),
        None => None,
    }
}

/// Whether a query's rows have settled: the same non-empty rows twice in a
/// row. An empty result is stable too, but taking it as settled would read a
/// store that commits slowly as having lost every row; a check that expects
/// no rows waits out the timeout instead.
pub fn rows_settled(last: &Option<Vec<String>>, rows: &[String]) -> (b: bool)
    ensures
        b == (rows@.len() > 0 && last.is_some() && crate::query::string_views(last.unwrap()@)
            == crate::query::string_views(rows@)),
{
    if rows.len() == 0 {
        return false;
    }
    match last {
        None => false,
        Some(l) => {
            if l.len() != rows.len() {
                assert(crate::query::string_views(l@).len() != crate::query::string_views(rows@).len());
                return false;
            }
            let mut i: usize = 0;
            while i < rows.len()
                invariant
                    i <= rows@.len(),
                    rows@.len() > 0,
                    last.is_some() && last.unwrap() == *l,
                    l@.len() == rows@.len(),
                    forall|j: int| 0 <= j < i ==> #[trigger] l@[j]@ == rows@[j]@,
                decreases rows@.len() - i,
            {
                if !crate::text::str_eq(l[i].as_str(), rows[i].as_str()) {
                    assert(crate::query::string_views(l@)[i as int] == l@[i as int]@);
                    assert(crate::query::string_views(rows@)[i as int] == rows@[i as int]@);
                    assert(crate::query::string_views(l@) != crate::query::string_views(rows@));
                    return false;
                }
                i = i + 1;
            }
            assert(crate::query::string_views(l@) =~= crate::query::string_views(rows@));
            true
        },
    }
}

// ---------------------------------------------------------------------------
// The order of a run
// ---------------------------------------------------------------------------

/// A request a case sends on its way to the payload.
#[derive(Debug, Clone, Copy, PartialEq, Eq, Structural)]
pub enum Stage {
    /// Clear the case's stream, answer ignored.
    Teardown,
    /// Create what the store needs before it accepts a write.
    Setup,
    /// Poll the precondition until it holds.
    Verify,
    /// Send the payload.
    Ingest,
}

/// The requests of a case, in the order they are sent: teardown first, so a
/// run that crashed leaves nothing the next one reads (an "after" teardown
/// is exactly the one that does not run); then setup, then its check, and
/// the payload last. Each of the first three only when the adapter declares
/// it.
pub open spec fn stage_plan(teardown: bool, setup: bool, verify: bool) -> Seq<Stage> {
    (if teardown {
        seq![Stage::Teardown]
    } else {
        Seq::empty()
    }) + (if setup {
        seq![Stage::Setup]
    } else {
        Seq::empty()
    }) + (if verify {
        seq![Stage::Verify]
    } else {
        Seq::empty()
    }) + seq![Stage::Ingest]
}

/// The requests a case sends, in order, given which of teardown, setup and
/// its check the adapter declares.
pub fn case_stages(teardown: bool, setup: bool, verify: bool) -> (r: Vec<Stage>)
    ensures
        r@ == stage_plan(teardown, setup, verify),
{
    let mut r: Vec<Stage> = Vec::new();
    if teardown {
        r.push(Stage::Teardown);
    }
    if setup {
        r.push(Stage::Setup);
    }
    if verify {
        r.push(Stage::Verify);
    }
    r.push(Stage::Ingest);
    assert(r@ =~= stage_plan(teardown, setup, verify));
    r
}

/// The positions whose flag is `want`, in order.
pub open spec fn positions_where(flags: Seq<bool>, want: bool) -> Seq<int>
    decreases flags.len(),
{
    if flags.len() == 0 {
        Seq::empty()
    } else if flags.last() == want {
        positions_where(flags.drop_last(), want).push(flags.len() - 1)
    } else {
        positions_where(flags.drop_last(), want)
    }
}

/// The order a suite's cases run in: the controls first, then the rest,
/// each group in the order the cases were given. If a control does not
/// pass, the rest cannot say anything about the backend.
pub fn suite_order(controls: &[bool]) -> (r: Vec<usize>)
    ensures
        r@.map_values(|i: usize| i as int) == positions_where(controls@, true) + positions_where(
            controls@,
            false,
        ),
{
    let mut first: Vec<usize> = Vec::new();
    let mut then: Vec<usize> = Vec::new();
    let mut i: usize = 0;
    while i < controls.len()
        invariant
            i <= controls@.len(),
            first@.map_values(|k: usize| k as int) == positions_where(controls@.take(i as int), true),
            then@.map_values(|k: usize| k as int) == positions_where(controls@.take(i as int), false),
        decreases controls@.len() - i,
    {
        assert(controls@.take(i + 1).drop_last() =~= controls@.take(i as int));
        assert(controls@.take(i + 1).last() == controls@[i as int]);
        let ghost f0 = first@.map_values(|k: usize| k as int);
        let ghost t0 = then@.map_values(|k: usize| k as int);
        if controls[i] {
            first.push(i);
            assert(first@.map_values(|k: usize| k as int) =~= f0.push(i as int));
        } else {
            then.push(i);
            assert(then@.map_values(|k: usize| k as int) =~= t0.push(i as int));
        }
        i = i + 1;
    }
    assert(controls@.take(controls@.len() as int) =~= controls@);
    let ghost f = first@.map_values(|k: usize| k as int);
    let ghost t = then@.map_values(|k: usize| k as int);
    first.append(&mut then);
    assert(first@.map_values(|k: usize| k as int) =~= f + t);
    first
}

/// What blocks the rest of a suite after a control has run: a reason
/// already found stands, since the first control that did not pass is the
/// one that says why; otherwise whatever this control's result says.
pub fn after_control(blocked: Option<String>, result: &CheckResult, case_id: &str) -> (r: Option<String>)
    ensures
        blocked is Some ==> r == blocked,
        blocked is None ==> crate::otlp::opt_string_view(r) == crate::runner::control_block(
            result.verdict,
            result.detail@,
            case_id@,
        ),
{
    match blocked {
        Some(reason) => Some(reason),
        None => crate::runner::block_reason(result, case_id),
    }
}

} // verus!

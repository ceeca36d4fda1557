//! The table a run prints.
//!
//! Deliberately plain: a verdict, an id, and one line saying what happened.
//! No score and no ranking, because a backend failing ten cosmetic checks is
//! not worse than one silently dropping metrics, and a single number invites
//! exactly that comparison.

use vstd::prelude::*;
use crate::runner::{CheckResult, Outcome, Verdict, count_of};
use crate::text::{signed_decimal, utf8_len, chars_of, string_of, push_str};

verus! {

/// `s` padded with spaces to `width` characters, as `{:<width$}` pads it.
pub open spec fn padded(s: Seq<char>, width: int) -> Seq<char> {
    if s.len() < width {
        s + Seq::new((width - s.len()) as nat, |i: int| ' ')
    } else {
        s
    }
}

/// The widest id in bytes, and at least 24.
pub open spec fn id_width(results: Seq<CheckResult>) -> int
    decreases results.len(),
{
    if results.len() == 0 {
        24
    } else {
        let rest = id_width(results.drop_last());
        let w = utf8_len(results.last().id@) as int;
        if w > rest {
            w
        } else {
            rest
        }
    }
}

/// One result's row.
pub open spec fn result_row(r: CheckResult, width: int) -> Seq<char> {
    "  "@ + padded(r.id@, width) + "  "@ + padded(crate::matrix::label_text(r.verdict), 7) + "  "@ + r.detail@
        + "\n"@
}

pub open spec fn result_rows(results: Seq<CheckResult>, width: int) -> Seq<char>
    decreases results.len(),
{
    if results.len() == 0 {
        Seq::empty()
    } else {
        result_rows(results.drop_last(), width) + result_row(results.last(), width)
    }
}

/// The whole table: the backend, its version and URL; the suite; a row per
/// result with ids padded to a common width; the counts of each verdict; and,
/// when anything was altered, a line saying so, since an alteration is
/// invisible to whoever sent the data.
pub open spec fn table(o: Outcome) -> Seq<char> {
    let version = match o.backend_version {
        Some(v) => " "@ + v@,
        None => Seq::empty(),
    };
    let alter = count_of(o.results@, Verdict::Alter);
    "\n  "@ + o.backend@ + version + "  "@ + o.url@ + "\n"@ + "  suite: "@ + o.suite@ + "\n\n"@
        + result_rows(o.results@, id_width(o.results@)) + "\n  "@ + signed_decimal(o.results@.len() as int)
        + " checks, "@ + signed_decimal(count_of(o.results@, Verdict::Pass) as int) + " pass, "@
        + signed_decimal(count_of(o.results@, Verdict::Reject) as int) + " reject, "@ + signed_decimal(
        alter as int,
    ) + " alter, "@ + signed_decimal(count_of(o.results@, Verdict::NotApplicable) as int) + " n/a\n"@ + (
    if alter > 0 {
        "  "@ + signed_decimal(alter as int)
            + " accepted then changed or lost — these fail silently in production\n"@
    } else {
        Seq::empty()
    }) + "\n"@
}

fn push_padded(out: &mut Vec<char>, s: &str, width: usize)
    ensures
        final(out)@ == old(out)@ + padded(s@, width as int),
{
    let cs = chars_of(s);
    let ghost start = out@;
    out.extend_from_slice(cs.as_slice());
    if cs.len() < width {
        let mut k: usize = cs.len();
        while k < width
            invariant
                cs.len() <= k <= width,
                cs@ == s@,
                out@ == start + s@ + Seq::new((k - cs.len()) as nat, |i: int| ' '),
            decreases width - k,
        {
            out.push(' ');
            assert(Seq::new((k + 1 - cs.len()) as nat, |i: int| ' ') =~= Seq::new((k - cs.len()) as nat, |i: int| ' ').push(' '));
            k = k + 1;
        }
    }
    assert(out@ =~= start + padded(s@, width as int));
}

fn byte_len(s: &str) -> (n: usize)
    requires
        utf8_len(s@) <= usize::MAX,
    ensures
        n as nat == utf8_len(s@),
{
    let cs = chars_of(s);
    let mut n: usize = 0;
    let mut i: usize = 0;
    while i < cs.len()
        invariant
            i <= cs@.len(),
            cs@ == s@,
            utf8_len(s@) <= usize::MAX,
            n as nat == utf8_len(cs@.take(i as int)),
        decreases cs@.len() - i,
    {
        assert(cs@.take(i + 1).drop_last() =~= cs@.take(i as int));
        proof {
            crate::text::lemma_utf8_len_take_grows(cs@, i + 1, cs@.len() as int);
            assert(cs@.take(cs@.len() as int) =~= cs@);
        }
        n = n + crate::text::char_width(cs[i]);
        i = i + 1;
    }
    assert(cs@.take(cs@.len() as int) =~= cs@);
    n
}

/// Every id's length in bytes fits a `usize`.
pub open spec fn ids_measurable(results: Seq<CheckResult>) -> bool {
    forall|i: int| 0 <= i < results.len() ==> utf8_len(#[trigger] results[i].id@) <= usize::MAX
}

/// The table a run prints for one backend.
pub fn table_text(outcome: &Outcome) -> (s: String)
    requires
        ids_measurable(outcome.results@),
    ensures
        s@ == table(*outcome),
{
    let mut out: Vec<char> = Vec::new();
    push_str(&mut out, "\n  ");
    push_str(&mut out, outcome.backend.as_str());
    match &outcome.backend_version {
        Some(v) => {
            push_str(&mut out, " ");
            push_str(&mut out, v.as_str());
        },
        None => {},
    }
    push_str(&mut out, "  ");
    push_str(&mut out, outcome.url.as_str());
    push_str(&mut out, "\n");
    push_str(&mut out, "  suite: ");
    push_str(&mut out, outcome.suite.as_str());
    push_str(&mut out, "\n\n");
    let ghost head = out@;
    let results = &outcome.results;
    let mut width: usize = 24;
    let mut i: usize = 0;
    assert(results@.take(0) =~= Seq::<CheckResult>::empty());
    while i < results.len()
        invariant
            i <= results@.len(),
            ids_measurable(results@),
            width as int == id_width(results@.take(i as int)),
        decreases results@.len() - i,
    {
        assert(results@.take(i + 1).drop_last() =~= results@.take(i as int));
        assert(results@.take(i + 1).last() == results@[i as int]);
        let w = byte_len(results[i].id.as_str());
        if w > width {
            width = w;
        }
        i = i + 1;
    }
    assert(results@.take(results@.len() as int) =~= results@);
    let mut k: usize = 0;
    while k < results.len()
        invariant
            k <= results@.len(),
            width as int == id_width(results@),
            out@ == head + result_rows(results@.take(k as int), width as int),
        decreases results@.len() - k,
    {
        assert(results@.take(k + 1).drop_last() =~= results@.take(k as int));
        assert(results@.take(k + 1).last() == results@[k as int]);
        let ghost before = out@;
        push_str(&mut out, "  ");
        push_padded(&mut out, results[k].id.as_str(), width);
        push_str(&mut out, "  ");
        push_padded(&mut out, crate::matrix::label(results[k].verdict), 7);
        push_str(&mut out, "  ");
        push_str(&mut out, results[k].detail.as_str());
        push_str(&mut out, "\n");
        assert(out@ =~= before + result_row(results@[k as int], width as int));
        k = k + 1;
    }
    assert(results@.take(results@.len() as int) =~= results@);
    let pass = outcome.count(Verdict::Pass);
    let reject = outcome.count(Verdict::Reject);
    let alter = outcome.count(Verdict::Alter);
    let not_applicable = outcome.count(Verdict::NotApplicable);
    push_str(&mut out, "\n  ");
    out.extend_from_slice(crate::text::u64_text(results.len() as u64).as_slice());
    push_str(&mut out, " checks, ");
    out.extend_from_slice(crate::text::u64_text(pass as u64).as_slice());
    push_str(&mut out, " pass, ");
    out.extend_from_slice(crate::text::u64_text(reject as u64).as_slice());
    push_str(&mut out, " reject, ");
    out.extend_from_slice(crate::text::u64_text(alter as u64).as_slice());
    push_str(&mut out, " alter, ");
    out.extend_from_slice(crate::text::u64_text(not_applicable as u64).as_slice());
    push_str(&mut out, " n/a\n");
    if alter > 0 {
        push_str(&mut out, "  ");
        out.extend_from_slice(crate::text::u64_text(alter as u64).as_slice());
        push_str(&mut out, " accepted then changed or lost — these fail silently in production\n");
    }
    push_str(&mut out, "\n");
    assert(out@ =~= table(*outcome));
    string_of(out.as_slice())
}

} // verus!

//! Many backends, one page.
//!
//! Deliberately without a total, a percentage or an ordering. A backend that
//! fails ten cosmetic checks is not worse than one that silently drops
//! metrics, and any single number invites exactly that comparison. The page
//! publishes the cases and lets a reader weigh what matters to them.

use vstd::prelude::*;
use crate::order::{chars_views, insert_sorted, lemma_sorted_items, sorted_items, strictly_sorted};
use crate::runner::{CheckResult, Outcome, Verdict};
use crate::text::{
    byte_prefix, byte_prefix_of, chars_of, concat, contains_chars, contains_seq, has_byte_prefix,
    push_str, replace_chars, replaced, str_eq, string_of, strip_leading, strip_leading_chars,
};

verus! {

pub struct Matrix {
    /// The date this was produced. A matrix without one is a claim about the
    /// past that reads as a claim about the present.
    pub generated: String,
    pub suite: String,
    pub outcomes: Vec<Outcome>,
}

/// A previous run of the same suite, for the page to compare against.
///
/// The strongest evidence this project can offer that a finding is acted on
/// is a cell changing from `ALTER` to `PASS` with the version it changed at
/// — which needs the previous verdict beside the new one, not just linked.
pub struct History<'a> {
    /// Where the previous run's own page lives, relative to the page being
    /// rendered now.
    pub link: String,
    pub matrix: &'a Matrix,
}

/// The word a verdict is shown as.
pub open spec fn label_text(verdict: Verdict) -> Seq<char> {
    match verdict {
        Verdict::Pass => "PASS"@,
        Verdict::Reject => "REJECT"@,
        Verdict::Alter => "ALTER"@,
        Verdict::NotApplicable => "N/A"@,
    }
}

pub fn label(verdict: Verdict) -> (s: &'static str)
    ensures
        s@ == label_text(verdict),
{
    match verdict {
        Verdict::Pass => "PASS",
        Verdict::Reject => "REJECT",
        Verdict::Alter => "ALTER",
        Verdict::NotApplicable => "N/A",
    }
}

/// A detail made safe for a table cell: a pipe would end the cell early, a
/// newline the row.
pub open spec fn cell_escaped(detail: Seq<char>) -> Seq<char> {
    replaced(replaced(detail, "|"@, "\\|"@), "\n"@, " "@)
}

/// A pipe inside a detail would end the table cell early.
pub fn escape(detail: &str) -> (s: String)
    ensures
        s@ == cell_escaped(detail@),
{
    let d = chars_of(detail);
    let once = replace_chars(d.as_slice(), chars_of("|").as_slice(), chars_of("\\|").as_slice());
    let twice = replace_chars(once.as_slice(), chars_of("\n").as_slice(), chars_of(" ").as_slice());
    string_of(twice.as_slice())
}

/// Text made safe for HTML: the four characters that could open or close
/// markup or an attribute are written as entities.
pub open spec fn html_escaped(text: Seq<char>) -> Seq<char> {
    replaced(
        replaced(replaced(replaced(text, "&"@, "&amp;"@), "<"@, "&lt;"@), ">"@, "&gt;"@),
        "\""@,
        "&quot;"@,
    )
}

fn escape_html_chars(text: &[char]) -> (r: Vec<char>)
    ensures
        r@ == html_escaped(text@),
{
    let a = replace_chars(text, chars_of("&").as_slice(), chars_of("&amp;").as_slice());
    let b = replace_chars(a.as_slice(), chars_of("<").as_slice(), chars_of("&lt;").as_slice());
    let c = replace_chars(b.as_slice(), chars_of(">").as_slice(), chars_of("&gt;").as_slice());
    replace_chars(c.as_slice(), chars_of("\"").as_slice(), chars_of("&quot;").as_slice())
}

pub fn escape_html(text: &str) -> (s: String)
    ensures
        s@ == html_escaped(text@),
{
    string_of(escape_html_chars(chars_of(text).as_slice()).as_slice())
}

/// Whether the pinned image already names the reported version, so that
/// showing both would say one thing twice.
pub open spec fn image_names_version(image: Seq<char>, version: Seq<char>) -> bool {
    contains_seq(image, strip_leading(version, 'v'))
}

fn names_version(image: &str, version: &str) -> (b: bool)
    ensures
        b == image_names_version(image@, version@),
{
    let v = strip_leading_chars(chars_of(version).as_slice(), 'v');
    contains_chars(chars_of(image).as_slice(), v.as_slice())
}

/// The version line under a column's backend name.
pub open spec fn version_line_text(version: Option<Seq<char>>, image: Option<Seq<char>>) -> Seq<char> {
    match (version, image) {
        (Some(v), Some(i)) if !image_names_version(i, v) => v + " · "@ + i,
        (Some(v), _) => v,
        (None, Some(i)) => "image "@ + i,
        (None, None) => "version unknown"@,
    }
}

pub open spec fn opt_view(s: Option<String>) -> Option<Seq<char>> {
    match s {
        Some(t) => Some(t@),
        None => None,
    }
}

pub fn version_line(outcome: &Outcome) -> (s: String)
    ensures
        s@ == version_line_text(opt_view(outcome.backend_version), opt_view(outcome.backend_image)),
{
    let mut out: Vec<char> = Vec::new();
    match (&outcome.backend_version, &outcome.backend_image) {
        (Some(v), Some(i)) => {
            if !names_version(i.as_str(), v.as_str()) {
                push_str(&mut out, v.as_str());
                push_str(&mut out, " · ");
                push_str(&mut out, i.as_str());
            } else {
                push_str(&mut out, v.as_str());
            }
        },
        (Some(v), None) => {
            push_str(&mut out, v.as_str());
        },
        (None, Some(i)) => {
            push_str(&mut out, "image ");
            push_str(&mut out, i.as_str());
        },
        (None, None) => {
            push_str(&mut out, "version unknown");
        },
    }
    string_of(out.as_slice())
}

/// A column's heading: the backend, its reported version, and the pinned
/// image when the two do not already say the same thing.
pub open spec fn column_heading_text(
    backend: Seq<char>,
    version: Option<Seq<char>>,
    image: Option<Seq<char>>,
) -> Seq<char> {
    match (version, image) {
        (Some(v), Some(i)) if !image_names_version(i, v) => backend + " "@ + v + " (image "@ + i
            + ")"@,
        (Some(v), _) => backend + " "@ + v,
        (None, Some(i)) => backend + " (image "@ + i + ")"@,
        (None, None) => backend + " (version unknown)"@,
    }
}

pub fn column_heading(outcome: &Outcome) -> (s: String)
    ensures
        s@ == column_heading_text(
            outcome.backend@,
            opt_view(outcome.backend_version),
            opt_view(outcome.backend_image),
        ),
{
    let mut out: Vec<char> = Vec::new();
    push_str(&mut out, outcome.backend.as_str());
    match (&outcome.backend_version, &outcome.backend_image) {
        (Some(v), Some(i)) => {
            push_str(&mut out, " ");
            push_str(&mut out, v.as_str());
            if !names_version(i.as_str(), v.as_str()) {
                push_str(&mut out, " (image ");
                push_str(&mut out, i.as_str());
                push_str(&mut out, ")");
            }
        },
        (Some(v), None) => {
            push_str(&mut out, " ");
            push_str(&mut out, v.as_str());
        },
        (None, Some(i)) => {
            push_str(&mut out, " (image ");
            push_str(&mut out, i.as_str());
            push_str(&mut out, ")");
        },
        (None, None) => {
            push_str(&mut out, " (version unknown)");
        },
    }
    string_of(out.as_slice())
}

/// The first result for check `id`.
pub open spec fn find_result(results: Seq<CheckResult>, id: Seq<char>) -> Option<CheckResult>
    decreases results.len(),
{
    if results.len() == 0 {
        None
    } else if results[0].id@ == id {
        Some(results[0])
    } else {
        find_result(results.drop_first(), id)
    }
}

/// The index of the first result for check `id`.
pub fn find_result_index(results: &Vec<CheckResult>, id: &str) -> (r: Option<usize>)
    ensures
        r matches Some(i) ==> i < results@.len() && find_result(results@, id@) == Some(
            results@[i as int],
        ),
        r is None ==> find_result(results@, id@) is None,
{
    let mut i: usize = 0;
    assert(results@.skip(0) =~= results@);
    while i < results.len()
        invariant
            i <= results@.len(),
            find_result(results@, id@) == find_result(results@.skip(i as int), id@),
        decreases results@.len() - i,
    {
        assert(results@.skip(i as int).drop_first() =~= results@.skip(i + 1));
        if str_eq(results[i].id.as_str(), id) {
            return Some(i);
        }
        i = i + 1;
    }
    None
}

/// The first outcome for `backend`.
pub open spec fn find_outcome(outcomes: Seq<Outcome>, backend: Seq<char>) -> Option<Outcome>
    decreases outcomes.len(),
{
    if outcomes.len() == 0 {
        None
    } else if outcomes[0].backend@ == backend {
        Some(outcomes[0])
    } else {
        find_outcome(outcomes.drop_first(), backend)
    }
}

pub fn find_outcome_index(outcomes: &Vec<Outcome>, backend: &str) -> (r: Option<usize>)
    ensures
        r matches Some(i) ==> i < outcomes@.len() && find_outcome(outcomes@, backend@) == Some(
            outcomes@[i as int],
        ),
        r is None ==> find_outcome(outcomes@, backend@) is None,
{
    let mut i: usize = 0;
    assert(outcomes@.skip(0) =~= outcomes@);
    while i < outcomes.len()
        invariant
            i <= outcomes@.len(),
            find_outcome(outcomes@, backend@) == find_outcome(outcomes@.skip(i as int), backend@),
        decreases outcomes@.len() - i,
    {
        assert(outcomes@.skip(i as int).drop_first() =~= outcomes@.skip(i + 1));
        if str_eq(outcomes[i].backend.as_str(), backend) {
            return Some(i);
        }
        i = i + 1;
    }
    None
}

/// Every check id any column ran.
pub open spec fn all_ids(outcomes: Seq<Outcome>) -> Set<Seq<char>> {
    Set::new(
        |id: Seq<char>|
            exists|i: int, j: int|
                0 <= i < outcomes.len() && 0 <= j < outcomes[i].results@.len()
                    && #[trigger] outcomes[i].results@[j].id@ == id,
    )
}

/// Every check id, ascending, each once.
pub open spec fn check_id_list(outcomes: Seq<Outcome>) -> Seq<Seq<char>> {
    sorted_items(all_ids(outcomes))
}

impl Matrix {
    /// Every check any column ran, so a column that skipped one is visibly
    /// blank rather than quietly missing from the table.
    pub fn check_ids(&self) -> (ids: Vec<String>)
        ensures
            ids@.map_values(|s: String| s@) == check_id_list(self.outcomes@),
    {
        let mut sorted: Vec<Vec<char>> = Vec::new();
        let mut i: usize = 0;
        assert(chars_views(sorted@).to_set() =~= Set::<Seq<char>>::empty());
        while i < self.outcomes.len()
            invariant
                i <= self.outcomes@.len(),
                strictly_sorted(chars_views(sorted@)),
                chars_views(sorted@).to_set() == Set::new(
                    |id: Seq<char>|
                        exists|a: int, b: int|
                            0 <= a < i && 0 <= b < self.outcomes@[a].results@.len()
                                && #[trigger] self.outcomes@[a].results@[b].id@ == id,
                ),
            decreases self.outcomes@.len() - i,
        {
            let results = &self.outcomes[i].results;
            let mut j: usize = 0;
            while j < results.len()
                invariant
                    i < self.outcomes@.len(),
                    results == self.outcomes@[i as int].results,
                    j <= results@.len(),
                    strictly_sorted(chars_views(sorted@)),
                    chars_views(sorted@).to_set() == Set::new(
                        |id: Seq<char>|
                            (exists|a: int, b: int|
                                0 <= a < i && 0 <= b < self.outcomes@[a].results@.len()
                                    && #[trigger] self.outcomes@[a].results@[b].id@ == id) || (
                            exists|b: int| 0 <= b < j && #[trigger] results@[b].id@ == id),
                    ),
                decreases results@.len() - j,
            {
                let ghost before = chars_views(sorted@).to_set();
                insert_sorted(&mut sorted, chars_of(results[j].id.as_str()));
                assert(chars_views(sorted@).to_set() =~= Set::new(
                    |id: Seq<char>|
                        (exists|a: int, b: int|
                            0 <= a < i && 0 <= b < self.outcomes@[a].results@.len()
                                && #[trigger] self.outcomes@[a].results@[b].id@ == id) || (exists|
                            b: int,
                        |
                            0 <= b < j + 1 && #[trigger] results@[b].id@ == id),
                )) by {
                    assert(results@[j as int].id@ == self.outcomes@[i as int].results@[j as int].id@);
                }
                j = j + 1;
            }
            assert(chars_views(sorted@).to_set() =~= Set::new(
                |id: Seq<char>|
                    exists|a: int, b: int|
                        0 <= a < i + 1 && 0 <= b < self.outcomes@[a].results@.len()
                            && #[trigger] self.outcomes@[a].results@[b].id@ == id,
            )) by {
                assert forall|id: Seq<char>|
                    (exists|a: int, b: int|
                        0 <= a < i + 1 && 0 <= b < self.outcomes@[a].results@.len()
                            && #[trigger] self.outcomes@[a].results@[b].id@ == id) implies chars_views(
                    sorted@,
                ).to_set().contains(id) by {
                    let (a, b) = choose|a: int, b: int|
                        0 <= a < i + 1 && 0 <= b < self.outcomes@[a].results@.len()
                            && #[trigger] self.outcomes@[a].results@[b].id@ == id;
                    if a == i {
                        assert(results@[b].id@ == id);
                    }
                }
            }
            i = i + 1;
        }
        assert(chars_views(sorted@).to_set() =~= all_ids(self.outcomes@));
        proof {
            lemma_sorted_items(chars_views(sorted@));
        }
        let mut ids: Vec<String> = Vec::new();
        let mut k: usize = 0;
        while k < sorted.len()
            invariant
                k <= sorted@.len(),
                ids@.map_values(|s: String| s@) == chars_views(sorted@).take(k as int),
            decreases sorted@.len() - k,
        {
            let s = string_of(sorted[k].as_slice());
            let ghost before = ids@.map_values(|s: String| s@);
            ids.push(s);
            assert(ids@.map_values(|s: String| s@) =~= before.push(sorted@[k as int]@));
            assert(chars_views(sorted@).take(k + 1) =~= chars_views(sorted@).take(k as int).push(
                sorted@[k as int]@,
            ));
            k = k + 1;
        }
        assert(chars_views(sorted@).take(sorted@.len() as int) =~= chars_views(sorted@));
        ids
    }
}

} // verus!

verus! {

/// The date part of a timestamp: its first ten bytes.
pub open spec fn date_of(generated: Seq<char>) -> Seq<char> {
    byte_prefix_of(generated, 10)
}

/// The first ten bytes can be cut out without splitting a character, which
/// is when `&generated[..10]` does not panic.
pub open spec fn dated(m: Matrix) -> bool {
    has_byte_prefix(m.generated@, 10)
}

pub open spec fn heading_cell(o: Outcome) -> Seq<char> {
    " "@ + column_heading_text(o.backend@, opt_view(o.backend_version), opt_view(o.backend_image))
        + " |"@
}

pub open spec fn markdown_cell(o: Outcome, id: Seq<char>) -> Seq<char> {
    match find_result(o.results@, id) {
        Some(r) => label_text(r.verdict) + " — "@ + cell_escaped(r.detail@),
        None => "not run"@,
    }
}

pub open spec fn markdown_row(outcomes: Seq<Outcome>, id: Seq<char>) -> Seq<char> {
    "| `"@ + id + "` |"@ + concat(
        Seq::new(outcomes.len(), |k: int| " "@ + markdown_cell(outcomes[k], id) + " |"@),
    ) + "\n"@
}

pub open spec fn markdown_footer() -> Seq<char> {
    "\n`N/A` means the backend could not be asked — an encoding it does not accept, a query endpoint it does not implement, or a control that did not pass. It is not a verdict about the backend and is never counted with the others.\n"@
}

/// The Markdown page: a title, the date, one column per backend headed by its
/// name and version, one row per check, and what `N/A` means.
pub open spec fn markdown_page(m: Matrix) -> Seq<char> {
    let outcomes = m.outcomes@;
    let ids = check_id_list(outcomes);
    "# "@ + m.suite@ + "\n\n"@ + "Generated "@ + date_of(m.generated@) + ".\n\n"@ + "| Check |"@
        + concat(Seq::new(outcomes.len(), |k: int| heading_cell(outcomes[k]))) + "\n| --- |"@
        + concat(Seq::new(outcomes.len(), |k: int| " --- |"@)) + "\n"@ + concat(
        Seq::new(ids.len(), |k: int| markdown_row(outcomes, ids[k])),
    ) + markdown_footer()
}

fn markdown_cell_chars(o: &Outcome, id: &str) -> (r: Vec<char>)
    ensures
        r@ == markdown_cell(*o, id@),
{
    let mut out: Vec<char> = Vec::new();
    match find_result_index(&o.results, id) {
        Some(i) => {
            push_str(&mut out, label(o.results[i].verdict));
            push_str(&mut out, " — ");
            let e = escape(o.results[i].detail.as_str());
            push_str(&mut out, e.as_str());
        },
        None => {
            push_str(&mut out, "not run");
        },
    }
    out
}

fn markdown_row_chars(outcomes: &Vec<Outcome>, id: &str) -> (r: Vec<char>)
    ensures
        r@ == markdown_row(outcomes@, id@),
{
    let ghost f = |k: int| " "@ + markdown_cell(outcomes@[k], id@) + " |"@;
    let mut out: Vec<char> = Vec::new();
    push_str(&mut out, "| `");
    push_str(&mut out, id);
    push_str(&mut out, "` |");
    let ghost start = out@;
    let mut k: usize = 0;
    assert(concat(Seq::new(0, f)) =~= Seq::<char>::empty());
    while k < outcomes.len()
        invariant
            k <= outcomes@.len(),
            f == (|k: int| " "@ + markdown_cell(outcomes@[k], id@) + " |"@),
            out@ == start + concat(Seq::new(k as nat, f)),
        decreases outcomes@.len() - k,
    {
        proof {
            crate::text::lemma_concat_step(f, k as nat);
        }
        let ghost before = out@;
        push_str(&mut out, " ");
        let cell = markdown_cell_chars(&outcomes[k], id);
        out.extend_from_slice(cell.as_slice());
        push_str(&mut out, " |");
        assert(out@ =~= before + f(k as int));
        k = k + 1;
    }
    push_str(&mut out, "\n");
    assert(Seq::new(outcomes@.len(), f) =~= Seq::new(
        outcomes@.len(),
        |k: int| " "@ + markdown_cell(outcomes@[k], id@) + " |"@,
    ));
    out
}

impl Matrix {
    pub fn new(suite: &str, outcomes: Vec<Outcome>, generated: &str) -> (m: Matrix)
        ensures
            m.suite@ == suite@,
            m.generated@ == generated@,
            m.outcomes == outcomes,
    {
        Matrix {
            generated: string_of(chars_of(generated).as_slice()),
            suite: string_of(chars_of(suite).as_slice()),
            outcomes,
        }
    }

    /// Whether the date can be cut out of `generated`: its first ten bytes
    /// end on a character boundary.
    pub fn is_dated(&self) -> (b: bool)
        ensures
            b == dated(*self),
    {
        crate::text::has_byte_prefix_exec(chars_of(self.generated.as_str()).as_slice(), 10)
    }

    pub fn to_markdown(&self) -> (page: String)
        requires
            dated(*self),
        ensures
            page@ == markdown_page(*self),
    {
        let outcomes = &self.outcomes;
        let mut page: Vec<char> = Vec::new();
        push_str(&mut page, "# ");
        push_str(&mut page, self.suite.as_str());
        push_str(&mut page, "\n\n");
        push_str(&mut page, "Generated ");
        let date = byte_prefix(chars_of(self.generated.as_str()).as_slice(), 10);
        page.extend_from_slice(date.as_slice());
        push_str(&mut page, ".\n\n");
        push_str(&mut page, "| Check |");
        let ghost p1 = page@;
        let ghost f1 = |k: int| heading_cell(outcomes@[k]);
        let mut k: usize = 0;
        assert(concat(Seq::new(0, f1)) =~= Seq::<char>::empty());
        while k < outcomes.len()
            invariant
                k <= outcomes@.len(),
                f1 == (|k: int| heading_cell(outcomes@[k])),
                page@ == p1 + concat(Seq::new(k as nat, f1)),
            decreases outcomes@.len() - k,
        {
            proof {
                crate::text::lemma_concat_step(f1, k as nat);
            }
            let ghost before = page@;
            push_str(&mut page, " ");
            let h = column_heading(&outcomes[k]);
            push_str(&mut page, h.as_str());
            push_str(&mut page, " |");
            assert(page@ =~= before + f1(k as int));
            k = k + 1;
        }
        push_str(&mut page, "\n| --- |");
        let ghost p2 = page@;
        let ghost f2 = |k: int| " --- |"@;
        let mut k: usize = 0;
        assert(concat(Seq::new(0, f2)) =~= Seq::<char>::empty());
        while k < outcomes.len()
            invariant
                k <= outcomes@.len(),
                f2 == (|k: int| " --- |"@),
                page@ == p2 + concat(Seq::new(k as nat, f2)),
            decreases outcomes@.len() - k,
        {
            proof {
                crate::text::lemma_concat_step(f2, k as nat);
            }
            let ghost before = page@;
            push_str(&mut page, " --- |");
            assert(page@ =~= before + f2(k as int));
            k = k + 1;
        }
        push_str(&mut page, "\n");
        let ids = self.check_ids();
        let ghost idv = check_id_list(outcomes@);
        let ghost p3 = page@;
        let ghost f3 = |k: int| markdown_row(outcomes@, idv[k]);
        let mut k: usize = 0;
        assert(concat(Seq::new(0, f3)) =~= Seq::<char>::empty());
        while k < ids.len()
            invariant
                k <= ids@.len(),
                ids@.map_values(|s: String| s@) == idv,
                f3 == (|k: int| markdown_row(outcomes@, idv[k])),
                page@ == p3 + concat(Seq::new(k as nat, f3)),
            decreases ids@.len() - k,
        {
            proof {
                crate::text::lemma_concat_step(f3, k as nat);
            }
            let ghost before = page@;
            assert(ids@[k as int]@ == idv[k as int]);
            let row = markdown_row_chars(outcomes, ids[k].as_str());
            page.extend_from_slice(row.as_slice());
            assert(page@ =~= before + f3(k as int));
            k = k + 1;
        }
        push_str(
            &mut page,
            "\n`N/A` means the backend could not be asked — an encoding it does not accept, a query endpoint it does not implement, or a control that did not pass. It is not a verdict about the backend and is never counted with the others.\n",
        );
        assert(Seq::new(outcomes@.len(), f1) =~= Seq::new(
            outcomes@.len(),
            |k: int| heading_cell(outcomes@[k]),
        ));
        assert(Seq::new(outcomes@.len(), f2) =~= Seq::new(outcomes@.len(), |k: int| " --- |"@));
        assert(Seq::new(idv.len(), f3) =~= Seq::new(
            idv.len(),
            |k: int| markdown_row(outcomes@, idv[k]),
        ));
        assert(page@ =~= markdown_page(*self));
        string_of(page.as_slice())
    }
}

} // verus!

verus! {

/// N/A is given a colour that resembles neither a pass nor a failure, because
/// it is not a verdict about the backend.
pub fn style() -> (s: &'static str)
    ensures
        s@ == style_text(),
{
    "body{font:15px/1.5 system-ui,sans-serif;margin:2rem auto;max-width:none;padding:0 1.5rem;color:#111}h1{font-size:1.4rem;margin:0 0 .5rem}.meta{color:#555;max-width:60rem}table{border-collapse:collapse;margin:1.5rem 0;font-size:13px}th,td{border:1px solid #ddd;padding:.4rem .6rem;text-align:left;vertical-align:top}thead th{background:#f6f6f6;white-space:nowrap}.ver{display:block;font-weight:400;color:#666;font-size:11px}th.check{font-weight:400;white-space:nowrap}td{max-width:22rem}.v{display:block;font-weight:600;font-size:11px;letter-spacing:.04em}.d{display:block;color:#444;font-size:11px;word-break:break-word}.pass{background:#f3faf3}.pass .v{color:#216c2a}.reject{background:#fdf6ee}.reject .v{color:#8a5a12}.alter{background:#fdf0f0}.alter .v{color:#a01b1b}.na{background:#f4f4f7}.na .v{color:#5a5a70}.notrun{background:#fff}.notrun .v{color:#999}.hist{display:block;font-size:10px;color:#555;margin-top:.2rem;text-decoration:underline}"
}

pub open spec fn style_text() -> Seq<char> {
    "body{font:15px/1.5 system-ui,sans-serif;margin:2rem auto;max-width:none;padding:0 1.5rem;color:#111}h1{font-size:1.4rem;margin:0 0 .5rem}.meta{color:#555;max-width:60rem}table{border-collapse:collapse;margin:1.5rem 0;font-size:13px}th,td{border:1px solid #ddd;padding:.4rem .6rem;text-align:left;vertical-align:top}thead th{background:#f6f6f6;white-space:nowrap}.ver{display:block;font-weight:400;color:#666;font-size:11px}th.check{font-weight:400;white-space:nowrap}td{max-width:22rem}.v{display:block;font-weight:600;font-size:11px;letter-spacing:.04em}.d{display:block;color:#444;font-size:11px;word-break:break-word}.pass{background:#f3faf3}.pass .v{color:#216c2a}.reject{background:#fdf6ee}.reject .v{color:#8a5a12}.alter{background:#fdf0f0}.alter .v{color:#a01b1b}.na{background:#f4f4f7}.na .v{color:#5a5a70}.notrun{background:#fff}.notrun .v{color:#999}.hist{display:block;font-size:10px;color:#555;margin-top:.2rem;text-decoration:underline}"@
}

/// The CSS class a verdict's cell carries.
pub open spec fn class_text(verdict: Verdict) -> Seq<char> {
    match verdict {
        Verdict::Pass => "pass"@,
        Verdict::Reject => "reject"@,
        Verdict::Alter => "alter"@,
        Verdict::NotApplicable => "na"@,
    }
}

fn class_of(verdict: Verdict) -> (s: &'static str)
    ensures
        s@ == class_text(verdict),
{
    match verdict {
        Verdict::Pass => "pass",
        Verdict::Reject => "reject",
        Verdict::Alter => "alter",
        Verdict::NotApplicable => "na",
    }
}

/// What a cell says about the same check on the same backend in the previous
/// run: nothing when there is no previous run, no previous verdict, or the
/// verdict is unchanged; otherwise a link saying what it changed from.
pub open spec fn history_note(
    history: Option<&History>,
    backend: Seq<char>,
    id: Seq<char>,
    verdict: Verdict,
) -> Seq<char> {
    match history {
        None => Seq::empty(),
        Some(h) => match find_outcome(h.matrix.outcomes@, backend) {
            None => Seq::empty(),
            Some(prev_outcome) => match find_result(prev_outcome.results@, id) {
                None => Seq::empty(),
                Some(prev) => if prev.verdict == verdict {
                    Seq::empty()
                } else {
                    "<a class=\"hist\" href=\""@ + html_escaped(h.link@) + "\">changed from "@
                        + label_text(prev.verdict) + " on "@ + html_escaped(
                        date_of(h.matrix.generated@),
                    ) + "</a>"@
                },
            },
        },
    }
}

pub open spec fn html_cell(o: Outcome, id: Seq<char>, history: Option<&History>) -> Seq<char> {
    match find_result(o.results@, id) {
        Some(r) => "<td class=\""@ + class_text(r.verdict) + "\"><span class=\"v\">"@ + label_text(
            r.verdict,
        ) + "</span><span class=\"d\">"@ + html_escaped(r.detail@) + "</span>"@ + history_note(
            history,
            o.backend@,
            id,
            r.verdict,
        ) + "</td>"@,
        None => "<td class=\"notrun\"><span class=\"v\">not run</span></td>"@,
    }
}

pub open spec fn html_row(outcomes: Seq<Outcome>, id: Seq<char>, history: Option<&History>) -> Seq<
    char,
> {
    "<tr><th class=\"check\"><a href=\"../../../cases/"@ + html_escaped(id) + ".yaml\"><code>"@
        + html_escaped(id) + "</code></a></th>"@ + concat(
        Seq::new(outcomes.len(), |k: int| html_cell(outcomes[k], id, history)),
    ) + "</tr>\n"@
}

pub open spec fn html_column(o: Outcome) -> Seq<char> {
    "<th>"@ + html_escaped(o.backend@) + "<span class=\"ver\">"@ + html_escaped(
        version_line_text(opt_view(o.backend_version), opt_view(o.backend_image)),
    ) + "</span></th>"@
}

pub open spec fn html_head(m: Matrix) -> Seq<char> {
    "<!doctype html>\n<html lang=\"en\"><head><meta charset=\"utf-8\">\n<meta name=\"viewport\" content=\"width=device-width,initial-scale=1\">\n<title>"@
        + html_escaped(m.suite@) + " — SpecMatrix</title>\n<style>"@ + style_text()
        + "</style>\n</head><body>\n"@ + "<h1>"@ + html_escaped(m.suite@) + "</h1>\n"@
        + "<p class=\"meta\">Generated "@ + html_escaped(date_of(m.generated@))
        + ". Rendered from <code>matrix.json</code> beside this page; every cell in it was produced by a run recorded there.</p>\n"@
}

pub open spec fn commit_line(commit: Option<Seq<char>>) -> Seq<char> {
    match commit {
        Some(c) => "<p class=\"meta\">Corpus at commit <code>"@ + html_escaped(c) + "</code>.</p>\n"@,
        None => Seq::empty(),
    }
}

pub open spec fn history_line(history: Option<&History>) -> Seq<char> {
    match history {
        Some(h) => "<p class=\"meta\">Compared against the <a href=\""@ + html_escaped(h.link@)
            + "\">run of "@ + html_escaped(date_of(h.matrix.generated@))
            + "</a>; a cell that changed says so.</p>\n"@,
        None => Seq::empty(),
    }
}

pub open spec fn html_footer() -> Seq<char> {
    "<p class=\"meta\"><strong>N/A</strong> means the backend could not be asked — an encoding it does not accept, a query endpoint it does not implement, or a control that did not pass. It is not a verdict about the backend and is never counted with the others.</p>\n<p class=\"meta\"><strong>ALTER</strong> means the write was accepted and what came back was different, or never came back at all. Nothing errored at the time.</p>\n"@
}

pub open spec fn str_opt_view(s: Option<&str>) -> Option<Seq<char>> {
    match s {
        Some(t) => Some(t@),
        None => None,
    }
}

/// The HTML page: the head and style, the date, the corpus commit and the
/// run compared against when given, one column per backend with its version,
/// one row per check linking to its case file, each cell with its verdict,
/// detail and what changed since the previous run, and what `N/A` and
/// `ALTER` mean. Every piece of text that came from a run is escaped.
pub open spec fn html_page(m: Matrix, commit: Option<Seq<char>>, history: Option<&History>) -> Seq<
    char,
> {
    let outcomes = m.outcomes@;
    let ids = check_id_list(outcomes);
    html_head(m) + commit_line(commit) + history_line(history)
        + "<table>\n<thead><tr><th>Check</th>"@ + concat(
        Seq::new(outcomes.len(), |k: int| html_column(outcomes[k])),
    ) + "</tr></thead>\n<tbody>\n"@ + concat(
        Seq::new(ids.len(), |k: int| html_row(outcomes, ids[k], history)),
    ) + "</tbody></table>\n"@ + html_footer() + "</body></html>\n"@
}

fn push_escaped(out: &mut Vec<char>, text: &str)
    ensures
        final(out)@ == old(out)@ + html_escaped(text@),
{
    let e = escape_html_chars(chars_of(text).as_slice());
    out.extend_from_slice(e.as_slice());
}

fn history_note_chars(history: Option<&History>, backend: &str, id: &str, verdict: Verdict) -> (r:
    Vec<char>)
    requires
        history matches Some(h) ==> dated(*h.matrix),
    ensures
        r@ == history_note(history, backend@, id@, verdict),
{
    let mut out: Vec<char> = Vec::new();
    match history {
        None => {},
        Some(h) => match find_outcome_index(&h.matrix.outcomes, backend) {
            None => {},
            Some(oi) => match find_result_index(&h.matrix.outcomes[oi].results, id) {
                None => {},
                Some(ri) => {
                    let prev = h.matrix.outcomes[oi].results[ri].verdict;
                    if prev != verdict {
                        push_str(&mut out, "<a class=\"hist\" href=\"");
                        push_escaped(&mut out, h.link.as_str());
                        push_str(&mut out, "\">changed from ");
                        push_str(&mut out, label(prev));
                        push_str(&mut out, " on ");
                        let date = byte_prefix(
                            chars_of(h.matrix.generated.as_str()).as_slice(),
                            10,
                        );
                        out.extend_from_slice(escape_html_chars(date.as_slice()).as_slice());
                        push_str(&mut out, "</a>");
                    }
                },
            },
        },
    }
    out
}

fn html_cell_chars(o: &Outcome, id: &str, history: Option<&History>) -> (r: Vec<char>)
    requires
        history matches Some(h) ==> dated(*h.matrix),
    ensures
        r@ == html_cell(*o, id@, history),
{
    let mut out: Vec<char> = Vec::new();
    match find_result_index(&o.results, id) {
        Some(i) => {
            let verdict = o.results[i].verdict;
            push_str(&mut out, "<td class=\"");
            push_str(&mut out, class_of(verdict));
            push_str(&mut out, "\"><span class=\"v\">");
            push_str(&mut out, label(verdict));
            push_str(&mut out, "</span><span class=\"d\">");
            push_escaped(&mut out, o.results[i].detail.as_str());
            push_str(&mut out, "</span>");
            let note = history_note_chars(history, o.backend.as_str(), id, verdict);
            out.extend_from_slice(note.as_slice());
            push_str(&mut out, "</td>");
        },
        None => {
            push_str(&mut out, "<td class=\"notrun\"><span class=\"v\">not run</span></td>");
        },
    }
    out
}

fn html_row_chars(outcomes: &Vec<Outcome>, id: &str, history: Option<&History>) -> (r: Vec<char>)
    requires
        history matches Some(h) ==> dated(*h.matrix),
    ensures
        r@ == html_row(outcomes@, id@, history),
{
    let ghost f = |k: int| html_cell(outcomes@[k], id@, history);
    let mut out: Vec<char> = Vec::new();
    push_str(&mut out, "<tr><th class=\"check\"><a href=\"../../../cases/");
    push_escaped(&mut out, id);
    push_str(&mut out, ".yaml\"><code>");
    push_escaped(&mut out, id);
    push_str(&mut out, "</code></a></th>");
    let ghost start = out@;
    let mut k: usize = 0;
    assert(concat(Seq::new(0, f)) =~= Seq::<char>::empty());
    while k < outcomes.len()
        invariant
            k <= outcomes@.len(),
            history matches Some(h) ==> dated(*h.matrix),
            f == (|k: int| html_cell(outcomes@[k], id@, history)),
            out@ == start + concat(Seq::new(k as nat, f)),
        decreases outcomes@.len() - k,
    {
        proof {
            crate::text::lemma_concat_step(f, k as nat);
        }
        let ghost before = out@;
        let cell = html_cell_chars(&outcomes[k], id, history);
        out.extend_from_slice(cell.as_slice());
        assert(out@ =~= before + f(k as int));
        k = k + 1;
    }
    push_str(&mut out, "</tr>\n");
    assert(Seq::new(outcomes@.len(), f) =~= Seq::new(
        outcomes@.len(),
        |k: int| html_cell(outcomes@[k], id@, history),
    ));
    out
}

impl Matrix {
    /// A single static page, rendered from the JSON beside it.
    ///
    /// `corpus_commit` identifies the corpus the run used, so a reader can
    /// check out exactly the checks that produced these cells. `history`, when
    /// given, is the most recent prior run of this same suite: a cell whose
    /// verdict changed says so and links back to it.
    pub fn to_html(&self, corpus_commit: Option<&str>, history: Option<&History>) -> (page: String)
        requires
            dated(*self),
            history matches Some(h) ==> dated(*h.matrix),
        ensures
            page@ == html_page(*self, str_opt_view(corpus_commit), history),
    {
        let outcomes = &self.outcomes;
        let mut out: Vec<char> = Vec::new();
        push_str(
            &mut out,
            "<!doctype html>\n<html lang=\"en\"><head><meta charset=\"utf-8\">\n<meta name=\"viewport\" content=\"width=device-width,initial-scale=1\">\n<title>",
        );
        push_escaped(&mut out, self.suite.as_str());
        push_str(&mut out, " — SpecMatrix</title>\n<style>");
        push_str(&mut out, style());
        push_str(&mut out, "</style>\n</head><body>\n");
        push_str(&mut out, "<h1>");
        push_escaped(&mut out, self.suite.as_str());
        push_str(&mut out, "</h1>\n");
        push_str(&mut out, "<p class=\"meta\">Generated ");
        let date = byte_prefix(chars_of(self.generated.as_str()).as_slice(), 10);
        out.extend_from_slice(escape_html_chars(date.as_slice()).as_slice());
        push_str(
            &mut out,
            ". Rendered from <code>matrix.json</code> beside this page; every cell in it was produced by a run recorded there.</p>\n",
        );
        assert(out@ =~= html_head(*self));
        let ghost p0 = out@;
        if let Some(commit) = corpus_commit {
            push_str(&mut out, "<p class=\"meta\">Corpus at commit <code>");
            push_escaped(&mut out, commit);
            push_str(&mut out, "</code>.</p>\n");
        }
        assert(out@ =~= p0 + commit_line(str_opt_view(corpus_commit)));
        let ghost p1 = out@;
        if let Some(h) = history {
            push_str(&mut out, "<p class=\"meta\">Compared against the <a href=\"");
            push_escaped(&mut out, h.link.as_str());
            push_str(&mut out, "\">run of ");
            let hdate = byte_prefix(chars_of(h.matrix.generated.as_str()).as_slice(), 10);
            out.extend_from_slice(escape_html_chars(hdate.as_slice()).as_slice());
            push_str(&mut out, "</a>; a cell that changed says so.</p>\n");
        }
        assert(out@ =~= p1 + history_line(history));
        push_str(&mut out, "<table>\n<thead><tr><th>Check</th>");
        let ghost p2 = out@;
        let ghost f1 = |k: int| html_column(outcomes@[k]);
        let mut k: usize = 0;
        assert(concat(Seq::new(0, f1)) =~= Seq::<char>::empty());
        while k < outcomes.len()
            invariant
                k <= outcomes@.len(),
                f1 == (|k: int| html_column(outcomes@[k])),
                out@ == p2 + concat(Seq::new(k as nat, f1)),
            decreases outcomes@.len() - k,
        {
            proof {
                crate::text::lemma_concat_step(f1, k as nat);
            }
            let ghost before = out@;
            push_str(&mut out, "<th>");
            push_escaped(&mut out, outcomes[k].backend.as_str());
            push_str(&mut out, "<span class=\"ver\">");
            let v = version_line(&outcomes[k]);
            push_escaped(&mut out, v.as_str());
            push_str(&mut out, "</span></th>");
            assert(out@ =~= before + f1(k as int));
            k = k + 1;
        }
        push_str(&mut out, "</tr></thead>\n<tbody>\n");
        let ids = self.check_ids();
        let ghost idv = check_id_list(outcomes@);
        let ghost p3 = out@;
        let ghost f3 = |k: int| html_row(outcomes@, idv[k], history);
        let mut k: usize = 0;
        assert(concat(Seq::new(0, f3)) =~= Seq::<char>::empty());
        while k < ids.len()
            invariant
                k <= ids@.len(),
                history matches Some(h) ==> dated(*h.matrix),
                ids@.map_values(|s: String| s@) == idv,
                f3 == (|k: int| html_row(outcomes@, idv[k], history)),
                out@ == p3 + concat(Seq::new(k as nat, f3)),
            decreases ids@.len() - k,
        {
            proof {
                crate::text::lemma_concat_step(f3, k as nat);
            }
            let ghost before = out@;
            assert(ids@[k as int]@ == idv[k as int]);
            let row = html_row_chars(outcomes, ids[k].as_str(), history);
            out.extend_from_slice(row.as_slice());
            assert(out@ =~= before + f3(k as int));
            k = k + 1;
        }
        push_str(&mut out, "</tbody></table>\n");
        push_str(
            &mut out,
            "<p class=\"meta\"><strong>N/A</strong> means the backend could not be asked — an encoding it does not accept, a query endpoint it does not implement, or a control that did not pass. It is not a verdict about the backend and is never counted with the others.</p>\n<p class=\"meta\"><strong>ALTER</strong> means the write was accepted and what came back was different, or never came back at all. Nothing errored at the time.</p>\n",
        );
        push_str(&mut out, "</body></html>\n");
        assert(Seq::new(outcomes@.len(), f1) =~= Seq::new(
            outcomes@.len(),
            |k: int| html_column(outcomes@[k]),
        ));
        assert(Seq::new(idv.len(), f3) =~= Seq::new(
            idv.len(),
            |k: int| html_row(outcomes@, idv[k], history),
        ));
        assert(out@ =~= html_page(*self, str_opt_view(corpus_commit), history));
        string_of(out.as_slice())
    }
}

} // verus!

//! Query-semantics checks: load a small dataset, run one query, compare which
//! records come back.
//!
//! The marker is a field inside each document, never the store's own document
//! id. Whether a backend honours an id supplied at write time is a finding in
//! its own right, and keying on it would make every query case in the suite
//! fail for that one reason.

use vstd::prelude::*;
use crate::order::{
    chars_of_all, chars_views, lemma_sorted_items, sorted_difference, sorted_items,
};
use crate::text::{chars_eq, chars_of, join_chars, joined, string_of, views_of};

verus! {

pub open spec fn string_views(v: Seq<String>) -> Seq<Seq<char>> {
    v.map_values(|s: String| s@)
}

/// `label` followed by the items joined with `, `, or nothing when there are
/// no items.
pub open spec fn labelled_list(label: Seq<char>, items: Seq<Seq<char>>) -> Seq<Seq<char>> {
    if items.len() == 0 {
        Seq::empty()
    } else {
        seq![label + joined(items, ", "@)]
    }
}

/// The line naming what two row sets disagree about: the rows expected and
/// not returned, then the rows returned and not expected, each in ascending
/// order and each once.
pub open spec fn difference_line(expected: Set<Seq<char>>, actual: Set<Seq<char>>) -> Seq<char> {
    joined(
        labelled_list("missing: "@, sorted_items(expected.difference(actual))) + labelled_list(
            "unexpected: "@,
            sorted_items(actual.difference(expected)),
        ),
        "; "@,
    )
}

fn labelled(label: &str, items: &Vec<Vec<char>>, parts: &mut Vec<Vec<char>>)
    ensures
        views_of(final(parts)@) == views_of(old(parts)@) + labelled_list(label@, chars_views(items@)),
{
    if items.len() > 0 {
        let mut line = chars_of(label);
        let sep = chars_of(", ");
        let list = join_chars(items, sep.as_slice());
        let ghost lab = line@;
        line.extend_from_slice(list.as_slice());
        assert(lab == label@);
        assert(line@ =~= label@ + joined(chars_views(items@), ", "@));
        let ghost before = views_of(parts@);
        assert(views_of(items@) =~= chars_views(items@));
        parts.push(line);
        assert(views_of(parts@) =~= before + labelled_list(label@, chars_views(items@)));
    } else {
        assert(labelled_list(label@, chars_views(items@)) =~= Seq::<Seq<char>>::empty());
        assert(views_of(parts@) =~= views_of(parts@) + Seq::<Seq<char>>::empty());
    }
}

/// Compares two row sets, ignoring order. `None` when they agree, or a detail
/// line naming what differs and in which direction.
///
/// Both directions matter and they mean different things. A missing row is a
/// query that failed to match something it should have; an unexpected row is a
/// query that matched something it should not, which is the shape of every
/// absent-field negation bug the corpus cites.
pub fn compare(expected: &[String], actual: &[String]) -> (r: Option<String>)
    ensures
        r is None <==> string_views(expected@).to_set() == string_views(actual@).to_set(),
        r matches Some(line) ==> line@ == difference_line(
            string_views(expected@).to_set(),
            string_views(actual@).to_set(),
        ),
{
    let want = chars_of_all(expected);
    let got = chars_of_all(actual);
    let missing = sorted_difference(&want, &got);
    let unexpected = sorted_difference(&got, &want);
    let ghost w = string_views(expected@).to_set();
    let ghost g = string_views(actual@).to_set();
    proof {
        lemma_sorted_items(chars_views(missing@));
        lemma_sorted_items(chars_views(unexpected@));
    }
    if missing.len() == 0 && unexpected.len() == 0 {
        assert(w =~= g) by {
            assert forall|x: Seq<char>| w.contains(x) implies g.contains(x) by {
                if !g.contains(x) {
                    assert(w.difference(g).contains(x));
                    assert(chars_views(missing@).to_set().contains(x));
                }
            }
            assert forall|x: Seq<char>| g.contains(x) implies w.contains(x) by {
                if !w.contains(x) {
                    assert(g.difference(w).contains(x));
                    assert(chars_views(unexpected@).to_set().contains(x));
                }
            }
        }
        return None;
    }
    proof {
        if w == g {
            if missing@.len() > 0 {
                assert(chars_views(missing@).to_set().contains(chars_views(missing@)[0]));
            } else {
                assert(chars_views(unexpected@).to_set().contains(chars_views(unexpected@)[0]));
            }
        }
    }
    let mut parts: Vec<Vec<char>> = Vec::new();
    labelled("missing: ", &missing, &mut parts);
    labelled("unexpected: ", &unexpected, &mut parts);
    let sep = chars_of("; ");
    let line = join_chars(&parts, sep.as_slice());
    assert(views_of(parts@) =~= labelled_list("missing: "@, sorted_items(w.difference(g)))
        + labelled_list("unexpected: "@, sorted_items(g.difference(w))));
    Some(string_of(line.as_slice()))
}

/// The line for two row sets that are not in the same order.
pub open spec fn order_line(expected: Seq<Seq<char>>, actual: Seq<Seq<char>>) -> Seq<char> {
    "expected order ["@ + joined(expected, ", "@) + "], got ["@ + joined(actual, ", "@) + "]"@
}

/// Compares two row sets as sequences, for a check that asserts an ordering the
/// protocol guarantees.
pub fn compare_ordered(expected: &[String], actual: &[String]) -> (r: Option<String>)
    ensures
        r is None <==> string_views(expected@) == string_views(actual@),
        r matches Some(line) ==> line@ == order_line(string_views(expected@), string_views(actual@)),
{
    let want = chars_of_all(expected);
    let got = chars_of_all(actual);
    let mut same = want.len() == got.len();
    let mut i: usize = 0;
    proof {
        if !same {
            assert(chars_views(want@).len() != chars_views(got@).len());
        }
    }
    while same && i < want.len()
        invariant
            i <= want@.len(),
            same ==> want@.len() == got@.len(),
            same ==> forall|j: int| 0 <= j < i ==> #[trigger] chars_views(want@)[j] == chars_views(got@)[j],
            !same ==> chars_views(want@) != chars_views(got@),
        decreases want@.len() - i,
    {
        if !chars_eq(want[i].as_slice(), got[i].as_slice()) {
            assert(chars_views(want@)[i as int] != chars_views(got@)[i as int]);
            same = false;
        }
        i = i + 1;
    }
    if same {
        assert(chars_views(want@) =~= chars_views(got@));
        return None;
    }
    let sep = chars_of(", ");
    let mut line = chars_of("expected order [");
    line.extend_from_slice(join_chars(&want, sep.as_slice()).as_slice());
    line.extend_from_slice(chars_of("], got [").as_slice());
    line.extend_from_slice(join_chars(&got, sep.as_slice()).as_slice());
    line.extend_from_slice(chars_of("]").as_slice());
    assert(views_of(want@) =~= string_views(expected@));
    assert(views_of(got@) =~= string_views(actual@));
    assert(line@ =~= order_line(string_views(expected@), string_views(actual@)));
    Some(string_of(line.as_slice()))
}

} // verus!

verus! {

/// A marker as a row set holds it: a string's text, anything else's JSON
/// text.
pub open spec fn marker_text(v: crate::json::JsonView) -> Seq<char> {
    match v {
        crate::json::JsonView::String(s) => s,
        _ => crate::json::json_text(v),
    }
}

/// The markers of the rows that have one, in order.
pub open spec fn row_markers(rows: Seq<crate::json::JsonView>, marker_field: Seq<char>) -> Seq<Seq<char>>
    decreases rows.len(),
{
    if rows.len() == 0 {
        Seq::empty()
    } else {
        let rest = row_markers(rows.drop_last(), marker_field);
        match crate::json::pointer_get(rows.last(), marker_field) {
            Some(m) => rest.push(marker_text(m)),
            None => rest,
        }
    }
}

/// The marker of each row a query returned: the rows are the array at the
/// records pointer (the response itself for an empty pointer); nothing when
/// there is no array there.
pub open spec fn markers_of(response: crate::json::JsonView, records: Seq<char>, marker_field: Seq<char>) -> Seq<
    Seq<char>,
> {
    let node = if records.len() == 0 {
        Some(response)
    } else {
        crate::json::pointer_get(response, records)
    };
    match node {
        Some(crate::json::JsonView::Array(rows)) => row_markers(rows, marker_field),
        _ => Seq::empty(),
    }
}

/// The marker of each row a query returned, in the order the backend gave
/// them. A row without the marker is skipped rather than counted as an
/// empty string that would collide with another row.
pub fn returned_markers(response: &crate::json::Json, records: &str, marker_field: &str) -> (r: Vec<String>)
    ensures
        string_views(r@) == markers_of(response@, records@, marker_field@),
{
    let rc = crate::text::chars_of(records);
    let node = if rc.len() == 0 {
        Some(response)
    } else {
        response.pointer(records)
    };
    let mut out: Vec<String> = Vec::new();
    match node {
        Some(crate::json::Json::Array(rows)) => {
            let n = node.unwrap();
            let ghost rv = n@->Array_0;
            assert(markers_of(response@, records@, marker_field@) == row_markers(rv, marker_field@));
            let mut i: usize = 0;
            while i < rows.len()
                invariant
                    *n == crate::json::Json::Array(*rows),
                    rv == n@->Array_0,
                    rv.len() == rows@.len(),
                    forall|k: int| 0 <= k < rv.len() ==> #[trigger] rv[k] == rows@[k]@,
                    i <= rows@.len(),
                    string_views(out@) == row_markers(rv.take(i as int), marker_field@),
                decreases rows@.len() - i,
            {
                assert(rv.take(i + 1).drop_last() =~= rv.take(i as int));
                assert(rv.take(i + 1).last() == rows@[i as int]@);
                let ghost before = string_views(out@);
                match rows[i].pointer(marker_field) {
                    Some(m) => {
                        let t = match m {
                            crate::json::Json::String(s) => s.clone(),
                            _ => m.to_text(),
                        };
                        let ghost tv = t@;
                        out.push(t);
                        assert(string_views(out@) =~= before.push(tv));
                    },
                    None => {},
                }
                i = i + 1;
            }
            assert(rv.take(rows@.len() as int) =~= rv);
        },
        _ => {
            assert(string_views(out@) =~= Seq::<Seq<char>>::empty());
        },
    }
    out
}

} // verus!

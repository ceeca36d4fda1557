//! Reading logical fields out of an Elasticsearch `_bulk` body.
//!
//! A `_bulk` body is NDJSON, alternating an action line with a source line,
//! and only the source lines carry content. Getting that pairing wrong reads
//! a bulk action as a document, so a check naming `index` would silently
//! compare against metadata.

use vstd::prelude::*;
use vstd::utf8::{valid_utf8, decode_utf8, encode_utf8};
use crate::json::{Json, JsonView, opt_view, opt_owned_view};

verus! {

/// `str::from_utf8`, owned. std documents that it succeeds exactly on valid
/// UTF-8; claimed: then the text is what the bytes decode to.
#[verifier::external_body]
fn utf8_text(bytes: &[u8]) -> (r: Option<String>)
    ensures
        r is Some <==> valid_utf8(bytes@),
        r matches Some(s) ==> s@ == decode_utf8(bytes@),
{
    std::str::from_utf8(bytes).ok().map(|s| s.to_string())
}

/// `line` without one trailing carriage return.
pub open spec fn without_cr(line: Seq<char>) -> Seq<char> {
    if line.len() > 0 && line.last() == '\r' {
        line.drop_last()
    } else {
        line
    }
}

/// The lines `str::lines` yields: pieces between `\n`, each that ended in
/// `\n` without a `\r` before it, and no empty piece after a final `\n`.
pub open spec fn text_lines(text: Seq<char>) -> Seq<Seq<char>> {
    let p = crate::text::split_on(text, '\n');
    let head = p.drop_last().map_values(|l: Seq<char>| without_cr(l));
    if p.last().len() > 0 {
        head.push(p.last())
    } else {
        head
    }
}

/// The lines that hold more than whitespace.
pub open spec fn content_lines(lines: Seq<Seq<char>>) -> Seq<Seq<char>>
    decreases lines.len(),
{
    if lines.len() == 0 {
        Seq::empty()
    } else {
        let sub = content_lines(lines.drop_last());
        if crate::text::trimmed(lines.last()).len() > 0 {
            sub.push(lines.last())
        } else {
            sub
        }
    }
}

/// The documents a run of lines carries: after an action line other than
/// `delete` comes its source line. Nothing when a line is not JSON.
pub open spec fn bulk_documents(lines: Seq<Seq<char>>, expecting_source: bool) -> Option<Seq<JsonView>>
    decreases lines.len(),
{
    if lines.len() == 0 {
        Some(Seq::empty())
    } else {
        match crate::json::parsed_json(encode_utf8(lines[0])) {
            None => None,
            Some(value) => if expecting_source {
                match bulk_documents(lines.drop_first(), false) {
                    Some(rest) => Some(seq![value] + rest),
                    None => None,
                }
            } else {
                bulk_documents(lines.drop_first(), value.get("delete"@) is None)
            },
        }
    }
}

/// The first line that is not JSON, with what precedes it read.
pub open spec fn bulk_error_line(lines: Seq<Seq<char>>) -> Seq<char>
    decreases lines.len(),
{
    if lines.len() == 0 {
        Seq::empty()
    } else if crate::json::parsed_json(encode_utf8(lines[0])) is None {
        lines[0]
    } else {
        bulk_error_line(lines.drop_first())
    }
}

pub open spec fn utf8_message() -> Seq<char> {
    "a _bulk body must be valid UTF-8"@
}

pub open spec fn line_message(line: Seq<char>) -> Seq<char> {
    "parsing _bulk line "@ + crate::text::debug_quoted(line)
}

/// What `parse_bulk` returns: the documents as an array, or why not.
pub open spec fn bulk_reading(payload: Seq<u8>) -> Result<JsonView, Seq<char>> {
    if !valid_utf8(payload) {
        Err(utf8_message())
    } else {
        let lines = content_lines(text_lines(decode_utf8(payload)));
        match bulk_documents(lines, false) {
            Some(docs) => Ok(JsonView::Array(docs)),
            None => Err(line_message(bulk_error_line(lines))),
        }
    }
}

pub open spec fn result_view(r: Result<Json, String>) -> Result<JsonView, Seq<char>> {
    match r {
        Ok(j) => Ok(j@),
        Err(e) => Err(e@),
    }
}

fn lines_of(text: &str) -> (r: Vec<Vec<char>>)
    ensures
        crate::text::views_of(r@) == text_lines(text@),
{
    let cs = crate::text::chars_of(text);
    let parts = crate::text::split_chars(cs.as_slice(), '\n');
    let ghost p = crate::text::views_of(parts@);
    proof {
        crate::text::lemma_split_on_nonempty(text@, '\n');
    }
    let n = parts.len();
    let mut out: Vec<Vec<char>> = Vec::new();
    let mut i: usize = 0;
    while i + 1 < n
        invariant
            n == parts@.len(),
            n >= 1,
            i + 1 <= n,
            p == crate::text::views_of(parts@),
            crate::text::views_of(out@) == p.drop_last().take(i as int).map_values(|l: Seq<char>| without_cr(l)),
        decreases n - i,
    {
        let piece = &parts[i];
        let line = if piece.len() > 0 && piece[piece.len() - 1] == '\r' {
            crate::text::slice_to(piece.as_slice(), piece.len() - 1)
        } else {
            crate::text::slice_to(piece.as_slice(), piece.len())
        };
        proof {
            assert(piece@.take(piece@.len() as int) =~= piece@);
            assert(piece@.take(piece@.len() - 1) =~= piece@.drop_last());
        }
        let ghost before = crate::text::views_of(out@);
        out.push(line);
        assert(crate::text::views_of(out@) =~= before.push(without_cr(p[i as int])));
        assert(p.drop_last().take(i + 1).map_values(|l: Seq<char>| without_cr(l)) =~= p.drop_last().take(
            i as int,
        ).map_values(|l: Seq<char>| without_cr(l)).push(without_cr(p[i as int])));
        i = i + 1;
    }
    assert(p.drop_last().take(i as int) =~= p.drop_last());
    let last = &parts[n - 1];
    if last.len() > 0 {
        let ghost before = crate::text::views_of(out@);
        out.push(crate::text::slice_to(last.as_slice(), last.len()));
        assert(last@.take(last@.len() as int) =~= last@);
        assert(crate::text::views_of(out@) =~= before.push(p.last()));
    }
    out
}

fn nonblank(line: &[char]) -> (b: bool)
    ensures
        b == (crate::text::trimmed(line@).len() > 0),
{
    crate::text::trim_chars(line).len() > 0
}

/// Parses an NDJSON `_bulk` body into the documents it carries, discarding
/// the action lines.
pub fn parse_bulk(payload: &[u8]) -> (r: Result<Json, String>)
    ensures
        result_view(r) == bulk_reading(payload@),
{
    let text = match utf8_text(payload) {
        Some(t) => t,
        None => {
            return Err(crate::text::string_of(crate::text::chars_of("a _bulk body must be valid UTF-8").as_slice()));
        },
    };
    let all = lines_of(text.as_str());
    // The lines worth reading, in order.
    let ghost all_v = crate::text::views_of(all@);
    let mut lines: Vec<Vec<char>> = Vec::new();
    let mut i: usize = 0;
    while i < all.len()
        invariant
            i <= all@.len(),
            all_v == crate::text::views_of(all@),
            crate::text::views_of(lines@) == content_lines(all_v.take(i as int)),
        decreases all@.len() - i,
    {
        let ghost before = crate::text::views_of(lines@);
        assert(all_v.take(i + 1).drop_last() =~= all_v.take(i as int));
        if nonblank(all[i].as_slice()) {
            lines.push(crate::text::slice_to(all[i].as_slice(), all[i].len()));
            assert(all[i as int]@.take(all[i as int]@.len() as int) =~= all[i as int]@);
            assert(crate::text::views_of(lines@) =~= before.push(all_v[i as int]));
        } else {
            assert(crate::text::views_of(lines@) =~= before);
        }
        i = i + 1;
    }
    assert(all_v.take(all@.len() as int) =~= all_v);
    let ghost lv = crate::text::views_of(lines@);
    assert(lv == content_lines(text_lines(decode_utf8(payload@))));
    let mut documents: Vec<Json> = Vec::new();
    let mut expecting_source = false;
    let mut k: usize = 0;
    assert(lv.skip(0) =~= lv);
    while k < lines.len()
        invariant
            k <= lines@.len(),
            lv == crate::text::views_of(lines@),
            valid_utf8(payload@),
            lv == content_lines(text_lines(decode_utf8(payload@))),
            bulk_documents(lv, false) == (match bulk_documents(lv.skip(k as int), expecting_source) {
                Some(rest) => Some(documents@.map_values(|j: Json| j@) + rest),
                None => None,
            }),
            bulk_documents(lv, false) is None ==> bulk_error_line(lv) == bulk_error_line(lv.skip(k as int)),
        decreases lines@.len() - k,
    {
        let ghost t = lv.skip(k as int);
        assert(t[0] == lines@[k as int]@);
        assert(t.drop_first() =~= lv.skip(k + 1));
        let line = crate::text::string_of(lines[k].as_slice());
        let value = match Json::parse(line.as_str().as_bytes()) {
            Some(v) => v,
            None => {
                assert(bulk_documents(t, expecting_source) is None);
                assert(bulk_error_line(t) == t[0]);
                let mut msg: Vec<char> = Vec::new();
                crate::text::push_str(&mut msg, "parsing _bulk line ");
                let q = crate::text::quote_debug(lines[k].as_slice());
                msg.extend_from_slice(q.as_slice());
                assert(msg@ =~= line_message(bulk_error_line(lv)));
                return Err(crate::text::string_of(msg.as_slice()));
            },
        };
        if expecting_source {
            let ghost before = documents@.map_values(|j: Json| j@);
            let ghost vv = value@;
            documents.push(value);
            assert(documents@.map_values(|j: Json| j@) =~= before.push(vv));
            expecting_source = false;
        } else {
            expecting_source = value.get("delete").is_none();
        }
        k = k + 1;
    }
    assert(lv.skip(k as int) =~= Seq::<Seq<char>>::empty());
    let r = Json::Array(documents);
    assert(r@->Array_0 =~= documents@.map_values(|j: Json| j@));
    Ok(r)
}

/// The documents of a parsed body, in order; nothing for anything but an
/// array.
pub fn documents(parsed: &Json) -> (r: Vec<&Json>)
    ensures
        r@.map_values(|d: &Json| d@) == (match parsed@ {
            JsonView::Array(a) => a,
            _ => Seq::empty(),
        }),
{
    let mut out: Vec<&Json> = Vec::new();
    match parsed {
        Json::Array(items) => {
            let mut i: usize = 0;
            while i < items.len()
                invariant
                    *parsed == Json::Array(*items),
                    i <= items@.len(),
                    out@.map_values(|d: &Json| d@) == parsed@->Array_0.take(i as int),
                decreases items@.len() - i,
            {
                out.push(&items[i]);
                assert(parsed@->Array_0.take(i + 1) =~= parsed@->Array_0.take(i as int).push(items@[i as int]@));
                assert(out@.map_values(|d: &Json| d@) =~= parsed@->Array_0.take(i + 1));
                i = i + 1;
            }
            assert(parsed@->Array_0.take(items@.len() as int) =~= parsed@->Array_0);
        },
        _ => {
            assert(out@.map_values(|d: &Json| d@) =~= Seq::<JsonView>::empty());
        },
    }
    out
}

/// A field of the first document.
pub open spec fn bulk_field(parsed: JsonView, field: Seq<char>) -> Option<JsonView> {
    match parsed.at(0) {
        Some(d) => d.get(field),
        None => None,
    }
}

/// Reads a field from the first document in the body, matching the shape of
/// `otlp::logical_field`.
pub fn logical_field(parsed: &Json, field: &str) -> (r: Option<Json>)
    ensures
        opt_owned_view(r) == bulk_field(parsed@, field@),
{
    match parsed.at(0) {
        Some(d) => crate::json::cloned(d.get(field)),
        None => None,
    }
}

} // verus!

//! Getting an OTLP metrics payload past the protobuf decoder.
//!
//! The JSON decoder for OTLP metrics reads neither the float values JSON has
//! no literal for (`NaN`, `Infinity`, `-Infinity`) nor an exponential
//! histogram point that leaves out a field its struct does not default. Before
//! decoding, every data point is rewritten into a form the decoder accepts,
//! and what has to be put back afterwards is returned, one entry per data
//! point in the order they were visited: gauge, sum, histogram, exponential
//! histogram, then summary points of each metric, metric by metric, scope by
//! scope, resource by resource.

use vstd::prelude::*;
use crate::json::{inserted, member_of, member_views, Json, JsonView};
use crate::text::{chars_eq, chars_of, parse_signed, signed_decimal, string_of, trim_chars, trimmed};

verus! {

/// A float JSON has no literal for.
#[derive(Debug, Clone, Copy, PartialEq, Eq, Structural)]
pub enum Special {
    NaN,
    Infinity,
    NegInfinity,
}

/// What to set on a data point after decoding: its value, for a gauge or sum
/// point, and its sum, for a histogram or summary point.
#[derive(Debug, Clone, Copy, PartialEq, Eq, Structural)]
pub struct Fixup {
    pub value: Option<Special>,
    pub sum: Option<Special>,
}

/// `NaN`, `Infinity` and `-Infinity` are proto3's canonical spellings; the
/// Prometheus spellings are read too, so one corpus does not have to write
/// the same value two ways. Surrounding whitespace is ignored.
pub open spec fn special_named(text: Seq<char>) -> Option<Special> {
    let t = trimmed(text);
    if t == "NaN"@ {
        Some(Special::NaN)
    } else if t == "Infinity"@ || t == "+Inf"@ || t == "Inf"@ {
        Some(Special::Infinity)
    } else if t == "-Infinity"@ || t == "-Inf"@ {
        Some(Special::NegInfinity)
    } else {
        None
    }
}

/// The float a text names, if it is one JSON has no literal for.
pub fn special_float(text: &str) -> (r: Option<Special>)
    ensures
        r == special_named(text@),
{
    let t = trim_chars(chars_of(text).as_slice());
    let s = t.as_slice();
    if chars_eq(s, chars_of("NaN").as_slice()) {
        Some(Special::NaN)
    } else if chars_eq(s, chars_of("Infinity").as_slice()) || chars_eq(s, chars_of("+Inf").as_slice())
        || chars_eq(s, chars_of("Inf").as_slice()) {
        Some(Special::Infinity)
    } else if chars_eq(s, chars_of("-Infinity").as_slice()) || chars_eq(s, chars_of("-Inf").as_slice()) {
        Some(Special::NegInfinity)
    } else {
        None
    }
}

// ---------------------------------------------------------------------------
// Building values
// ---------------------------------------------------------------------------

/// `v` with member `k` set to `x`, as indexing an object and assigning
/// does; anything but an object is left as it is.
pub open spec fn with_member(v: JsonView, k: Seq<char>, x: JsonView) -> JsonView {
    match v {
        JsonView::Object(m) => JsonView::Object(inserted(m, k, x)),
        _ => v,
    }
}

pub open spec fn views(items: Seq<Json>) -> Seq<JsonView> {
    items.map_values(|j: Json| j@)
}

fn object_of(members: Vec<(String, Json)>) -> (r: Json)
    ensures
        r@ == JsonView::Object(member_views(members@)),
{
    let r = Json::Object(members);
    assert(r@->Object_0 =~= member_views(members@));
    r
}

fn array_of(items: Vec<Json>) -> (r: Json)
    ensures
        r@ == JsonView::Array(views(items@)),
{
    let r = Json::Array(items);
    assert(r@->Array_0 =~= views(items@));
    r
}

fn set_member(v: &Json, key: &str, x: Json) -> (r: Json)
    ensures
        r@ == with_member(v@, key@, x@),
{
    let c = v.copy();
    match c {
        Json::Object(members) => {
            let mut ms = members;
            assert(member_views(ms@) =~= v@->Object_0);
            crate::json::insert_member(&mut ms, string_of(chars_of(key).as_slice()), x);
            object_of(ms)
        },
        _ => c,
    }
}

// ---------------------------------------------------------------------------
// One data point
// ---------------------------------------------------------------------------

/// The number `0.0` as JSON writes it.
pub open spec fn zero_float() -> JsonView {
    JsonView::Number("0.0"@)
}

/// An `asInt` written as a string, proto3's canonical form for an int64,
/// becomes the number it names; a JSON number holds every `i64` exactly.
pub open spec fn int_fixed(p: JsonView) -> JsonView {
    match p.get("asInt"@) {
        Some(JsonView::String(t)) => match parse_signed(trimmed(t), i64::MIN as int, i64::MAX as int) {
            Some(n) => with_member(p, "asInt"@, JsonView::Number(signed_decimal(n))),
            None => p,
        },
        _ => p,
    }
}

/// The special float a field of `p` is written as, if it is one.
pub open spec fn special_at(p: JsonView, field: Seq<char>) -> Option<Special> {
    match p.get(field) {
        Some(JsonView::String(t)) => special_named(t),
        _ => None,
    }
}

/// `p` with a field holding a special float replaced by zero: a valid
/// double that keeps the message decodable, and nothing reads it before it
/// is put back.
pub open spec fn zeroed(p: JsonView, field: Seq<char>) -> JsonView {
    if special_at(p, field) is Some {
        with_member(p, field, zero_float())
    } else {
        p
    }
}

/// A data point rewritten for the decoder, and what to put back on it.
pub open spec fn normalised_point(p: JsonView) -> (JsonView, Fixup) {
    let a = int_fixed(p);
    let b = zeroed(a, "asDouble"@);
    let c = zeroed(b, "sum"@);
    (c, Fixup { value: special_at(a, "asDouble"@), sum: special_at(b, "sum"@) })
}

fn zero_field(p: Json, field: &str) -> (r: (Json, Option<Special>))
    ensures
        r.0@ == zeroed(p@, field@),
        r.1 == special_at(p@, field@),
{
    let special = match p.get(field) {
        Some(Json::String(t)) => special_float(t.as_str()),
        _ => None,
    };
    match special {
        Some(s) => {
            let zero = Json::Number(string_of(chars_of("0.0").as_slice()));
            (set_member(&p, field, zero), Some(s))
        },
        None => (p, None),
    }
}

/// Rewrites one data point for the decoder and returns what to put back.
pub fn normalise_point(point: &Json) -> (r: (Json, Fixup))
    ensures
        (r.0@, r.1) == normalised_point(point@),
{
    let fixed_int = match point.get("asInt") {
        Some(Json::String(t)) => {
            let trimmed_text = trim_chars(chars_of(t.as_str()).as_slice());
            match crate::text::parse_i64(trimmed_text.as_slice()) {
                Some(n) => {
                    let number = Json::Number(string_of(crate::text::i64_text(n).as_slice()));
                    Some(set_member(point, "asInt", number))
                },
                None => None,
            }
        },
        _ => None,
    };
    let a = match fixed_int {
        Some(a) => a,
        None => point.copy(),
    };
    assert(a@ == int_fixed(point@));
    let (b, value) = zero_field(a, "asDouble");
    let (c, sum) = zero_field(b, "sum");
    (c, Fixup { value, sum })
}

// ---------------------------------------------------------------------------
// Exponential histogram points
// ---------------------------------------------------------------------------

/// `m` with `k` added as `d` when it is not there already, as
/// `entry(k).or_insert(d)` does.
pub open spec fn or_inserted(m: Seq<(Seq<char>, JsonView)>, k: Seq<char>, d: JsonView) -> Seq<
    (Seq<char>, JsonView),
> {
    if member_of(m, k) is Some {
        m
    } else {
        inserted(m, k, d)
    }
}

/// `m` with each default added where its key is missing, in order.
pub open spec fn with_defaults(m: Seq<(Seq<char>, JsonView)>, defaults: Seq<(Seq<char>, JsonView)>) -> Seq<
    (Seq<char>, JsonView),
>
    decreases defaults.len(),
{
    if defaults.len() == 0 {
        m
    } else {
        with_defaults(or_inserted(m, defaults[0].0, defaults[0].1), defaults.drop_first())
    }
}

/// Every field `ExponentialHistogramDataPoint` requires and its struct does
/// not default, with the value a missing one means.
pub open spec fn point_defaults() -> Seq<(Seq<char>, JsonView)> {
    seq![
        ("attributes"@, JsonView::Array(Seq::empty())),
        ("startTimeUnixNano"@, JsonView::String("0"@)),
        ("count"@, JsonView::String("0"@)),
        ("scale"@, JsonView::Number("0"@)),
        ("zeroCount"@, JsonView::String("0"@)),
        ("flags"@, JsonView::Number("0"@)),
        ("exemplars"@, JsonView::Array(Seq::empty())),
        ("zeroThreshold"@, zero_float()),
    ]
}

/// The two fields a bucket set carries no default for either.
pub open spec fn bucket_defaults() -> Seq<(Seq<char>, JsonView)> {
    seq![("offset"@, JsonView::Number("0"@)), ("bucketCounts"@, JsonView::Array(Seq::empty()))]
}

/// `m` with the bucket set under `side`, if it is an object, completed.
pub open spec fn bucket_filled(m: Seq<(Seq<char>, JsonView)>, side: Seq<char>) -> Seq<(Seq<char>, JsonView)> {
    match member_of(m, side) {
        Some(JsonView::Object(b)) => inserted(m, side, JsonView::Object(with_defaults(b, bucket_defaults()))),
        _ => m,
    }
}

/// An exponential histogram point with every field the decoder needs: a
/// point missing any one of them would otherwise decode as nothing, and the
/// whole metric with it, silently.
pub open spec fn exponential_filled(p: JsonView) -> JsonView {
    match p {
        JsonView::Object(m) => JsonView::Object(
            bucket_filled(bucket_filled(with_defaults(m, point_defaults()), "positive"@), "negative"@),
        ),
        _ => p,
    }
}

fn empty_array() -> (j: Json)
    ensures
        j@ == JsonView::Array(Seq::empty()),
{
    let v: Vec<Json> = Vec::new();
    assert(views(v@) =~= Seq::<JsonView>::empty());
    array_of(v)
}

fn defaults_exec(which: bool) -> (r: Vec<(String, Json)>)
    ensures
        member_views(r@) == if which {
            point_defaults()
        } else {
            bucket_defaults()
        },
{
    let mut r: Vec<(String, Json)> = Vec::new();
    if which {
        r.push((string_of(chars_of("attributes").as_slice()), empty_array()));
        r.push((string_of(chars_of("startTimeUnixNano").as_slice()), Json::String(string_of(chars_of("0").as_slice()))));
        r.push((string_of(chars_of("count").as_slice()), Json::String(string_of(chars_of("0").as_slice()))));
        r.push((string_of(chars_of("scale").as_slice()), Json::Number(string_of(chars_of("0").as_slice()))));
        r.push((string_of(chars_of("zeroCount").as_slice()), Json::String(string_of(chars_of("0").as_slice()))));
        r.push((string_of(chars_of("flags").as_slice()), Json::Number(string_of(chars_of("0").as_slice()))));
        r.push((string_of(chars_of("exemplars").as_slice()), empty_array()));
        r.push((string_of(chars_of("zeroThreshold").as_slice()), Json::Number(string_of(chars_of("0.0").as_slice()))));
        assert(member_views(r@) =~= point_defaults());
    } else {
        r.push((string_of(chars_of("offset").as_slice()), Json::Number(string_of(chars_of("0").as_slice()))));
        r.push((string_of(chars_of("bucketCounts").as_slice()), empty_array()));
        assert(member_views(r@) =~= bucket_defaults());
    }
    r
}

fn member_at(members: &Vec<(String, Json)>, key: &str) -> (r: Option<usize>)
    ensures
        r matches Some(i) ==> i < members@.len() && member_of(member_views(members@), key@) == Some(
            members@[i as int].1@,
        ),
        r is None ==> member_of(member_views(members@), key@) is None,
{
    let ghost m = member_views(members@);
    let mut i: usize = 0;
    assert(m.skip(0) =~= m);
    while i < members.len()
        invariant
            i <= members@.len(),
            m == member_views(members@),
            member_of(m, key@) == member_of(m.skip(i as int), key@),
        decreases members@.len() - i,
    {
        assert(m.skip(i as int)[0] == m[i as int]);
        assert(m.skip(i as int).drop_first() =~= m.skip(i + 1));
        if crate::text::str_eq(members[i].0.as_str(), key) {
            return Some(i);
        }
        i = i + 1;
    }
    assert(m.skip(i as int) =~= Seq::<(Seq<char>, JsonView)>::empty());
    None
}

fn fill_defaults(members: &mut Vec<(String, Json)>, defaults: Vec<(String, Json)>)
    ensures
        member_views(final(members)@) == with_defaults(member_views(old(members)@), member_views(defaults@)),
{
    let ghost d = member_views(defaults@);
    let ghost m0 = member_views(members@);
    let mut rest = defaults;
    let mut i: usize = 0;
    let n = rest.len();
    assert(d.skip(0) =~= d);
    while i < n
        invariant
            n == d.len(),
            i <= n,
            member_views(rest@) == d.skip(i as int),
            with_defaults(m0, d) == with_defaults(member_views(members@), d.skip(i as int)),
        decreases n - i,
    {
        let (k, v) = rest.remove(0);
        let ghost before = member_views(members@);
        assert(d.skip(i as int)[0] == (k@, v@));
        assert(d.skip(i as int).drop_first() =~= d.skip(i + 1));
        assert(member_views(rest@) =~= d.skip(i + 1));
        if member_at(members, k.as_str()).is_none() {
            crate::json::insert_member(members, k, v);
        }
        assert(member_views(members@) == or_inserted(before, d.skip(i as int)[0].0, d.skip(i as int)[0].1));
        i = i + 1;
    }
    assert(d.skip(n as int) =~= Seq::<(Seq<char>, JsonView)>::empty());
}

fn fill_bucket(members: &mut Vec<(String, Json)>, side: &str)
    ensures
        member_views(final(members)@) == bucket_filled(member_views(old(members)@), side@),
{
    if let Some(i) = member_at(members, side) {
        let value = members[i].1.copy();
        let ghost seen = value@;
        match value {
            Json::Object(bucket) => {
                let mut bm = bucket;
                assert(member_views(bm@) =~= seen->Object_0);
                fill_defaults(&mut bm, defaults_exec(false));
                let filled = object_of(bm);
                crate::json::insert_member(members, string_of(chars_of(side).as_slice()), filled);
            },
            _ => {},
        }
    }
}

/// Completes an exponential histogram point for the decoder.
pub fn fill_exponential_histogram_defaults(point: &Json) -> (r: Json)
    ensures
        r@ == exponential_filled(point@),
{
    let c = point.copy();
    match c {
        Json::Object(members) => {
            let mut ms = members;
            assert(member_views(ms@) =~= point@->Object_0);
            fill_defaults(&mut ms, defaults_exec(true));
            fill_bucket(&mut ms, "positive");
            fill_bucket(&mut ms, "negative");
            object_of(ms)
        },
        _ => c,
    }
}

// ---------------------------------------------------------------------------
// Every data point of a payload
// ---------------------------------------------------------------------------

/// The data points of one point-carrying field, each rewritten, with their
/// fixups in order. Exponential histogram points are completed first.
pub open spec fn normalised_data_points(points: Seq<JsonView>, exponential: bool) -> (Seq<JsonView>, Seq<Fixup>)
    decreases points.len(),
{
    if points.len() == 0 {
        (Seq::empty(), Seq::empty())
    } else {
        let (ps, fs) = normalised_data_points(points.drop_last(), exponential);
        let p = if exponential {
            exponential_filled(points.last())
        } else {
            points.last()
        };
        let (q, f) = normalised_point(p);
        (ps.push(q), fs.push(f))
    }
}

/// The five point-carrying fields of a metric, in the order they are
/// visited. A metric carries exactly one, so this is also the order the
/// decoded message presents them in, which is what lets the fixups be
/// applied positionally.
pub open spec fn point_kinds() -> Seq<Seq<char>> {
    seq!["gauge"@, "sum"@, "histogram"@, "exponentialHistogram"@, "summary"@]
}

/// A metric with the data points under one kind rewritten.
pub open spec fn normalised_kind(metric: JsonView, kind: Seq<char>) -> (JsonView, Seq<Fixup>) {
    match metric.get(kind) {
        Some(k) => match k.get("dataPoints"@) {
            Some(JsonView::Array(points)) => {
                let (ps, fs) = normalised_data_points(points, kind == "exponentialHistogram"@);
                (with_member(metric, kind, with_member(k, "dataPoints"@, JsonView::Array(ps))), fs)
            },
            _ => (metric, Seq::empty()),
        },
        None => (metric, Seq::empty()),
    }
}

pub open spec fn normalised_kinds(metric: JsonView, kinds: Seq<Seq<char>>) -> (JsonView, Seq<Fixup>)
    decreases kinds.len(),
{
    if kinds.len() == 0 {
        (metric, Seq::empty())
    } else {
        let (m1, f1) = normalised_kind(metric, kinds[0]);
        let (m2, f2) = normalised_kinds(m1, kinds.drop_first());
        (m2, f1 + f2)
    }
}

pub open spec fn normalised_metrics(ms: Seq<JsonView>) -> (Seq<JsonView>, Seq<Fixup>)
    decreases ms.len(),
{
    if ms.len() == 0 {
        (Seq::empty(), Seq::empty())
    } else {
        let (xs, fs) = normalised_metrics(ms.drop_last());
        let (x, f) = normalised_kinds(ms.last(), point_kinds());
        (xs.push(x), fs + f)
    }
}

/// `v` with the array under `key` replaced by what `f` makes of it, when it
/// is an array; the fixups `f` returns.
pub open spec fn under(
    v: JsonView,
    key: Seq<char>,
    f: spec_fn(Seq<JsonView>) -> (Seq<JsonView>, Seq<Fixup>),
) -> (JsonView, Seq<Fixup>) {
    match v.get(key) {
        Some(JsonView::Array(items)) => {
            let (xs, fs) = f(items);
            (with_member(v, key, JsonView::Array(xs)), fs)
        },
        _ => (v, Seq::empty()),
    }
}

pub open spec fn normalised_scopes(ss: Seq<JsonView>) -> (Seq<JsonView>, Seq<Fixup>)
    decreases ss.len(),
{
    if ss.len() == 0 {
        (Seq::empty(), Seq::empty())
    } else {
        let (xs, fs) = normalised_scopes(ss.drop_last());
        let (x, f) = under(ss.last(), "metrics"@, |ms: Seq<JsonView>| normalised_metrics(ms));
        (xs.push(x), fs + f)
    }
}

pub open spec fn normalised_resources(rs: Seq<JsonView>) -> (Seq<JsonView>, Seq<Fixup>)
    decreases rs.len(),
{
    if rs.len() == 0 {
        (Seq::empty(), Seq::empty())
    } else {
        let (xs, fs) = normalised_resources(rs.drop_last());
        let (x, f) = under(rs.last(), "scopeMetrics"@, |ss: Seq<JsonView>| normalised_scopes(ss));
        (xs.push(x), fs + f)
    }
}

/// An OTLP metrics payload with every data point rewritten for the decoder,
/// and the fixups, one per data point in the order visited.
pub open spec fn normalised_document(doc: JsonView) -> (JsonView, Seq<Fixup>) {
    under(doc, "resourceMetrics"@, |rs: Seq<JsonView>| normalised_resources(rs))
}

fn normalise_data_points(points: &Vec<Json>, exponential: bool) -> (r: (Vec<Json>, Vec<Fixup>))
    ensures
        (views(r.0@), r.1@) == normalised_data_points(views(points@), exponential),
{
    let ghost all = views(points@);
    let mut out: Vec<Json> = Vec::new();
    let mut fixups: Vec<Fixup> = Vec::new();
    let mut i: usize = 0;
    while i < points.len()
        invariant
            i <= points@.len(),
            all == views(points@),
            (views(out@), fixups@) == normalised_data_points(all.take(i as int), exponential),
        decreases points@.len() - i,
    {
        assert(all.take(i + 1).drop_last() =~= all.take(i as int));
        assert(all.take(i + 1).last() == points@[i as int]@);
        let p = if exponential {
            fill_exponential_histogram_defaults(&points[i])
        } else {
            points[i].copy()
        };
        let (q, f) = normalise_point(&p);
        let ghost before = views(out@);
        out.push(q);
        fixups.push(f);
        assert(views(out@) =~= before.push(q@));
        i = i + 1;
    }
    assert(all.take(points@.len() as int) =~= all);
    (out, fixups)
}

fn normalise_kind(metric: Json, kind: &str) -> (r: (Json, Vec<Fixup>))
    ensures
        (r.0@, r.1@) == normalised_kind(metric@, kind@),
{
    proof {
        reveal_strlit("exponentialHistogram");
    }
    let rewritten = match metric.get(kind) {
        Some(k) => match k.get("dataPoints") {
            Some(Json::Array(points)) => {
                assert(k@.get("dataPoints"@) == Some(JsonView::Array(views(points@)))) by {
                    assert(Json::Array(*points)@->Array_0 =~= views(points@));
                }
                let exponential = crate::text::str_eq(kind, "exponentialHistogram");
                let (ps, fs) = normalise_data_points(points, exponential);
                let new_k = set_member(k, "dataPoints", array_of(ps));
                Some((set_member(&metric, kind, new_k), fs))
            },
            _ => None,
        },
        None => None,
    };
    match rewritten {
        Some(pair) => pair,
        None => (metric, Vec::new()),
    }
}

fn normalise_kinds(metric: Json) -> (r: (Json, Vec<Fixup>))
    ensures
        (r.0@, r.1@) == normalised_kinds(metric@, point_kinds()),
{
    let ghost kinds = point_kinds();
    let names: [&str; 5] = ["gauge", "sum", "histogram", "exponentialHistogram", "summary"];
    let mut m = metric;
    let mut fixups: Vec<Fixup> = Vec::new();
    let mut i: usize = 0;
    let ghost m0 = metric@;
    assert(kinds.skip(0) =~= kinds);
    while i < 5
        invariant
            i <= 5,
            kinds == point_kinds(),
            names@.len() == 5,
            forall|j: int| 0 <= j < 5 ==> #[trigger] names@[j]@ == kinds[j],
            normalised_kinds(m0, kinds) == ({
                let (mm, ff) = normalised_kinds(m@, kinds.skip(i as int));
                (mm, fixups@ + ff)
            }),
        decreases 5 - i,
    {
        assert(kinds.skip(i as int)[0] == kinds[i as int]);
        assert(kinds.skip(i as int).drop_first() =~= kinds.skip(i + 1));
        let (next, fs) = normalise_kind(m, names[i]);
        m = next;
        let mut fs = fs;
        fixups.append(&mut fs);
        i = i + 1;
    }
    assert(kinds.skip(5) =~= Seq::<Seq<char>>::empty());
    assert(fixups@ + Seq::<Fixup>::empty() =~= fixups@);
    (m, fixups)
}

fn normalise_metric_list(items: &Vec<Json>) -> (r: (Vec<Json>, Vec<Fixup>))
    ensures
        (views(r.0@), r.1@) == normalised_metrics(views(items@)),
{
    let ghost all = views(items@);
    let mut out: Vec<Json> = Vec::new();
    let mut fixups: Vec<Fixup> = Vec::new();
    let mut i: usize = 0;
    while i < items.len()
        invariant
            i <= items@.len(),
            all == views(items@),
            (views(out@), fixups@) == normalised_metrics(all.take(i as int)),
        decreases items@.len() - i,
    {
        assert(all.take(i + 1).drop_last() =~= all.take(i as int));
        assert(all.take(i + 1).last() == items@[i as int]@);
        let (x, f) = normalise_kinds(items[i].copy());
        let ghost before = views(out@);
        out.push(x);
        let mut f = f;
        fixups.append(&mut f);
        assert(views(out@) =~= before.push(x@));
        i = i + 1;
    }
    assert(all.take(items@.len() as int) =~= all);
    (out, fixups)
}

fn array_under<'a>(v: &'a Json, key: &str) -> (r: Option<&'a Vec<Json>>)
    ensures
        r matches Some(items) ==> v@.get(key@) == Some(JsonView::Array(views(items@))),
        r is None ==> !(v@.get(key@) matches Some(JsonView::Array(_))),
{
    match v.get(key) {
        Some(Json::Array(items)) => {
            assert(Json::Array(*items)@->Array_0 =~= views(items@));
            Some(items)
        },
        _ => None,
    }
}

fn normalise_scope_list(items: &Vec<Json>) -> (r: (Vec<Json>, Vec<Fixup>))
    ensures
        (views(r.0@), r.1@) == normalised_scopes(views(items@)),
{
    let ghost all = views(items@);
    let mut out: Vec<Json> = Vec::new();
    let mut fixups: Vec<Fixup> = Vec::new();
    let mut i: usize = 0;
    while i < items.len()
        invariant
            i <= items@.len(),
            all == views(items@),
            (views(out@), fixups@) == normalised_scopes(all.take(i as int)),
        decreases items@.len() - i,
    {
        assert(all.take(i + 1).drop_last() =~= all.take(i as int));
        assert(all.take(i + 1).last() == items@[i as int]@);
        let scope = &items[i];
        let (x, f) = match array_under(scope, "metrics") {
            Some(ms) => {
                let (xs, fs) = normalise_metric_list(ms);
                (set_member(scope, "metrics", array_of(xs)), fs)
            },
            None => (scope.copy(), Vec::new()),
        };
        let ghost before = views(out@);
        out.push(x);
        let mut f = f;
        fixups.append(&mut f);
        assert(views(out@) =~= before.push(x@));
        i = i + 1;
    }
    assert(all.take(items@.len() as int) =~= all);
    (out, fixups)
}

fn normalise_resource_list(items: &Vec<Json>) -> (r: (Vec<Json>, Vec<Fixup>))
    ensures
        (views(r.0@), r.1@) == normalised_resources(views(items@)),
{
    let ghost all = views(items@);
    let mut out: Vec<Json> = Vec::new();
    let mut fixups: Vec<Fixup> = Vec::new();
    let mut i: usize = 0;
    while i < items.len()
        invariant
            i <= items@.len(),
            all == views(items@),
            (views(out@), fixups@) == normalised_resources(all.take(i as int)),
        decreases items@.len() - i,
    {
        assert(all.take(i + 1).drop_last() =~= all.take(i as int));
        assert(all.take(i + 1).last() == items@[i as int]@);
        let resource = &items[i];
        let (x, f) = match array_under(resource, "scopeMetrics") {
            Some(ss) => {
                let (xs, fs) = normalise_scope_list(ss);
                (set_member(resource, "scopeMetrics", array_of(xs)), fs)
            },
            None => (resource.copy(), Vec::new()),
        };
        let ghost before = views(out@);
        out.push(x);
        let mut f = f;
        fixups.append(&mut f);
        assert(views(out@) =~= before.push(x@));
        i = i + 1;
    }
    assert(all.take(items@.len() as int) =~= all);
    (out, fixups)
}

/// Rewrites every data point of an OTLP metrics payload into a form the
/// decoder accepts, and returns what has to be put back afterwards, one
/// entry per data point in the order visited.
pub fn normalise_points(document: &mut Json) -> (fixups: Vec<Fixup>)
    ensures
        (final(document)@, fixups@) == normalised_document(old(document)@),
{
    let rewritten = match array_under(document, "resourceMetrics") {
        Some(rs) => {
            let (xs, fs) = normalise_resource_list(rs);
            Some((set_member(document, "resourceMetrics", array_of(xs)), fs))
        },
        None => None,
    };
    match rewritten {
        Some((doc, fs)) => {
            *document = doc;
            fs
        },
        None => Vec::new(),
    }
}

} // verus!

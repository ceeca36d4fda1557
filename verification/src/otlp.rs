//! Reading logical fields out of an OTLP/JSON payload.
//!
//! A check names the fields that must survive the round trip (`body`,
//! `severityText`, …). Those names are the OTLP ones, not any backend's
//! column names, so the same check can be pointed at any backend and the
//! adapter is responsible for saying where it keeps each one.

use vstd::prelude::*;
use crate::json::{Json, JsonView, member_of, strip_prefix, inserted, opt_view, opt_owned_view};

verus! {

// ---------------------------------------------------------------------------
// Shapes shared by the three signals
// ---------------------------------------------------------------------------

/// `v.get(key)?.as_array()?.first()`.
pub open spec fn first_in(v: JsonView, key: Seq<char>) -> Option<JsonView> {
    match v.get(key) {
        Some(a) => a.at(0),
        None => None,
    }
}

/// The first of `keys` that `v` has a member for, and that member.
pub open spec fn first_field(v: JsonView, keys: Seq<Seq<char>>) -> Option<JsonView>
    decreases keys.len(),
{
    if keys.len() == 0 {
        None
    } else {
        match v.get(keys[0]) {
            Some(x) => Some(x),
            None => first_field(v, keys.drop_first()),
        }
    }
}

pub open spec fn any_value_keys() -> Seq<Seq<char>> {
    seq![
        "stringValue"@,
        "boolValue"@,
        "intValue"@,
        "doubleValue"@,
        "bytesValue"@,
        "arrayValue"@,
        "kvlistValue"@,
    ]
}

/// The value an OTLP `AnyValue` carries; an `AnyValue` with nothing set is
/// `null`, and anything that is not an object is nothing.
pub open spec fn any_value_of(v: JsonView) -> Option<JsonView> {
    match v {
        JsonView::Object(_) => match first_field(v, any_value_keys()) {
            Some(x) => Some(x),
            None => Some(JsonView::Null),
        },
        _ => None,
    }
}

/// `v` has a member `field` that is the string `expected`.
pub open spec fn keyed(v: JsonView, field: Seq<char>, expected: Seq<char>) -> bool {
    match v.get(field) {
        Some(JsonView::String(s)) => s == expected,
        _ => false,
    }
}

/// The first item whose member `field` is the string `expected`.
pub open spec fn find_by(items: Seq<JsonView>, field: Seq<char>, expected: Seq<char>) -> Option<JsonView>
    decreases items.len(),
{
    if items.len() == 0 {
        None
    } else if keyed(items[0], field, expected) {
        Some(items[0])
    } else {
        find_by(items.drop_first(), field, expected)
    }
}

/// The attribute `key` of an attribute list, unwrapped from its `AnyValue`.
pub open spec fn attribute_of(attributes: JsonView, key: Seq<char>) -> Option<JsonView> {
    match attributes {
        JsonView::Array(items) => match find_by(items, "key"@, key) {
            Some(kv) => match kv.get("value"@) {
                Some(val) => any_value_of(val),
                None => None,
            },
            None => None,
        },
        _ => None,
    }
}

fn first_in_exec<'a>(v: &'a Json, key: &str) -> (r: Option<&'a Json>)
    ensures
        opt_view(r) == first_in(v@, key@),
{
    match v.get(key) {
        Some(a) => a.at(0),
        None => None,
    }
}

fn first_field_exec<'a>(v: &'a Json, keys: &Vec<&str>) -> (r: Option<&'a Json>)
    ensures
        opt_view(r) == first_field(v@, keys@.map_values(|k: &str| k@)),
{
    let ghost ks = keys@.map_values(|k: &str| k@);
    let mut i: usize = 0;
    assert(ks.skip(0) =~= ks);
    while i < keys.len()
        invariant
            i <= keys@.len(),
            ks == keys@.map_values(|k: &str| k@),
            first_field(v@, ks) == first_field(v@, ks.skip(i as int)),
        decreases keys@.len() - i,
    {
        assert(ks.skip(i as int)[0] == keys@[i as int]@);
        assert(ks.skip(i as int).drop_first() =~= ks.skip(i + 1));
        let found = v.get(keys[i]);
        if found.is_some() {
            return found;
        }
        i = i + 1;
    }
    None
}

/// Unwraps an OTLP `AnyValue` to the value inside it.
pub fn any_value(value: &Json) -> (r: Option<Json>)
    ensures
        opt_owned_view(r) == any_value_of(value@),
{
    match value {
        Json::Object(_) => {
            let keys = vec![
                "stringValue",
                "boolValue",
                "intValue",
                "doubleValue",
                "bytesValue",
                "arrayValue",
                "kvlistValue",
            ];
            assert(keys@.map_values(|k: &str| k@) =~= any_value_keys());
            match first_field_exec(value, &keys) {
                Some(inner) => Some(inner.copy()),
                None => Some(Json::Null),
            }
        },
        _ => None,
    }
}

pub(crate) fn keyed_exec(v: &Json, field: &str, expected: &str) -> (b: bool)
    ensures
        b == keyed(v@, field@, expected@),
{
    match v.get(field) {
        Some(Json::String(s)) => crate::text::str_eq(s.as_str(), expected),
        _ => false,
    }
}

pub(crate) fn find_by_exec<'a>(items: &'a Vec<Json>, field: &str, expected: &str) -> (r: Option<&'a Json>)
    ensures
        opt_view(r) == find_by(items@.map_values(|j: Json| j@), field@, expected@),
{
    let ghost s = items@.map_values(|j: Json| j@);
    let mut i: usize = 0;
    assert(s.skip(0) =~= s);
    while i < items.len()
        invariant
            i <= items@.len(),
            s == items@.map_values(|j: Json| j@),
            find_by(s, field@, expected@) == find_by(s.skip(i as int), field@, expected@),
        decreases items@.len() - i,
    {
        assert(s.skip(i as int)[0] == items@[i as int]@);
        assert(s.skip(i as int).drop_first() =~= s.skip(i + 1));
        if keyed_exec(&items[i], field, expected) {
            return Some(&items[i]);
        }
        i = i + 1;
    }
    None
}

proof fn lemma_array_items(v: JsonView, items: Seq<Json>)
    requires
        v == JsonView::Array(Seq::new(items.len(), |i: int| items[i]@)),
    ensures
        v->Array_0 == items.map_values(|j: Json| j@),
{
    assert(v->Array_0 =~= items.map_values(|j: Json| j@));
}

fn attribute(attributes: &Json, key: &str) -> (r: Option<Json>)
    ensures
        opt_owned_view(r) == attribute_of(attributes@, key@),
{
    match attributes.as_array() {
        Some(items) => {
            proof {
                lemma_array_items(attributes@, items@);
            }
            match find_by_exec(items, "key", key) {
                Some(kv) => match kv.get("value") {
                    Some(val) => any_value(val),
                    None => None,
                },
                None => None,
            }
        },
        None => None,
    }
}

// ---------------------------------------------------------------------------
// Logs
// ---------------------------------------------------------------------------

pub open spec fn first_log_record(payload: JsonView) -> Option<JsonView> {
    match first_in(payload, "resourceLogs"@) {
        Some(r) => match first_in(r, "scopeLogs"@) {
            Some(s) => first_in(s, "logRecords"@),
            None => None,
        },
        None => None,
    }
}

/// A logical field of the first log record: `body` through its `AnyValue`,
/// the snake-case spellings of the three named fields as their camel-case
/// ones, `attributes.<key>` from the record's attributes, and anything else
/// as the record's member of that name.
pub open spec fn log_field(payload: JsonView, field: Seq<char>) -> Option<JsonView> {
    match first_log_record(payload) {
        None => None,
        Some(r) => if field == "body"@ {
            match r.get("body"@) {
                Some(b) => any_value_of(b),
                None => None,
            }
        } else if field == "severityText"@ || field == "severity_text"@ {
            r.get("severityText"@)
        } else if field == "severityNumber"@ || field == "severity_number"@ {
            r.get("severityNumber"@)
        } else if field == "timeUnixNano"@ || field == "time_unix_nano"@ {
            r.get("timeUnixNano"@)
        } else {
            match strip_prefix(field, "attributes."@) {
                Some(key) => match r.get("attributes"@) {
                    Some(a) => attribute_of(a, key),
                    None => None,
                },
                None => r.get(field),
            }
        },
    }
}

fn first_log_record_exec(payload: &Json) -> (r: Option<&Json>)
    ensures
        opt_view(r) == first_log_record(payload@),
{
    let r = first_in_exec(payload, "resourceLogs");
    match r {
        Some(r) => match first_in_exec(r, "scopeLogs") {
            Some(s) => first_in_exec(s, "logRecords"),
            None => None,
        },
        None => None,
    }
}

fn eq2(field: &str, a: &str, b: &str) -> (r: bool)
    ensures
        r == (field@ == a@ || field@ == b@),
{
    crate::text::str_eq(field, a) || crate::text::str_eq(field, b)
}

/// Extracts a logical field from an OTLP/JSON logs payload.
///
/// Returns `None` when the field is absent, which is a meaningful answer: a
/// check comparing an absent field against an absent field passes.
pub fn logical_field(payload: &Json, field: &str) -> (r: Option<Json>)
    ensures
        opt_owned_view(r) == log_field(payload@, field@),
{
    let record = match first_log_record_exec(payload) {
        Some(rec) => rec,
        None => {
            return None;
        },
    };
    if crate::text::str_eq(field, "body") {
        match record.get("body") {
            Some(b) => any_value(b),
            None => None,
        }
    } else if eq2(field, "severityText", "severity_text") {
        crate::json::cloned(record.get("severityText"))
    } else if eq2(field, "severityNumber", "severity_number") {
        crate::json::cloned(record.get("severityNumber"))
    } else if eq2(field, "timeUnixNano", "time_unix_nano") {
        crate::json::cloned(record.get("timeUnixNano"))
    } else {
        match crate::json::strip_prefix_exec(field, "attributes.") {
            Some(key) => match record.get("attributes") {
                Some(a) => attribute(a, key.as_str()),
                None => None,
            },
            None => crate::json::cloned(record.get(field)),
        }
    }
}

// ---------------------------------------------------------------------------
// Traces
// ---------------------------------------------------------------------------

pub open spec fn first_span(payload: JsonView) -> Option<JsonView> {
    match first_in(payload, "resourceSpans"@) {
        Some(r) => match first_in(r, "scopeSpans"@) {
            Some(s) => first_in(s, "spans"@),
            None => None,
        },
        None => None,
    }
}

/// `v.get(a)?.get(b)`.
pub open spec fn get2(v: JsonView, a: Seq<char>, b: Seq<char>) -> Option<JsonView> {
    match v.get(a) {
        Some(x) => x.get(b),
        None => None,
    }
}

/// `v.get(a)?.as_array()?.first()?.get(b)`.
pub open spec fn first_then(v: JsonView, a: Seq<char>, b: Seq<char>) -> Option<JsonView> {
    match first_in(v, a) {
        Some(x) => x.get(b),
        None => None,
    }
}

/// A logical field of the first span: the dotted paths `status.code`,
/// `status.message`, `events.0.name`, `events.0.timeUnixNano` and
/// `links.0.traceId`, `attributes.<key>` from the span's attributes, and
/// anything else as the span's member of that name.
pub open spec fn trace_field(payload: JsonView, field: Seq<char>) -> Option<JsonView> {
    match first_span(payload) {
        None => None,
        Some(span) => if field == "status.code"@ {
            get2(span, "status"@, "code"@)
        } else if field == "status.message"@ {
            get2(span, "status"@, "message"@)
        } else if field == "events.0.name"@ {
            first_then(span, "events"@, "name"@)
        } else if field == "events.0.timeUnixNano"@ {
            first_then(span, "events"@, "timeUnixNano"@)
        } else if field == "links.0.traceId"@ {
            first_then(span, "links"@, "traceId"@)
        } else {
            match strip_prefix(field, "attributes."@) {
                Some(key) => match span.get("attributes"@) {
                    Some(a) => attribute_of(a, key),
                    None => None,
                },
                None => span.get(field),
            }
        },
    }
}

fn first_span_exec(payload: &Json) -> (r: Option<&Json>)
    ensures
        opt_view(r) == first_span(payload@),
{
    match first_in_exec(payload, "resourceSpans") {
        Some(r) => match first_in_exec(r, "scopeSpans") {
            Some(s) => first_in_exec(s, "spans"),
            None => None,
        },
        None => None,
    }
}

fn get2_exec<'a>(v: &'a Json, a: &str, b: &str) -> (r: Option<&'a Json>)
    ensures
        opt_view(r) == get2(v@, a@, b@),
{
    match v.get(a) {
        Some(x) => x.get(b),
        None => None,
    }
}

fn first_then_exec<'a>(v: &'a Json, a: &str, b: &str) -> (r: Option<&'a Json>)
    ensures
        opt_view(r) == first_then(v@, a@, b@),
{
    match first_in_exec(v, a) {
        Some(x) => x.get(b),
        None => None,
    }
}

/// Reads a field out of an OTLP traces payload: the first span of the first
/// scope of the first resource.
pub fn span_field(payload: &Json, field: &str) -> (r: Option<Json>)
    ensures
        opt_owned_view(r) == trace_field(payload@, field@),
{
    let span = match first_span_exec(payload) {
        Some(s) => s,
        None => {
            return None;
        },
    };
    if crate::text::str_eq(field, "status.code") {
        crate::json::cloned(get2_exec(span, "status", "code"))
    } else if crate::text::str_eq(field, "status.message") {
        crate::json::cloned(get2_exec(span, "status", "message"))
    } else if crate::text::str_eq(field, "events.0.name") {
        crate::json::cloned(first_then_exec(span, "events", "name"))
    } else if crate::text::str_eq(field, "events.0.timeUnixNano") {
        crate::json::cloned(first_then_exec(span, "events", "timeUnixNano"))
    } else if crate::text::str_eq(field, "links.0.traceId") {
        crate::json::cloned(first_then_exec(span, "links", "traceId"))
    } else {
        match crate::json::strip_prefix_exec(field, "attributes.") {
            Some(key) => match span.get("attributes") {
                Some(a) => attribute(a, key.as_str()),
                None => None,
            },
            None => crate::json::cloned(span.get(field)),
        }
    }
}

} // verus!

verus! {

// ---------------------------------------------------------------------------
// Metrics
// ---------------------------------------------------------------------------

/// The array `v` holds under `key`, or nothing.
pub open spec fn array_field(v: JsonView, key: Seq<char>) -> Seq<JsonView> {
    match v.get(key) {
        Some(JsonView::Array(a)) => a,
        _ => Seq::empty(),
    }
}

/// The arrays each item holds under `key`, one after another; an item
/// without one adds nothing.
pub open spec fn flat_field(items: Seq<JsonView>, key: Seq<char>) -> Seq<JsonView>
    decreases items.len(),
{
    if items.len() == 0 {
        Seq::empty()
    } else {
        flat_field(items.drop_last(), key) + array_field(items.last(), key)
    }
}

/// Every metric of the payload, resource by resource and scope by scope.
pub open spec fn metrics_in(payload: JsonView) -> Option<Seq<JsonView>> {
    match payload.get("resourceMetrics"@) {
        Some(JsonView::Array(rs)) => Some(flat_field(flat_field(rs, "scopeMetrics"@), "metrics"@)),
        _ => None,
    }
}

/// The metric a check reads: the one with the given name, or with no name
/// given the only one there is; several and no name reads nothing.
pub open spec fn chosen_metric(payload: JsonView, name: Option<Seq<char>>) -> Option<JsonView> {
    match metrics_in(payload) {
        None => None,
        Some(ms) => match name {
            Some(n) => find_by(ms, "name"@, n),
            None => if ms.len() == 1 {
                Some(ms[0])
            } else {
                None
            },
        },
    }
}

pub open spec fn point_kinds() -> Seq<Seq<char>> {
    seq!["gauge"@, "sum"@, "histogram"@, "exponentialHistogram"@, "summary"@]
}

/// The first data point under the first of `kinds` the metric has
/// `dataPoints` for.
pub open spec fn first_point_in(metric: JsonView, kinds: Seq<Seq<char>>) -> Option<JsonView>
    decreases kinds.len(),
{
    if kinds.len() == 0 {
        None
    } else {
        match get2(metric, kinds[0], "dataPoints"@) {
            Some(points) => points.at(0),
            None => first_point_in(metric, kinds.drop_first()),
        }
    }
}

pub open spec fn first_point(metric: JsonView) -> Option<JsonView> {
    first_point_in(metric, point_kinds())
}

/// A point's value, from whichever of `asDouble`, `asInt` and `count` it
/// carries first.
pub open spec fn point_value(point: JsonView) -> Option<JsonView> {
    first_field(point, seq!["asDouble"@, "asInt"@, "count"@])
}

/// A point's attributes as a flat map, in order, later keys replacing
/// earlier ones; an attribute with no `key` member makes the whole reading
/// nothing, one whose key is not a string or whose value is missing is
/// skipped.
pub open spec fn labels_of(kvs: Seq<JsonView>) -> Option<Seq<(Seq<char>, JsonView)>>
    decreases kvs.len(),
{
    if kvs.len() == 0 {
        Some(Seq::empty())
    } else {
        match labels_of(kvs.drop_last()) {
            None => None,
            Some(m) => {
                let kv = kvs.last();
                match kv.get("key"@) {
                    None => None,
                    Some(k) => match (k.as_str(), match kv.get("value"@) {
                        Some(v) => any_value_of(v),
                        None => None,
                    }) {
                        (Some(key), Some(val)) => Some(inserted(m, key, val)),
                        _ => Some(m),
                    },
                }
            },
        }
    }
}

/// A point's value, through `first_point`.
pub open spec fn point_member(metric: JsonView, key: Seq<char>) -> Option<JsonView> {
    match first_point(metric) {
        Some(p) => p.get(key),
        None => None,
    }
}

/// A logical field of the chosen metric: `value` from its first point
/// whatever shape carries it, `count`, `sum`, `bucketCounts`,
/// `explicitBounds` and `timeUnixNano` from its first point, `labels` as the
/// first point's attributes flattened, `attributes.<key>` from the first
/// point's attributes, and anything else as the metric's member.
pub open spec fn metric_reading(payload: JsonView, field: Seq<char>, metric: Option<Seq<char>>) -> Option<JsonView> {
    match chosen_metric(payload, metric) {
        None => None,
        Some(chosen) => if field == "value"@ {
            match first_point(chosen) {
                Some(p) => point_value(p),
                None => None,
            }
        } else if field == "count"@ || field == "sum"@ || field == "bucketCounts"@
            || field == "explicitBounds"@ || field == "timeUnixNano"@ {
            point_member(chosen, field)
        } else if field == "labels"@ {
            match point_member(chosen, "attributes"@) {
                Some(JsonView::Array(kvs)) => match labels_of(kvs) {
                    Some(m) => Some(JsonView::Object(m)),
                    None => None,
                },
                _ => None,
            }
        } else {
            match strip_prefix(field, "attributes."@) {
                Some(key) => match point_member(chosen, "attributes"@) {
                    Some(a) => attribute_of(a, key),
                    None => None,
                },
                None => chosen.get(field),
            }
        },
    }
}

pub open spec fn ref_views(v: Seq<&Json>) -> Seq<JsonView> {
    v.map_values(|r: &Json| r@)
}

/// Appends the array `v` holds under `key`.
fn push_array_field<'a>(out: &mut Vec<&'a Json>, v: &'a Json, key: &str)
    ensures
        ref_views(final(out)@) == ref_views(old(out)@) + array_field(v@, key@),
{
    let ghost start = ref_views(out@);
    match v.get(key) {
        Some(a) => match a.as_array() {
            Some(items) => {
                proof {
                    lemma_array_items(a@, items@);
                }
                let mut i: usize = 0;
                while i < items.len()
                    invariant
                        i <= items@.len(),
                        a@ == JsonView::Array(items@.map_values(|j: Json| j@)),
                        v@.get(key@) == Some(a@),
                        ref_views(out@) == start + items@.map_values(|j: Json| j@).take(i as int),
                    decreases items@.len() - i,
                {
                    let ghost before = ref_views(out@);
                    out.push(&items[i]);
                    assert(ref_views(out@) =~= before.push(items@[i as int]@));
                    assert(items@.map_values(|j: Json| j@).take(i + 1) =~= items@.map_values(
                        |j: Json| j@,
                    ).take(i as int).push(items@[i as int]@));
                    i = i + 1;
                }
                assert(items@.map_values(|j: Json| j@).take(items@.len() as int) =~= items@.map_values(
                    |j: Json| j@,
                ));
            },
            None => {
                assert(ref_views(out@) =~= start + Seq::<JsonView>::empty());
            },
        },
        None => {
            assert(ref_views(out@) =~= start + Seq::<JsonView>::empty());
        },
    }
}

fn flat_field_exec<'a>(items: &Vec<&'a Json>, key: &str) -> (r: Vec<&'a Json>)
    ensures
        ref_views(r@) == flat_field(ref_views(items@), key@),
{
    let ghost s = ref_views(items@);
    let mut out: Vec<&'a Json> = Vec::new();
    let mut i: usize = 0;
    assert(s.take(0) =~= Seq::<JsonView>::empty());
    while i < items.len()
        invariant
            i <= items@.len(),
            s == ref_views(items@),
            ref_views(out@) == flat_field(s.take(i as int), key@),
        decreases items@.len() - i,
    {
        assert(s.take(i + 1).drop_last() =~= s.take(i as int));
        assert(s.take(i + 1).last() == items@[i as int]@);
        push_array_field(&mut out, items[i], key);
        i = i + 1;
    }
    assert(s.take(items@.len() as int) =~= s);
    out
}

fn find_by_refs<'a>(items: &Vec<&'a Json>, field: &str, expected: &str) -> (r: Option<&'a Json>)
    ensures
        opt_view(r) == find_by(ref_views(items@), field@, expected@),
{
    let ghost s = ref_views(items@);
    let mut i: usize = 0;
    assert(s.skip(0) =~= s);
    while i < items.len()
        invariant
            i <= items@.len(),
            s == ref_views(items@),
            find_by(s, field@, expected@) == find_by(s.skip(i as int), field@, expected@),
        decreases items@.len() - i,
    {
        assert(s.skip(i as int)[0] == items@[i as int]@);
        assert(s.skip(i as int).drop_first() =~= s.skip(i + 1));
        if keyed_exec(items[i], field, expected) {
            return Some(items[i]);
        }
        i = i + 1;
    }
    None
}

pub open spec fn opt_str_view(n: Option<&str>) -> Option<Seq<char>> {
    match n {
        Some(s) => Some(s@),
        None => None,
    }
}

fn find_metric<'a>(payload: &'a Json, name: Option<&str>) -> (r: Option<&'a Json>)
    ensures
        opt_view(r) == chosen_metric(payload@, opt_str_view(name)),
{
    let resources = match payload.get("resourceMetrics") {
        Some(a) => match a.as_array() {
            Some(items) => {
                proof {
                    lemma_array_items(a@, items@);
                }
                items
            },
            None => {
                return None;
            },
        },
        None => {
            return None;
        },
    };
    let mut refs: Vec<&'a Json> = Vec::new();
    let mut i: usize = 0;
    while i < resources.len()
        invariant
            i <= resources@.len(),
            ref_views(refs@) == resources@.map_values(|j: Json| j@).take(i as int),
        decreases resources@.len() - i,
    {
        let ghost before = ref_views(refs@);
        refs.push(&resources[i]);
        assert(ref_views(refs@) =~= before.push(resources@[i as int]@));
        assert(resources@.map_values(|j: Json| j@).take(i + 1) =~= resources@.map_values(
            |j: Json| j@,
        ).take(i as int).push(resources@[i as int]@));
        i = i + 1;
    }
    assert(resources@.map_values(|j: Json| j@).take(resources@.len() as int) =~= resources@.map_values(
        |j: Json| j@,
    ));
    let scopes = flat_field_exec(&refs, "scopeMetrics");
    let metrics = flat_field_exec(&scopes, "metrics");
    match name {
        Some(n) => find_by_refs(&metrics, "name", n),
        None => if metrics.len() == 1 {
            Some(metrics[0])
        } else {
            None
        },
    }
}

fn first_point_exec(metric: &Json) -> (r: Option<&Json>)
    ensures
        opt_view(r) == first_point(metric@),
{
    let kinds = vec!["gauge", "sum", "histogram", "exponentialHistogram", "summary"];
    let ghost ks = kinds@.map_values(|k: &str| k@);
    assert(ks =~= point_kinds());
    let mut i: usize = 0;
    assert(ks.skip(0) =~= ks);
    while i < kinds.len()
        invariant
            i <= kinds@.len(),
            ks == kinds@.map_values(|k: &str| k@),
            ks == point_kinds(),
            first_point_in(metric@, ks) == first_point_in(metric@, ks.skip(i as int)),
        decreases kinds@.len() - i,
    {
        assert(ks.skip(i as int)[0] == kinds@[i as int]@);
        assert(ks.skip(i as int).drop_first() =~= ks.skip(i + 1));
        match get2_exec(metric, kinds[i], "dataPoints") {
            Some(points) => {
                assert(first_point_in(metric@, ks.skip(i as int)) == points@.at(0));
                return points.at(0);
            },
            None => {},
        }
        i = i + 1;
    }
    None
}

fn point_member_exec<'a>(metric: &'a Json, key: &str) -> (r: Option<&'a Json>)
    ensures
        opt_view(r) == point_member(metric@, key@),
{
    match first_point_exec(metric) {
        Some(p) => p.get(key),
        None => None,
    }
}

fn labels_exec(kvs: &Vec<Json>) -> (r: Option<Vec<(String, Json)>>)
    ensures
        r matches Some(m) ==> labels_of(kvs@.map_values(|j: Json| j@)) == Some(
            crate::json::member_views(m@),
        ),
        r is None ==> labels_of(kvs@.map_values(|j: Json| j@)) is None,
{
    let ghost s = kvs@.map_values(|j: Json| j@);
    let mut map: Vec<(String, Json)> = Vec::new();
    let mut i: usize = 0;
    assert(s.take(0) =~= Seq::<JsonView>::empty());
    assert(crate::json::member_views(map@) =~= Seq::<(Seq<char>, JsonView)>::empty());
    while i < kvs.len()
        invariant
            i <= kvs@.len(),
            s == kvs@.map_values(|j: Json| j@),
            labels_of(s.take(i as int)) == Some(crate::json::member_views(map@)),
        decreases kvs@.len() - i,
    {
        let ghost t = s.take(i + 1);
        assert(t.drop_last() =~= s.take(i as int));
        assert(t.last() == kvs@[i as int]@);
        let kv = &kvs[i];
        let key = match kv.get("key") {
            Some(k) => k,
            None => {
                proof {
                    lemma_labels_none_extends(s, i as int + 1);
                }
                return None;
            },
        };
        let value = match kv.get("value") {
            Some(v) => any_value(v),
            None => None,
        };
        match (key.as_str(), value) {
            (Some(k), Some(v)) => {
                crate::json::insert_member(&mut map, crate::text::string_of(crate::text::chars_of(k).as_slice()), v);
            },
            _ => {},
        }
        i = i + 1;
    }
    assert(s.take(kvs@.len() as int) =~= s);
    Some(map)
}

/// Once a prefix reads as nothing, every longer one does.
proof fn lemma_labels_none_extends(s: Seq<JsonView>, n: int)
    requires
        0 <= n <= s.len(),
        labels_of(s.take(n)) is None,
    ensures
        labels_of(s) is None,
    decreases s.len() - n,
{
    if n < s.len() {
        assert(s.take(n + 1).drop_last() =~= s.take(n));
        lemma_labels_none_extends(s, n + 1);
    } else {
        assert(s.take(n) =~= s);
    }
}

/// Reads a field out of an OTLP metrics payload: the first data point of the
/// named metric, or of the only metric when a check names none.
pub fn metric_field(payload: &Json, field: &str, metric: Option<&str>) -> (r: Option<Json>)
    ensures
        opt_owned_view(r) == metric_reading(payload@, field@, opt_str_view(metric)),
{
    let chosen = match find_metric(payload, metric) {
        Some(c) => c,
        None => {
            return None;
        },
    };
    if crate::text::str_eq(field, "value") {
        match first_point_exec(chosen) {
            Some(p) => {
                let keys = vec!["asDouble", "asInt", "count"];
                assert(keys@.map_values(|k: &str| k@) =~= seq!["asDouble"@, "asInt"@, "count"@]);
                crate::json::cloned(first_field_exec(p, &keys))
            },
            None => None,
        }
    } else if crate::text::str_eq(field, "count") || crate::text::str_eq(field, "sum")
        || crate::text::str_eq(field, "bucketCounts") || crate::text::str_eq(field, "explicitBounds")
        || crate::text::str_eq(field, "timeUnixNano") {
        crate::json::cloned(point_member_exec(chosen, field))
    } else if crate::text::str_eq(field, "labels") {
        match point_member_exec(chosen, "attributes") {
            Some(attrs) => match attrs.as_array() {
                Some(kvs) => {
                    proof {
                        lemma_array_items(attrs@, kvs@);
                    }
                    match labels_exec(kvs) {
                        Some(m) => {
                            let r = Json::Object(m);
                            assert(r@ == JsonView::Object(crate::json::member_views(m@))) by {
                                assert(r@->Object_0 =~= crate::json::member_views(m@));
                            }
                            Some(r)
                        },
                        None => None,
                    }
                },
                None => None,
            },
            None => None,
        }
    } else {
        match crate::json::strip_prefix_exec(field, "attributes.") {
            Some(key) => match point_member_exec(chosen, "attributes") {
                Some(a) => attribute(a, key.as_str()),
                None => None,
            },
            None => crate::json::cloned(chosen.get(field)),
        }
    }
}

} // verus!

verus! {

// ---------------------------------------------------------------------------
// What a store said when it took the write
// ---------------------------------------------------------------------------

/// The report a store returned alongside a 2xx on an OTLP export: how many
/// records it says it dropped, its message, and, when the body was not in
/// the encoding the request used, what was wrong with it.
#[derive(Debug, Clone, PartialEq)]
pub struct ExportReport {
    pub rejected: i64,
    pub message: String,
    /// Set when the response body is not in the encoding the request used.
    pub encoding_mismatch: Option<String>,
}

pub type ReportView = (int, Seq<char>, Option<Seq<char>>);

pub open spec fn opt_string_view(o: Option<String>) -> Option<Seq<char>> {
    match o {
        Some(s) => Some(s@),
        None => None,
    }
}

impl ExportReport {
    pub open spec fn report_view(&self) -> ReportView {
        (self.rejected as int, self.message@, opt_string_view(self.encoding_mismatch))
    }
}

pub open spec fn opt_report(r: Option<ExportReport>) -> Option<ReportView> {
    match r {
        Some(x) => Some(x.report_view()),
        None => None,
    }
}

/// `s` ends with `p`.
pub open spec fn ends_with(s: Seq<char>, p: Seq<char>) -> bool {
    p.len() <= s.len() && s.skip(s.len() - p.len()) == p
}

fn ends_with_exec(s: &str, p: &str) -> (b: bool)
    ensures
        b == ends_with(s@, p@),
{
    let sc = crate::text::chars_of(s);
    let pc = crate::text::chars_of(p);
    if pc.len() > sc.len() {
        return false;
    }
    let b = crate::text::chars_at(sc.as_slice(), sc.len() - pc.len(), pc.as_slice());
    assert(sc@.subrange(sc@.len() - pc@.len(), sc@.len() as int) =~= sc@.skip(sc@.len() - pc@.len()));
    b
}

/// A count as proto3 JSON may write it: a number, or a string holding one.
pub open spec fn count_of(v: JsonView) -> Option<int> {
    match v {
        JsonView::Number(t) => crate::json::number_i64(t),
        JsonView::String(s) => crate::text::parse_signed(s, i64::MIN as int, i64::MAX as int),
        _ => None,
    }
}

fn number_from(v: &Json) -> (r: Option<i64>)
    ensures
        r matches Some(n) ==> count_of(v@) == Some(n as int),
        r is None ==> count_of(v@) is None,
{
    match v {
        Json::Number(_) => v.as_i64(),
        Json::String(s) => crate::text::parse_i64(crate::text::chars_of(s.as_str()).as_slice()),
        _ => None,
    }
}

/// The count field's two spellings for a protocol.
pub open spec fn rejected_keys(protocol: Seq<char>) -> (Seq<char>, Seq<char>) {
    if protocol == "otlp-metrics"@ {
        ("rejectedDataPoints"@, "rejected_data_points"@)
    } else if protocol == "otlp-traces"@ {
        ("rejectedSpans"@, "rejected_spans"@)
    } else {
        ("rejectedLogRecords"@, "rejected_log_records"@)
    }
}

/// `v.get(a)`, or failing that `v.get(b)`.
pub open spec fn get_either(v: JsonView, a: Seq<char>, b: Seq<char>) -> Option<JsonView> {
    match v.get(a) {
        Some(x) => Some(x),
        None => v.get(b),
    }
}

/// The report a JSON response body carries.
pub open spec fn json_report(protocol: Seq<char>, expected_json: bool, value: JsonView) -> Option<ReportView> {
    match get_either(value, "partialSuccess"@, "partial_success"@) {
        None => None,
        Some(partial) => {
            let keys = rejected_keys(protocol);
            let rejected = match get_either(partial, keys.0, keys.1) {
                Some(c) => match count_of(c) {
                    Some(n) => n,
                    None => 0,
                },
                None => 0,
            };
            let message = match get_either(partial, "errorMessage"@, "error_message"@) {
                Some(JsonView::String(m)) => m,
                _ => Seq::empty(),
            };
            let mismatch = if expected_json {
                None
            } else {
                Some("request was protobuf, response body is JSON"@)
            };
            Some((rejected, message, mismatch))
        },
    }
}

/// What prost makes of a body as an `ExportLogsServiceResponse`: nothing
/// when it does not decode, otherwise its `partial_success`, as the rejected
/// count and the message.
pub uninterp spec fn logs_response(body: Seq<u8>) -> Option<Option<(i64, Seq<char>)>>;

/// The same, as an `ExportMetricsServiceResponse`.
pub uninterp spec fn metrics_response(body: Seq<u8>) -> Option<Option<(i64, Seq<char>)>>;

/// The same, as an `ExportTraceServiceResponse`.
pub uninterp spec fn traces_response(body: Seq<u8>) -> Option<Option<(i64, Seq<char>)>>;

pub open spec fn decoded_view(r: Option<Option<(i64, String)>>) -> Option<Option<(i64, Seq<char>)>> {
    match r {
        Some(Some((n, m))) => Some(Some((n, m@))),
        Some(None) => Some(None),
        None => None,
    }
}

/// `prost::Message::decode` of an `ExportLogsServiceResponse`, then its
/// `partial_success` as its two fields. Claimed: the result is the named
/// reading of the bytes; the protobuf wire format is not restated.
#[verifier::external_body]
fn decode_logs_response(body: &[u8]) -> (r: Option<Option<(i64, String)>>)
    ensures
        decoded_view(r) == logs_response(body@),
{
    <opentelemetry_proto::tonic::collector::logs::v1::ExportLogsServiceResponse as prost::Message>::decode(body)
        .ok()
        .map(|d| d.partial_success.map(|p| (p.rejected_log_records, p.error_message)))
}

/// `prost::Message::decode` of an `ExportMetricsServiceResponse`, then its
/// `partial_success` as its two fields. Claimed: the result is the named
/// reading of the bytes; the protobuf wire format is not restated.
#[verifier::external_body]
fn decode_metrics_response(body: &[u8]) -> (r: Option<Option<(i64, String)>>)
    ensures
        decoded_view(r) == metrics_response(body@),
{
    <opentelemetry_proto::tonic::collector::metrics::v1::ExportMetricsServiceResponse as prost::Message>::decode(body)
        .ok()
        .map(|d| d.partial_success.map(|p| (p.rejected_data_points, p.error_message)))
}

/// `prost::Message::decode` of an `ExportTraceServiceResponse`, then its
/// `partial_success` as its two fields. Claimed: the result is the named
/// reading of the bytes; the protobuf wire format is not restated.
#[verifier::external_body]
fn decode_traces_response(body: &[u8]) -> (r: Option<Option<(i64, String)>>)
    ensures
        decoded_view(r) == traces_response(body@),
{
    <opentelemetry_proto::tonic::collector::trace::v1::ExportTraceServiceResponse as prost::Message>::decode(body)
        .ok()
        .map(|d| d.partial_success.map(|p| (p.rejected_spans, p.error_message)))
}

/// The report a protobuf body carries, read as the protocol's response type.
pub open spec fn protobuf_reading(protocol: Seq<char>, body: Seq<u8>) -> Option<Option<(i64, Seq<char>)>> {
    if protocol == "otlp-metrics"@ {
        metrics_response(body)
    } else if protocol == "otlp-traces"@ {
        traces_response(body)
    } else {
        logs_response(body)
    }
}

pub open spec fn mismatch_line(content_type: Option<Seq<char>>) -> Seq<char> {
    "request was JSON, response body is protobuf and content-type says "@ + match content_type {
        Some(c) => c,
        None => "none"@,
    }
}

/// What `export_report` returns: nothing for an empty body; the JSON report
/// when the body is JSON; otherwise the protobuf report, flagged when the
/// request was JSON.
pub open spec fn report_of(
    protocol: Seq<char>,
    request_encoding: Seq<char>,
    content_type: Option<Seq<char>>,
    body: Seq<u8>,
) -> Option<ReportView> {
    let expected_json = ends_with(request_encoding, "-json"@);
    if body.len() == 0 {
        None
    } else {
        match crate::json::parsed_json(body) {
            Some(value) => json_report(protocol, expected_json, value),
            None => match protobuf_reading(protocol, body) {
                Some(Some((n, m))) => Some((
                    n as int,
                    m,
                    if expected_json {
                        Some(mismatch_line(content_type))
                    } else {
                        None
                    },
                )),
                _ => None,
            },
        }
    }
}

fn get_either_exec<'a>(v: &'a Json, a: &str, b: &str) -> (r: Option<&'a Json>)
    ensures
        opt_view(r) == get_either(v@, a@, b@),
{
    match v.get(a) {
        Some(x) => Some(x),
        None => v.get(b),
    }
}

fn str_of(s: &str) -> (r: String)
    ensures
        r@ == s@,
{
    crate::text::string_of(crate::text::chars_of(s).as_slice())
}

/// Reads a store's export response, whatever encoding it actually used.
///
/// Returns `None` when the body carries no report at all, which is the
/// ordinary case for a store that kept everything. `protocol` picks the
/// count field's name and, for a protobuf body, the message type it is
/// decoded as.
pub fn export_report(
    protocol: &str,
    request_encoding: &str,
    content_type: Option<&str>,
    body: &[u8],
) -> (r: Option<ExportReport>)
    ensures
        opt_report(r) == report_of(protocol@, request_encoding@, opt_str_view(content_type), body@),
{
    if body.len() == 0 {
        return None;
    }
    let expected_json = ends_with_exec(request_encoding, "-json");
    let metrics = crate::text::str_eq(protocol, "otlp-metrics");
    let traces = crate::text::str_eq(protocol, "otlp-traces");
    let (camel, snake) = if metrics {
        ("rejectedDataPoints", "rejected_data_points")
    } else if traces {
        ("rejectedSpans", "rejected_spans")
    } else {
        ("rejectedLogRecords", "rejected_log_records")
    };
    if let Some(value) = Json::parse(body) {
        let partial = match get_either_exec(&value, "partialSuccess", "partial_success") {
            Some(p) => p,
            None => {
                return None;
            },
        };
        let rejected: i64 = match get_either_exec(partial, camel, snake) {
            Some(c) => match number_from(c) {
                Some(n) => n,
                None => 0,
            },
            None => 0,
        };
        let message = match get_either_exec(partial, "errorMessage", "error_message") {
            Some(Json::String(m)) => m.clone(),
            _ => String::new(),
        };
        let mismatch = if expected_json {
            None
        } else {
            Some(str_of("request was protobuf, response body is JSON"))
        };
        return Some(ExportReport { rejected, message, encoding_mismatch: mismatch });
    }
    let decoded = if metrics {
        decode_metrics_response(body)
    } else if traces {
        decode_traces_response(body)
    } else {
        decode_logs_response(body)
    };
    let (rejected, message) = match decoded {
        Some(Some(pair)) => pair,
        _ => {
            return None;
        },
    };
    let mismatch = if expected_json {
        let mut out: Vec<char> = Vec::new();
        crate::text::push_str(&mut out, "request was JSON, response body is protobuf and content-type says ");
        match content_type {
            Some(c) => crate::text::push_str(&mut out, c),
            None => crate::text::push_str(&mut out, "none"),
        }
        assert(out@ =~= mismatch_line(opt_str_view(content_type)));
        Some(crate::text::string_of(out.as_slice()))
    } else {
        None
    };
    Some(ExportReport { rejected, message, encoding_mismatch: mismatch })
}

} // verus!

//! Prometheus remote-write 1.0: the JSON form the corpus keeps its payloads
//! in, read and checked here, and the selector a read-back query names a
//! series by.
//!
//! Remote-write is snappy-compressed protobuf and nothing else, so the cases
//! are written as JSON and encoded for the wire. The wire format cannot carry
//! `-0.0`: proto3 omits a scalar field holding its default value and
//! `-0.0 == 0.0`, so the sign is gone before the request leaves any sender.
//! The reading below keeps it, so that the loss is the wire format's and
//! testable rather than this reader's.

use vstd::prelude::*;
use crate::json::{Json, JsonView, json_text, opt_view, opt_owned_view};
use crate::otlp::{find_by, keyed, opt_str_view};
use crate::text::{parse_signed, trimmed};

verus! {

/// The NaN payload Prometheus reserves for staleness. Written as a bit
/// pattern because it must be exactly this one: any other NaN is an ordinary
/// value.
pub const STALE_NAN: u64 = 0x7ff0_0000_0000_0002;

/// The bit pattern of the quiet NaN std's `f64::NAN` is.
pub const NAN_BITS: u64 = 0x7ff8_0000_0000_0000;

/// The bit pattern of positive infinity.
pub const INFINITY_BITS: u64 = 0x7ff0_0000_0000_0000;

/// The bit pattern of negative infinity.
pub const NEG_INFINITY_BITS: u64 = 0xfff0_0000_0000_0000;

/// The bit pattern of negative zero.
pub const NEG_ZERO_BITS: u64 = 0x8000_0000_0000_0000;

/// One label of a series, as written.
pub struct Label {
    pub name: String,
    pub value: String,
}

/// A sample value as the JSON form writes it: one of the special values JSON
/// has no literal for, as its bit pattern, or a number, as its JSON text.
pub enum SampleValue {
    Bits(u64),
    Number(String),
}

pub struct Sample {
    pub value: SampleValue,
    /// Milliseconds since the epoch.
    pub timestamp: i64,
}

pub struct TimeSeries {
    pub labels: Vec<Label>,
    pub samples: Vec<Sample>,
}

/// A write request in the order it was written: labels are not sorted, and
/// samples are not reordered.
pub struct WriteRequest {
    pub timeseries: Vec<TimeSeries>,
}

// ---------------------------------------------------------------------------
// Selectors
// ---------------------------------------------------------------------------

pub open spec fn is_ascii_alpha(c: char) -> bool {
    ('a' <= c && c <= 'z') || ('A' <= c && c <= 'Z')
}

/// `[a-zA-Z_:][a-zA-Z0-9_:]*`, the only shape PromQL accepts outside braces.
pub open spec fn legacy_name(name: Seq<char>) -> bool {
    &&& name.len() > 0
    &&& (is_ascii_alpha(name[0]) || name[0] == '_' || name[0] == ':')
    &&& forall|i: int|
        1 <= i < name.len() ==> (is_ascii_alpha(#[trigger] name[i]) || crate::text::is_digit(name[i])
            || name[i] == '_' || name[i] == ':')
}

fn is_legacy_name(name: &str) -> (b: bool)
    ensures
        b == legacy_name(name@),
{
    let cs = crate::text::chars_of(name);
    if cs.len() == 0 {
        return false;
    }
    let c = cs[0];
    if !(('a' <= c && c <= 'z') || ('A' <= c && c <= 'Z') || c == '_' || c == ':') {
        return false;
    }
    let mut i: usize = 1;
    while i < cs.len()
        invariant
            1 <= i <= cs@.len(),
            cs@ == name@,
            forall|j: int|
                1 <= j < i ==> (is_ascii_alpha(#[trigger] cs@[j]) || crate::text::is_digit(cs@[j])
                    || cs@[j] == '_' || cs@[j] == ':'),
        decreases cs@.len() - i,
    {
        let d = cs[i];
        if !(('a' <= d && d <= 'z') || ('A' <= d && d <= 'Z') || ('0' <= d && d <= '9') || d == '_'
            || d == ':') {
            return false;
        }
        i = i + 1;
    }
    true
}

/// The selector naming one series of a run: a legacy name in front of the
/// braces, any other name quoted inside them, and the run-key matcher, when
/// the adapter names a run-key field, inside them too.
pub open spec fn selector_text(name: Seq<char>, run_key_field: Option<Seq<char>>, run_key: Seq<char>) -> Seq<char> {
    let matcher = match run_key_field {
        Some(f) => f + "=\""@ + run_key + "\""@,
        None => Seq::empty(),
    };
    if legacy_name(name) {
        name + "{"@ + matcher + "}"@
    } else {
        let separator = if matcher.len() == 0 {
            Seq::empty()
        } else {
            ","@
        };
        "{\""@ + name + "\""@ + separator + matcher + "}"@
    }
}

/// A PromQL selector naming one series of this run.
///
/// Two forms, because PromQL has two: a metric name that is a legacy
/// identifier goes in front of the braces; anything else, such as a dotted
/// OpenTelemetry name, can only be named by the quoted form inside them.
pub fn series_selector(name: &str, run_key_field: Option<&str>, run_key: &str) -> (r: String)
    ensures
        r@ == selector_text(name@, opt_str_view(run_key_field), run_key@),
{
    let mut matcher: Vec<char> = Vec::new();
    match run_key_field {
        Some(f) => {
            crate::text::push_str(&mut matcher, f);
            crate::text::push_str(&mut matcher, "=\"");
            crate::text::push_str(&mut matcher, run_key);
            crate::text::push_str(&mut matcher, "\"");
        },
        None => {},
    }
    let mut out: Vec<char> = Vec::new();
    if is_legacy_name(name) {
        crate::text::push_str(&mut out, name);
        crate::text::push_str(&mut out, "{");
        out.extend_from_slice(matcher.as_slice());
        crate::text::push_str(&mut out, "}");
    } else {
        crate::text::push_str(&mut out, "{\"");
        crate::text::push_str(&mut out, name);
        crate::text::push_str(&mut out, "\"");
        if matcher.len() > 0 {
            crate::text::push_str(&mut out, ",");
        }
        out.extend_from_slice(matcher.as_slice());
        crate::text::push_str(&mut out, "}");
    }
    assert(out@ =~= selector_text(name@, opt_str_view(run_key_field), run_key@));
    crate::text::string_of(out.as_slice())
}

// ---------------------------------------------------------------------------
// Reading a field of what a case sent
// ---------------------------------------------------------------------------

/// A series' `__name__`: the `value` of its first label named `__name__`,
/// when that is a string.
pub open spec fn metric_name(series: JsonView) -> Option<Seq<char>> {
    match series.get("labels"@) {
        Some(JsonView::Array(labels)) => match find_by(labels, "name"@, "__name__"@) {
            Some(l) => match l.get("value"@) {
                Some(JsonView::String(v)) => Some(v),
                _ => None,
            },
            None => None,
        },
        _ => None,
    }
}

/// The first series whose name is `name`.
pub open spec fn find_named(all: Seq<JsonView>, name: Seq<char>) -> Option<JsonView>
    decreases all.len(),
{
    if all.len() == 0 {
        None
    } else if metric_name(all[0]) == Some(name) {
        Some(all[0])
    } else {
        find_named(all.drop_first(), name)
    }
}

/// A sample timestamp as written: a number that fits in `i64`, or a string
/// that parses as one once trimmed.
pub open spec fn timestamp_of(v: JsonView) -> Option<int> {
    match v {
        JsonView::Number(_) => crate::json::json_i64(v),
        JsonView::String(t) => parse_signed(trimmed(t), i64::MIN as int, i64::MAX as int),
        _ => None,
    }
}

/// The key a sample is ordered by: its timestamp, or the least `i64` when it
/// has none.
pub open spec fn sample_key(s: JsonView) -> int {
    match s.get("timestamp"@) {
        Some(t) => match timestamp_of(t) {
            Some(n) => n,
            None => i64::MIN as int,
        },
        None => i64::MIN as int,
    }
}

/// The sample with the greatest key, the last of several equal ones, as
/// `Iterator::max_by_key` picks it.
pub open spec fn latest_of(samples: Seq<JsonView>) -> Option<JsonView>
    decreases samples.len(),
{
    if samples.len() == 0 {
        None
    } else {
        match latest_of(samples.drop_last()) {
            None => Some(samples.last()),
            Some(b) => if sample_key(samples.last()) >= sample_key(b) {
                Some(samples.last())
            } else {
                Some(b)
            },
        }
    }
}

pub open spec fn latest_sample(series: JsonView) -> Option<JsonView> {
    match series.get("samples"@) {
        Some(JsonView::Array(samples)) => latest_of(samples),
        _ => None,
    }
}

/// A series' labels as a map, in order, later names replacing earlier ones;
/// a label without `name` or `value` makes the reading nothing, one whose
/// name or value is not a string is skipped.
pub open spec fn label_map(labels: Seq<JsonView>) -> Option<Seq<(Seq<char>, JsonView)>>
    decreases labels.len(),
{
    if labels.len() == 0 {
        Some(Seq::empty())
    } else {
        match label_map(labels.drop_last()) {
            None => None,
            Some(m) => {
                let l = labels.last();
                match (l.get("name"@), l.get("value"@)) {
                    (Some(n), Some(v)) => match (n, v) {
                        (JsonView::String(ns), JsonView::String(vs)) => Some(
                            crate::json::inserted(m, ns, JsonView::String(vs)),
                        ),
                        _ => Some(m),
                    },
                    _ => None,
                }
            },
        }
    }
}

/// The series a check reads: the one it names, or with no name the only one;
/// several and no name reads nothing.
pub open spec fn chosen_series(sent: JsonView, series: Option<Seq<char>>) -> Option<JsonView> {
    match sent.get("timeseries"@) {
        Some(JsonView::Array(all)) => match series {
            Some(name) => find_named(all, name),
            None => if all.len() == 1 {
                Some(all[0])
            } else {
                None
            },
        },
        _ => None,
    }
}

/// A logical field of the chosen series: `labels` as a map, `value` and
/// `timestamp` of the sample an instant query would return, and anything
/// else as the series' member.
pub open spec fn series_field(sent: JsonView, field: Seq<char>, series: Option<Seq<char>>) -> Option<JsonView> {
    match chosen_series(sent, series) {
        None => None,
        Some(chosen) => if field == "labels"@ {
            match chosen.get("labels"@) {
                Some(JsonView::Array(ls)) => match label_map(ls) {
                    Some(m) => Some(JsonView::Object(m)),
                    None => None,
                },
                _ => None,
            }
        } else if field == "value"@ || field == "timestamp"@ {
            match latest_sample(chosen) {
                Some(s) => s.get(field),
                None => None,
            }
        } else {
            chosen.get(field)
        },
    }
}

fn items_of(v: &Json) -> (r: Option<&Vec<Json>>)
    ensures
        r matches Some(items) ==> v@ == JsonView::Array(items@.map_values(|j: Json| j@)),
        r is None ==> !(v@ is Array),
{
    match v.as_array() {
        Some(items) => {
            assert(v@->Array_0 =~= items@.map_values(|j: Json| j@));
            Some(items)
        },
        None => None,
    }
}

fn metric_name_exec(series: &Json) -> (r: Option<&str>)
    ensures
        opt_str_view(r) == metric_name(series@),
{
    match series.get("labels") {
        Some(ls) => match items_of(ls) {
            Some(labels) => {
                let found = crate::otlp::find_by_exec(labels, "name", "__name__");
                proof {
                    reveal_strlit("__name__");
                }
                match found {
                    Some(l) => match l.get("value") {
                        Some(v) => match v.as_str() {
                            Some(s) => Some(s),
                            None => None,
                        },
                        None => None,
                    },
                    None => None,
                }
            },
            None => None,
        },
        None => None,
    }
}

fn find_named_exec<'a>(all: &'a Vec<Json>, name: &str) -> (r: Option<&'a Json>)
    ensures
        opt_view(r) == find_named(all@.map_values(|j: Json| j@), name@),
{
    let ghost s = all@.map_values(|j: Json| j@);
    let mut i: usize = 0;
    assert(s.skip(0) =~= s);
    while i < all.len()
        invariant
            i <= all@.len(),
            s == all@.map_values(|j: Json| j@),
            find_named(s, name@) == find_named(s.skip(i as int), name@),
        decreases all@.len() - i,
    {
        assert(s.skip(i as int)[0] == all@[i as int]@);
        assert(s.skip(i as int).drop_first() =~= s.skip(i + 1));
        let matches = match metric_name_exec(&all[i]) {
            Some(n) => crate::text::str_eq(n, name),
            None => false,
        };
        if matches {
            return Some(&all[i]);
        }
        i = i + 1;
    }
    None
}

fn timestamp_exec(v: &Json) -> (r: Option<i64>)
    ensures
        r matches Some(n) ==> timestamp_of(v@) == Some(n as int),
        r is None ==> timestamp_of(v@) is None,
{
    match v {
        Json::Number(_) => v.as_i64(),
        Json::String(t) => {
            let cs = crate::text::chars_of(t.as_str());
            let tr = crate::text::trim_chars(cs.as_slice());
            crate::text::parse_i64(tr.as_slice())
        },
        _ => None,
    }
}

fn sample_key_exec(s: &Json) -> (k: i64)
    ensures
        k as int == sample_key(s@),
{
    match s.get("timestamp") {
        Some(t) => match timestamp_exec(t) {
            Some(n) => n,
            None => i64::MIN,
        },
        None => i64::MIN,
    }
}

fn latest_sample_exec(series: &Json) -> (r: Option<&Json>)
    ensures
        opt_view(r) == latest_sample(series@),
{
    let samples = match series.get("samples") {
        Some(s) => match items_of(s) {
            Some(items) => items,
            None => {
                return None;
            },
        },
        None => {
            return None;
        },
    };
    let ghost sv = samples@.map_values(|j: Json| j@);
    let mut best: Option<&Json> = None;
    let mut best_key: i64 = i64::MIN;
    let mut i: usize = 0;
    assert(sv.take(0) =~= Seq::<JsonView>::empty());
    while i < samples.len()
        invariant
            i <= samples@.len(),
            sv == samples@.map_values(|j: Json| j@),
            opt_view(best) == latest_of(sv.take(i as int)),
            best matches Some(b) ==> best_key as int == sample_key(b@),
        decreases samples@.len() - i,
    {
        assert(sv.take(i + 1).drop_last() =~= sv.take(i as int));
        assert(sv.take(i + 1).last() == samples@[i as int]@);
        let k = sample_key_exec(&samples[i]);
        match best {
            None => {
                best = Some(&samples[i]);
                best_key = k;
            },
            Some(_) => {
                if k >= best_key {
                    best = Some(&samples[i]);
                    best_key = k;
                }
            },
        }
        i = i + 1;
    }
    assert(sv.take(samples@.len() as int) =~= sv);
    best
}

fn label_map_exec(labels: &Vec<Json>) -> (r: Option<Vec<(String, Json)>>)
    ensures
        r matches Some(m) ==> label_map(labels@.map_values(|j: Json| j@)) == Some(
            crate::json::member_views(m@),
        ),
        r is None ==> label_map(labels@.map_values(|j: Json| j@)) is None,
{
    let ghost s = labels@.map_values(|j: Json| j@);
    let mut map: Vec<(String, Json)> = Vec::new();
    let mut i: usize = 0;
    assert(s.take(0) =~= Seq::<JsonView>::empty());
    assert(crate::json::member_views(map@) =~= Seq::<(Seq<char>, JsonView)>::empty());
    while i < labels.len()
        invariant
            i <= labels@.len(),
            s == labels@.map_values(|j: Json| j@),
            label_map(s.take(i as int)) == Some(crate::json::member_views(map@)),
        decreases labels@.len() - i,
    {
        assert(s.take(i + 1).drop_last() =~= s.take(i as int));
        assert(s.take(i + 1).last() == labels@[i as int]@);
        let l = &labels[i];
        let (n, v) = match (l.get("name"), l.get("value")) {
            (Some(n), Some(v)) => (n, v),
            _ => {
                proof {
                    lemma_label_map_none_extends(s, i as int + 1);
                }
                return None;
            },
        };
        match (n, v) {
            (Json::String(ns), Json::String(vs)) => {
                crate::json::insert_member(&mut map, ns.clone(), Json::String(vs.clone()));
            },
            _ => {},
        }
        i = i + 1;
    }
    assert(s.take(labels@.len() as int) =~= s);
    Some(map)
}

proof fn lemma_label_map_none_extends(s: Seq<JsonView>, n: int)
    requires
        0 <= n <= s.len(),
        label_map(s.take(n)) is None,
    ensures
        label_map(s) is None,
    decreases s.len() - n,
{
    if n < s.len() {
        assert(s.take(n + 1).drop_last() =~= s.take(n));
        lemma_label_map_none_extends(s, n + 1);
    } else {
        assert(s.take(n) =~= s);
    }
}

/// Reads a logical field out of a payload the corpus sent.
///
/// `series` names which series the check asserts on, by its `__name__`; with
/// several series and no name the check is under-specified and reads
/// nothing rather than whichever happened to be first.
pub fn logical_field(sent: &Json, field: &str, series: Option<&str>) -> (r: Option<Json>)
    ensures
        opt_owned_view(r) == series_field(sent@, field@, opt_str_view(series)),
{
    let all = match sent.get("timeseries") {
        Some(t) => match items_of(t) {
            Some(items) => items,
            None => {
                return None;
            },
        },
        None => {
            return None;
        },
    };
    let chosen = match series {
        Some(name) => match find_named_exec(all, name) {
            Some(c) => c,
            None => {
                return None;
            },
        },
        None => if all.len() == 1 {
            &all[0]
        } else {
            return None;
        },
    };
    if crate::text::str_eq(field, "labels") {
        match chosen.get("labels") {
            Some(ls) => match items_of(ls) {
                Some(labels) => match label_map_exec(labels) {
                    Some(m) => {
                        let r = Json::Object(m);
                        assert(r@->Object_0 =~= crate::json::member_views(m@));
                        Some(r)
                    },
                    None => None,
                },
                None => None,
            },
            None => None,
        }
    } else if crate::text::str_eq(field, "value") || crate::text::str_eq(field, "timestamp") {
        match latest_sample_exec(chosen) {
            Some(s) => crate::json::cloned(s.get(field)),
            None => None,
        }
    } else {
        crate::json::cloned(chosen.get(field))
    }
}

} // verus!

verus! {

// ---------------------------------------------------------------------------
// Reading the JSON form
// ---------------------------------------------------------------------------

/// A sample value as the JSON form writes it: a number keeps its text, and
/// the only strings are the special values, each as its bit pattern.
pub open spec fn special_bits(t: Seq<char>) -> Option<u64> {
    if t == "NaN"@ {
        Some(NAN_BITS)
    } else if t == "StaleNaN"@ {
        Some(STALE_NAN)
    } else if t == "+Inf"@ || t == "Inf"@ {
        Some(INFINITY_BITS)
    } else if t == "-Inf"@ {
        Some(NEG_INFINITY_BITS)
    } else if t == "-0.0"@ || t == "-0"@ {
        Some(NEG_ZERO_BITS)
    } else {
        None
    }
}

/// `Ok((Some(bits), _))` for a special value, `Ok((None, text))` for a
/// number, or the message refusing it.
pub open spec fn sample_value_reading(v: JsonView) -> Result<(Option<u64>, Seq<char>), Seq<char>> {
    match v {
        JsonView::Number(t) => Ok((None, t)),
        JsonView::String(s) => match special_bits(trimmed(s)) {
            Some(b) => Ok((Some(b), Seq::empty())),
            None => Err("sample value "@ + crate::text::debug_quoted(trimmed(s))
                + " is not a number; the only strings permitted are \"NaN\", \"StaleNaN\", \"+Inf\", \"-Inf\" and \"-0.0\""@),
        },
        _ => Err("sample value must be a number or a special-value string, got "@ + json_text(v)),
    }
}

pub open spec fn sample_value_view(v: SampleValue) -> (Option<u64>, Seq<char>) {
    match v {
        SampleValue::Bits(b) => (Some(b), Seq::empty()),
        SampleValue::Number(t) => (None, t@),
    }
}

/// Reads a sample value, including the three IEEE 754 values JSON has no
/// literal for. Not a general string-to-float reading: a case that means a
/// number writes a number.
pub fn sample_value(value: &Json) -> (r: Result<SampleValue, String>)
    ensures
        r matches Ok(v) ==> sample_value_reading(value@) == Ok::<(Option<u64>, Seq<char>), Seq<char>>(sample_value_view(v)),
        r matches Err(m) ==> sample_value_reading(value@) == Err::<(Option<u64>, Seq<char>), Seq<char>>(m@),
{
    match value {
        Json::Number(t) => Ok(SampleValue::Number(t.clone())),
        Json::String(s) => {
            let cs = crate::text::chars_of(s.as_str());
            let tr = crate::text::trim_chars(cs.as_slice());
            let t = crate::text::string_of(tr.as_slice());
            let ts = t.as_str();
            if crate::text::str_eq(ts, "NaN") {
                Ok(SampleValue::Bits(NAN_BITS))
            } else if crate::text::str_eq(ts, "StaleNaN") {
                Ok(SampleValue::Bits(STALE_NAN))
            } else if crate::text::str_eq(ts, "+Inf") || crate::text::str_eq(ts, "Inf") {
                Ok(SampleValue::Bits(INFINITY_BITS))
            } else if crate::text::str_eq(ts, "-Inf") {
                Ok(SampleValue::Bits(NEG_INFINITY_BITS))
            } else if crate::text::str_eq(ts, "-0.0") || crate::text::str_eq(ts, "-0") {
                Ok(SampleValue::Bits(NEG_ZERO_BITS))
            } else {
                let mut out: Vec<char> = Vec::new();
                crate::text::push_str(&mut out, "sample value ");
                let q = crate::text::quote_debug(tr.as_slice());
                out.extend_from_slice(q.as_slice());
                crate::text::push_str(
                    &mut out,
                    " is not a number; the only strings permitted are \"NaN\", \"StaleNaN\", \"+Inf\", \"-Inf\" and \"-0.0\"",
                );
                assert(out@ =~= sample_value_reading(value@)->Err_0);
                Err(crate::text::string_of(out.as_slice()))
            }
        },
        _ => {
            let mut out: Vec<char> = Vec::new();
            crate::text::push_str(&mut out, "sample value must be a number or a special-value string, got ");
            value.write_text(&mut out);
            assert(out@ =~= sample_value_reading(value@)->Err_0);
            Err(crate::text::string_of(out.as_slice()))
        },
    }
}

/// A sample timestamp, in milliseconds, or the message refusing it.
pub open spec fn sample_timestamp_reading(v: JsonView) -> Result<int, Seq<char>> {
    match v {
        JsonView::Number(t) => match crate::json::number_i64(t) {
            Some(n) => Ok(n),
            None => Err("timestamp "@ + t + " is not an integer"@),
        },
        JsonView::String(s) => match parse_signed(trimmed(s), i64::MIN as int, i64::MAX as int) {
            Some(n) => Ok(n),
            None => Err("timestamp "@ + crate::text::debug_quoted(s) + " is not an integer"@),
        },
        _ => Err("timestamp must be an integer in milliseconds, got "@ + json_text(v)),
    }
}

/// Reads a sample timestamp, in milliseconds as remote-write defines it. A
/// string is accepted because a template variable renders as one.
pub fn sample_timestamp(value: &Json) -> (r: Result<i64, String>)
    ensures
        r matches Ok(n) ==> sample_timestamp_reading(value@) == Ok::<int, Seq<char>>(n as int),
        r matches Err(m) ==> sample_timestamp_reading(value@) == Err::<int, Seq<char>>(m@),
{
    match value {
        Json::Number(t) => match value.as_i64() {
            Some(n) => Ok(n),
            None => {
                let mut out: Vec<char> = Vec::new();
                crate::text::push_str(&mut out, "timestamp ");
                crate::text::push_str(&mut out, t.as_str());
                crate::text::push_str(&mut out, " is not an integer");
                assert(out@ =~= sample_timestamp_reading(value@)->Err_0);
                Err(crate::text::string_of(out.as_slice()))
            },
        },
        Json::String(s) => {
            let cs = crate::text::chars_of(s.as_str());
            let tr = crate::text::trim_chars(cs.as_slice());
            match crate::text::parse_i64(tr.as_slice()) {
                Some(n) => Ok(n),
                None => {
                    let mut out: Vec<char> = Vec::new();
                    crate::text::push_str(&mut out, "timestamp ");
                    let q = crate::text::quote_debug(cs.as_slice());
                    out.extend_from_slice(q.as_slice());
                    crate::text::push_str(&mut out, " is not an integer");
                    assert(out@ =~= sample_timestamp_reading(value@)->Err_0);
                    Err(crate::text::string_of(out.as_slice()))
                },
            }
        },
        _ => {
            let mut out: Vec<char> = Vec::new();
            crate::text::push_str(&mut out, "timestamp must be an integer in milliseconds, got ");
            value.write_text(&mut out);
            assert(out@ =~= sample_timestamp_reading(value@)->Err_0);
            Err(crate::text::string_of(out.as_slice()))
        },
    }
}

} // verus!

verus! {

pub type SampleView = (Option<u64>, Seq<char>, int);

pub type SeriesView = (Seq<(Seq<char>, Seq<char>)>, Seq<SampleView>);

/// An array member, where an absent one reads as empty.
pub open spec fn array_or_empty(v: JsonView, key: Seq<char>) -> Option<Seq<JsonView>> {
    match v.get(key) {
        None => Some(Seq::empty()),
        Some(JsonView::Array(a)) => Some(a),
        _ => None,
    }
}

pub open spec fn label_shape(l: JsonView) -> bool {
    &&& l is Object
    &&& l.get("name"@) matches Some(JsonView::String(_))
    &&& l.get("value"@) matches Some(JsonView::String(_))
}

pub open spec fn sample_shape(s: JsonView) -> bool {
    &&& s is Object
    &&& s.get("value"@) is Some
    &&& s.get("timestamp"@) is Some
}

pub open spec fn labels_shaped(ls: Seq<JsonView>) -> bool {
    forall|i: int| 0 <= i < ls.len() ==> label_shape(#[trigger] ls[i])
}

pub open spec fn samples_shaped_all(ss: Seq<JsonView>) -> bool {
    forall|i: int| 0 <= i < ss.len() ==> sample_shape(#[trigger] ss[i])
}

pub open spec fn series_shape(s: JsonView) -> bool {
    &&& s is Object
    &&& array_or_empty(s, "labels"@) matches Some(ls) && labels_shaped(ls)
    &&& array_or_empty(s, "samples"@) matches Some(ss) && samples_shaped_all(ss)
}

/// The JSON form's shape: an object whose optional `timeseries` is an array
/// of objects, each with optional `labels` (objects with string `name` and
/// `value`) and optional `samples` (objects with `value` and `timestamp`).
pub open spec fn request_shape(v: JsonView) -> bool {
    &&& v is Object
    &&& array_or_empty(v, "timeseries"@) matches Some(ts) && forall|i: int| 0 <= i < ts.len() ==> series_shape(#[trigger] ts[i])
}

pub open spec fn label_pair(l: JsonView) -> (Seq<char>, Seq<char>) {
    (l.get("name"@).unwrap()->String_0, l.get("value"@).unwrap()->String_0)
}

/// The samples read in order; the first refusal is the answer.
pub open spec fn read_samples(ss: Seq<JsonView>) -> Result<Seq<SampleView>, Seq<char>>
    decreases ss.len(),
{
    if ss.len() == 0 {
        Ok(Seq::empty())
    } else {
        match sample_value_reading(ss[0].get("value"@).unwrap()) {
            Err(e) => Err(e),
            Ok(v) => match sample_timestamp_reading(ss[0].get("timestamp"@).unwrap()) {
                Err(e) => Err(e),
                Ok(t) => match read_samples(ss.drop_first()) {
                    Ok(rest) => Ok(seq![(v.0, v.1, t)] + rest),
                    Err(e) => Err(e),
                },
            },
        }
    }
}

/// The series read in order; the first refusal is the answer.
pub open spec fn read_series(ts: Seq<JsonView>) -> Result<Seq<SeriesView>, Seq<char>>
    decreases ts.len(),
{
    if ts.len() == 0 {
        Ok(Seq::empty())
    } else {
        let labels = array_or_empty(ts[0], "labels"@).unwrap().map_values(|l: JsonView| label_pair(l));
        match read_samples(array_or_empty(ts[0], "samples"@).unwrap()) {
            Err(e) => Err(e),
            Ok(samples) => match read_series(ts.drop_first()) {
                Ok(rest) => Ok(seq![(labels, samples)] + rest),
                Err(e) => Err(e),
            },
        }
    }
}

pub open spec fn decode_message() -> Seq<char> {
    "decoding remote-write-json"@
}

/// What `parse` returns for a payload: the request as written, or the
/// message refusing it.
pub open spec fn request_reading(payload: Seq<u8>) -> Result<Seq<SeriesView>, Seq<char>> {
    match crate::json::parsed_json(payload) {
        Some(v) => if request_shape(v) {
            read_series(array_or_empty(v, "timeseries"@).unwrap())
        } else {
            Err(decode_message())
        },
        None => Err(decode_message()),
    }
}

impl Sample {
    pub open spec fn sample_view(&self) -> SampleView {
        let v = sample_value_view(self.value);
        (v.0, v.1, self.timestamp as int)
    }
}

impl TimeSeries {
    pub open spec fn series_view(&self) -> SeriesView {
        (
            self.labels@.map_values(|l: Label| (l.name@, l.value@)),
            self.samples@.map_values(|s: Sample| s.sample_view()),
        )
    }
}

impl WriteRequest {
    pub open spec fn request_view(&self) -> Seq<SeriesView> {
        self.timeseries@.map_values(|t: TimeSeries| t.series_view())
    }
}

fn array_or_empty_exec<'a>(v: &'a Json, key: &str, empty: &'a Vec<Json>) -> (r: Option<&'a Vec<Json>>)
    requires
        empty@.len() == 0,
    ensures
        r matches Some(items) ==> array_or_empty(v@, key@) == Some(items@.map_values(|j: Json| j@)),
        r is None ==> array_or_empty(v@, key@) is None,
{
    match v.get(key) {
        None => {
            assert(empty@.map_values(|j: Json| j@) =~= Seq::<JsonView>::empty());
            Some(empty)
        },
        Some(a) => match a.as_array() {
            Some(items) => {
                assert(a@->Array_0 =~= items@.map_values(|j: Json| j@));
                Some(items)
            },
            None => None,
        },
    }
}

fn read_labels(ls: &Vec<Json>) -> (r: Option<Vec<Label>>)
    ensures
        r is Some <==> labels_shaped(ls@.map_values(|j: Json| j@)),
        r matches Some(labels) ==> labels@.map_values(|l: Label| (l.name@, l.value@)) == ls@.map_values(
            |j: Json| j@,
        ).map_values(|l: JsonView| label_pair(l)),
{
    let mut out: Vec<Label> = Vec::new();
    let mut i: usize = 0;
    while i < ls.len()
        invariant
            i <= ls@.len(),
            forall|j: int| 0 <= j < i ==> label_shape(#[trigger] ls@[j]@),
            out@.len() == i,
            forall|j: int| 0 <= j < i ==> (#[trigger] out@[j]).name@ == label_pair(ls@[j]@).0 && out@[j].value@ == label_pair(ls@[j]@).1,
        decreases ls@.len() - i,
    {
        let l = &ls[i];
        let is_object = match l {
            Json::Object(_) => true,
            _ => false,
        };
        let name = match l.get("name") {
            Some(Json::String(n)) => n,
            _ => {
                assert(!label_shape(ls@.map_values(|j: Json| j@)[i as int]));
                return None;
            },
        };
        let value = match l.get("value") {
            Some(Json::String(v)) => v,
            _ => {
                assert(!label_shape(ls@.map_values(|j: Json| j@)[i as int]));
                return None;
            },
        };
        if !is_object {
            assert(!label_shape(ls@.map_values(|j: Json| j@)[i as int]));
            return None;
        }
        out.push(Label { name: name.clone(), value: value.clone() });
        i = i + 1;
    }
    assert(out@.map_values(|l: Label| (l.name@, l.value@)) =~= ls@.map_values(|j: Json| j@).map_values(
        |l: JsonView| label_pair(l),
    ));
    assert(labels_shaped(ls@.map_values(|j: Json| j@))) by {
        let lv = ls@.map_values(|j: Json| j@);
        assert forall|k: int| 0 <= k < lv.len() implies label_shape(#[trigger] lv[k]) by {
            assert(lv[k] == ls@[k]@);
        }
    }
    Some(out)
}

fn samples_shaped(ss: &Vec<Json>) -> (b: bool)
    ensures
        b == samples_shaped_all(ss@.map_values(|j: Json| j@)),
{
    let mut i: usize = 0;
    while i < ss.len()
        invariant
            i <= ss@.len(),
            forall|j: int| 0 <= j < i ==> sample_shape(#[trigger] ss@[j]@),
        decreases ss@.len() - i,
    {
        let s = &ss[i];
        let ok = match s {
            Json::Object(_) => s.get("value").is_some() && s.get("timestamp").is_some(),
            _ => false,
        };
        if !ok {
            assert(!sample_shape(ss@.map_values(|j: Json| j@)[i as int]));
            return false;
        }
        i = i + 1;
    }
    let ghost sv = ss@.map_values(|j: Json| j@);
    assert forall|k: int| 0 <= k < sv.len() implies sample_shape(#[trigger] sv[k]) by {
        assert(sv[k] == ss@[k]@);
    }
    true
}

fn read_sample_list(ss: &Vec<Json>) -> (r: Result<Vec<Sample>, String>)
    requires
        samples_shaped_all(ss@.map_values(|j: Json| j@)),
    ensures
        r matches Ok(v) ==> read_samples(ss@.map_values(|j: Json| j@)) == Ok::<Seq<SampleView>, Seq<char>>(
            v@.map_values(|s: Sample| s.sample_view()),
        ),
        r matches Err(e) ==> read_samples(ss@.map_values(|j: Json| j@)) == Err::<Seq<SampleView>, Seq<char>>(e@),
{
    let ghost sv = ss@.map_values(|j: Json| j@);
    let mut out: Vec<Sample> = Vec::new();
    let mut i: usize = 0;
    assert(sv.skip(0) =~= sv);
    assert(out@.map_values(|s: Sample| s.sample_view()) =~= Seq::<SampleView>::empty());
    while i < ss.len()
        invariant
            i <= ss@.len(),
            sv == ss@.map_values(|j: Json| j@),
            samples_shaped_all(sv),
            read_samples(sv) == (match read_samples(sv.skip(i as int)) {
                Ok(rest) => Ok(out@.map_values(|s: Sample| s.sample_view()) + rest),
                Err(e) => Err(e),
            }),
        decreases ss@.len() - i,
    {
        let ghost t = sv.skip(i as int);
        assert(t[0] == ss@[i as int]@);
        assert(t.drop_first() =~= sv.skip(i + 1));
        assert(sample_shape(sv[i as int]));
        let s = &ss[i];
        let v = match s.get("value") {
            Some(v) => v,
            None => {
                return Err(String::new());
            },
        };
        let ts = match s.get("timestamp") {
            Some(t) => t,
            None => {
                return Err(String::new());
            },
        };
        let value = match sample_value(v) {
            Ok(x) => x,
            Err(e) => {
                return Err(e);
            },
        };
        let timestamp = match sample_timestamp(ts) {
            Ok(x) => x,
            Err(e) => {
                return Err(e);
            },
        };
        let ghost before = out@.map_values(|s: Sample| s.sample_view());
        let sample = Sample { value, timestamp };
        let ghost one = sample.sample_view();
        out.push(sample);
        assert(out@.map_values(|s: Sample| s.sample_view()) =~= before.push(one));
        proof {
            match read_samples(sv.skip(i + 1)) {
                Ok(rest) => {
                    assert(before + (seq![one] + rest) =~= before.push(one) + rest);
                },
                Err(_) => {},
            }
        }
        i = i + 1;
    }
    assert(sv.skip(i as int) =~= Seq::<JsonView>::empty());
    assert(out@.map_values(|s: Sample| s.sample_view()) + Seq::<SampleView>::empty() =~= out@.map_values(
        |s: Sample| s.sample_view(),
    ));
    Ok(out)
}

fn series_shaped(s: &Json, empty: &Vec<Json>) -> (b: bool)
    requires
        empty@.len() == 0,
    ensures
        b == series_shape(s@),
{
    let is_obj = match s {
        Json::Object(_) => true,
        _ => false,
    };
    if !is_obj {
        return false;
    }
    let ls = match array_or_empty_exec(s, "labels", empty) {
        Some(x) => x,
        None => {
            return false;
        },
    };
    let labels_ok = read_labels(ls).is_some();
    let ss = match array_or_empty_exec(s, "samples", empty) {
        Some(x) => x,
        None => {
            return false;
        },
    };
    let samples_ok = samples_shaped(ss);
    labels_ok && samples_ok
}

fn decode_error() -> (s: String)
    ensures
        s@ == decode_message(),
{
    crate::text::string_of(crate::text::chars_of("decoding remote-write-json").as_slice())
}

/// Parses the JSON form into a write request.
///
/// Label order is preserved exactly as written: whether a receiver enforces
/// sorted labels is one of the checks, so a case that wants unsorted labels
/// has to be able to send them.
pub fn parse(payload: &[u8]) -> (r: Result<WriteRequest, String>)
    ensures
        r matches Ok(w) ==> request_reading(payload@) == Ok::<Seq<SeriesView>, Seq<char>>(w.request_view()),
        r matches Err(e) ==> request_reading(payload@) == Err::<Seq<SeriesView>, Seq<char>>(e@),
{
    let value = match Json::parse(payload) {
        Some(v) => v,
        None => {
            return Err(decode_error());
        },
    };
    let empty: Vec<Json> = Vec::new();
    let is_object = match &value {
        Json::Object(_) => true,
        _ => false,
    };
    if !is_object {
        return Err(decode_error());
    }
    let all = match array_or_empty_exec(&value, "timeseries", &empty) {
        Some(a) => a,
        None => {
            return Err(decode_error());
        },
    };
    let ghost tv = all@.map_values(|j: Json| j@);
    // The whole shape is checked before any sample is read.
    let mut i: usize = 0;
    while i < all.len()
        invariant
            i <= all@.len(),
            tv == all@.map_values(|j: Json| j@),
            empty@.len() == 0,
            value@ is Object,
            crate::json::parsed_json(payload@) == Some(value@),
            array_or_empty(value@, "timeseries"@) == Some(tv),
            forall|k: int| 0 <= k < i ==> series_shape(#[trigger] tv[k]),
        decreases all@.len() - i,
    {
        if !series_shaped(&all[i], &empty) {
            assert(!series_shape(tv[i as int]));
            assert(!(forall|k: int| 0 <= k < tv.len() ==> series_shape(#[trigger] tv[k])));
            assert(!request_shape(value@));
            return Err(decode_error());
        }
        i = i + 1;
    }
    assert(request_shape(value@));
    assert(array_or_empty(value@, "timeseries"@).unwrap() == tv);
    // Then the samples, in order.
    let mut out: Vec<TimeSeries> = Vec::new();
    let mut k: usize = 0;
    assert(tv.skip(0) =~= tv);
    assert(out@.map_values(|t: TimeSeries| t.series_view()) =~= Seq::<SeriesView>::empty());
    while k < all.len()
        invariant
            k <= all@.len(),
            tv == all@.map_values(|j: Json| j@),
            empty@.len() == 0,
            forall|m: int| 0 <= m < tv.len() ==> series_shape(#[trigger] tv[m]),
            crate::json::parsed_json(payload@) == Some(value@),
            request_shape(value@),
            array_or_empty(value@, "timeseries"@) == Some(tv),
            read_series(tv) == (match read_series(tv.skip(k as int)) {
                Ok(rest) => Ok(out@.map_values(|t: TimeSeries| t.series_view()) + rest),
                Err(e) => Err(e),
            }),
        decreases all@.len() - k,
    {
        let ghost t = tv.skip(k as int);
        assert(t[0] == tv[k as int]);
        assert(t.drop_first() =~= tv.skip(k + 1));
        let s = &all[k];
        assert(series_shape(s@));
        let ls = match array_or_empty_exec(s, "labels", &empty) {
            Some(x) => x,
            None => {
                return Err(decode_error());
            },
        };
        let labels = match read_labels(ls) {
            Some(l) => l,
            None => {
                return Err(decode_error());
            },
        };
        let ss = match array_or_empty_exec(s, "samples", &empty) {
            Some(x) => x,
            None => {
                return Err(decode_error());
            },
        };
        let samples = match read_sample_list(ss) {
            Ok(x) => x,
            Err(e) => {
                return Err(e);
            },
        };
        let ghost before = out@.map_values(|t: TimeSeries| t.series_view());
        let series = TimeSeries { labels, samples };
        let ghost one = series.series_view();
        out.push(series);
        assert(out@.map_values(|t: TimeSeries| t.series_view()) =~= before.push(one));
        proof {
            match read_series(tv.skip(k + 1)) {
                Ok(rest) => {
                    assert(before + (seq![one] + rest) =~= before.push(one) + rest);
                },
                Err(_) => {},
            }
        }
        k = k + 1;
    }
    assert(tv.skip(k as int) =~= Seq::<JsonView>::empty());
    assert(out@.map_values(|t: TimeSeries| t.series_view()) + Seq::<SeriesView>::empty() =~= out@.map_values(
        |t: TimeSeries| t.series_view(),
    ));
    Ok(WriteRequest { timeseries: out })
}

// ---------------------------------------------------------------------------
// Compression
// ---------------------------------------------------------------------------

/// What snap's raw encoder makes of some bytes: the Snappy block, or
/// nothing when it refuses them.
pub uninterp spec fn snappy_block(raw: Seq<u8>) -> Option<Seq<u8>>;

/// `snap::raw::Encoder::compress_vec`. Claimed: the result is the named
/// block of the bytes, and an error exactly when it names none. The Snappy
/// format is not restated, and neither is the text of snap's error, which
/// it gives only for an input too large to compress.
#[verifier::external_body]
fn compress_block(raw: &[u8]) -> (r: Result<Vec<u8>, String>)
    ensures
        match r {
            Ok(b) => snappy_block(raw@) == Some(b@),
            Err(_) => snappy_block(raw@) is None,
        },
{
    snap::raw::Encoder::new().compress_vec(raw).map_err(|e| e.to_string())
}

/// Compresses an encoded write request as a receiver expects it on the
/// wire: the Snappy block format, not the framed one, whose stream header a
/// block decoder fails on with an error that names decompression rather
/// than the sender.
pub fn compress(encoded: &[u8]) -> (r: Result<Vec<u8>, String>)
    ensures
        r matches Ok(b) ==> snappy_block(encoded@) == Some(b@),
        r is Err <==> snappy_block(encoded@) is None,
{
    compress_block(encoded)
}

} // verus!

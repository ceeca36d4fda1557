//! Comparing what a case sent with what a backend returned.
//!
//! A check names the fields that must survive and, optionally, how to read
//! them. Reading a value is not rewriting it: nothing here changes what a
//! backend stored; it decides how two stored values are compared and what
//! the result line says about them. Two instants are equal only when they
//! name the same nanosecond, so a store that dropped digits fails an `exact`
//! check rather than passing one that coerced both sides to the coarser
//! precision first.
//!
//! A float reading is a bit pattern here. Turning decimal text into an IEEE
//! double is left to the caller, which hands the two patterns in.

use vstd::prelude::*;
use crate::json::{Json, JsonView, json_same, json_text, json_i64};
use crate::text::{all_digits, is_digit, parse_signed, trimmed, i128_min, i128_max};

verus! {

/// How a field is compared.
#[derive(PartialEq, Eq, Structural, Clone, Copy, Debug)]
pub enum Kind {
    /// Compare the JSON values as they stand. The default.
    Raw,
    /// Compare as an instant, reporting the precision each side kept.
    Timestamp,
    /// Compare as an integer, so `42` and `"42"` are the same number.
    Integer,
    /// Compare as a float by bit pattern, so `-0.0` differs from `0.0` and
    /// `NaN` equals `NaN`.
    Float,
    /// Compare as text.
    Text,
}

/// The kind an `as:` value names, if it names one.
pub open spec fn kind_named(name: Seq<char>) -> Option<Kind> {
    if name == "timestamp"@ {
        Some(Kind::Timestamp)
    } else if name == "integer"@ {
        Some(Kind::Integer)
    } else if name == "float"@ {
        Some(Kind::Float)
    } else if name == "string"@ || name == "text"@ {
        Some(Kind::Text)
    } else {
        None
    }
}

/// The message for an `as:` value that names no kind.
pub open spec fn unknown_kind_message(name: Seq<char>) -> Seq<char> {
    "unknown `as` value "@ + crate::text::debug_quoted(name)
        + "; expected `timestamp`, `integer`, `float` or `string`"@
}

/// Reads an `as:` value.
pub fn kind_from_str(name: &str) -> (r: Result<Kind, String>)
    ensures
        r matches Ok(k) ==> kind_named(name@) == Some(k),
        r matches Err(m) ==> kind_named(name@) is None && m@ == unknown_kind_message(name@),
{
    if crate::text::str_eq(name, "timestamp") {
        Ok(Kind::Timestamp)
    } else if crate::text::str_eq(name, "integer") {
        Ok(Kind::Integer)
    } else if crate::text::str_eq(name, "float") {
        Ok(Kind::Float)
    } else if crate::text::str_eq(name, "string") || crate::text::str_eq(name, "text") {
        Ok(Kind::Text)
    } else {
        let mut out: Vec<char> = Vec::new();
        crate::text::push_str(&mut out, "unknown `as` value ");
        let cs = crate::text::chars_of(name);
        let q = crate::text::quote_debug(cs.as_slice());
        out.extend_from_slice(q.as_slice());
        crate::text::push_str(&mut out, "; expected `timestamp`, `integer`, `float` or `string`");
        assert(out@ =~= unknown_kind_message(name@));
        Err(crate::text::string_of(out.as_slice()))
    }
}

/// A unit of time.
#[derive(PartialEq, Eq, Structural, Clone, Copy, Debug)]
pub enum Precision {
    Seconds,
    Milliseconds,
    Microseconds,
    Nanoseconds,
}

pub open spec fn precision_name(p: Precision) -> Seq<char> {
    match p {
        Precision::Seconds => "seconds"@,
        Precision::Milliseconds => "milliseconds"@,
        Precision::Microseconds => "microseconds"@,
        Precision::Nanoseconds => "nanoseconds"@,
    }
}

impl Precision {
    /// The unit's name in a result line.
    pub fn name(self) -> (r: &'static str)
        ensures
            r@ == precision_name(self),
    {
        match self {
            Precision::Seconds => "seconds",
            Precision::Milliseconds => "milliseconds",
            Precision::Microseconds => "microseconds",
            Precision::Nanoseconds => "nanoseconds",
        }
    }
}

/// A point in time, in nanoseconds since the epoch, with the unit it was
/// expressed in.
#[derive(PartialEq, Eq, Structural, Clone, Copy, Debug)]
pub struct Instant {
    pub nanos: i128,
    /// The unit the value is expressed in, from its magnitude or its printed
    /// digits.
    pub precision: Precision,
}

/// The finest unit `nanos` is a whole multiple of.
pub open spec fn resolution_of(nanos: int) -> Precision {
    if nanos % 1_000_000_000 == 0 {
        Precision::Seconds
    } else if nanos % 1_000_000 == 0 {
        Precision::Milliseconds
    } else if nanos % 1_000 == 0 {
        Precision::Microseconds
    } else {
        Precision::Nanoseconds
    }
}

impl Instant {
    /// The finest unit the value is a whole multiple of.
    ///
    /// A store can keep a nanosecond field and put a whole number of
    /// microseconds in it. Reporting only the unit would say it preserved
    /// nanoseconds; this is reported beside the unit rather than in place of
    /// it, since a genuine nanosecond instant ending in three zeros reads as
    /// microseconds.
    pub fn resolution(self) -> (p: Precision)
        ensures
            p == resolution_of(self.nanos as int),
    {
        let n = self.nanos;
        let sec = n % 1_000_000_000;
        let milli = n % 1_000_000;
        let micro = n % 1_000;
        if sec == 0 {
            Precision::Seconds
        } else if milli == 0 {
            Precision::Milliseconds
        } else if micro == 0 {
            Precision::Microseconds
        } else {
            Precision::Nanoseconds
        }
    }
}

} // verus!

verus! {

// ---------------------------------------------------------------------------
// Reading an instant
// ---------------------------------------------------------------------------

pub open spec fn abs_int(v: int) -> int {
    if v < 0 {
        -v
    } else {
        v
    }
}

/// An integer read by magnitude: seconds, milliseconds, microseconds and
/// nanoseconds since the epoch occupy disjoint ranges for any timestamp
/// between 1973 and 2286.
pub open spec fn magnitude_instant(value: int) -> Instant {
    let m = abs_int(value);
    if m < 100_000_000_000 {
        Instant { nanos: (value * 1_000_000_000) as i128, precision: Precision::Seconds }
    } else if m < 100_000_000_000_000 {
        Instant { nanos: (value * 1_000_000) as i128, precision: Precision::Milliseconds }
    } else if m < 100_000_000_000_000_000 {
        Instant { nanos: (value * 1_000) as i128, precision: Precision::Microseconds }
    } else {
        Instant { nanos: value as i128, precision: Precision::Nanoseconds }
    }
}

fn from_magnitude(value: i128) -> (r: Instant)
    ensures
        r == magnitude_instant(value as int),
        r.nanos as int == (match r.precision {
            Precision::Seconds => value * 1_000_000_000,
            Precision::Milliseconds => value * 1_000_000,
            Precision::Microseconds => value * 1_000,
            Precision::Nanoseconds => value as int,
        }),
{
    let small = -100_000_000_000i128 < value && value < 100_000_000_000;
    let milli = -100_000_000_000_000i128 < value && value < 100_000_000_000_000;
    let micro = -100_000_000_000_000_000i128 < value && value < 100_000_000_000_000_000;
    if small {
        Instant { nanos: value * 1_000_000_000, precision: Precision::Seconds }
    } else if milli {
        Instant { nanos: value * 1_000_000, precision: Precision::Milliseconds }
    } else if micro {
        Instant { nanos: value * 1_000, precision: Precision::Microseconds }
    } else {
        Instant { nanos: value, precision: Precision::Nanoseconds }
    }
}

/// Where `c` first occurs in `s`.
pub open spec fn index_of_char(s: Seq<char>, c: char) -> Option<int>
    decreases s.len(),
{
    if s.len() == 0 {
        None
    } else if s[0] == c {
        Some(0)
    } else {
        match index_of_char(s.drop_first(), c) {
            Some(i) => Some(i + 1),
            None => None,
        }
    }
}

/// How many ASCII digits `s` starts with.
pub open spec fn leading_digits(s: Seq<char>) -> nat
    decreases s.len(),
{
    if s.len() == 0 || !is_digit(s[0]) {
        0
    } else {
        1 + leading_digits(s.drop_first())
    }
}

/// The precision a formatted timestamp carries, from the number of
/// fractional digits it prints after its first `.`.
pub open spec fn fractional_precision_of(text: Seq<char>) -> Precision {
    match index_of_char(text, '.') {
        None => Precision::Seconds,
        Some(dot) => {
            let digits = leading_digits(text.skip(dot + 1));
            if digits == 0 {
                Precision::Seconds
            } else if digits <= 3 {
                Precision::Milliseconds
            } else if digits <= 6 {
                Precision::Microseconds
            } else {
                Precision::Nanoseconds
            }
        },
    }
}

pub(crate) fn index_of_char_exec(s: &[char], c: char) -> (r: Option<usize>)
    ensures
        r matches Some(i) ==> index_of_char(s@, c) == Some(i as int) && i < s@.len(),
        r is None ==> index_of_char(s@, c) is None,
{
    let mut i: usize = 0;
    assert(s@.skip(0) =~= s@);
    while i < s.len()
        invariant
            i <= s@.len(),
            forall|j: int| 0 <= j < i ==> s@[j] != c,
            index_of_char(s@, c) == (match index_of_char(s@.skip(i as int), c) {
                Some(k) => Some(k + i),
                None => None,
            }),
        decreases s@.len() - i,
    {
        assert(s@.skip(i as int).drop_first() =~= s@.skip(i + 1));
        if s[i] == c {
            return Some(i);
        }
        i = i + 1;
    }
    None
}

fn leading_digits_exec(s: &[char], start: usize) -> (n: usize)
    requires
        start <= s@.len(),
    ensures
        n as nat == leading_digits(s@.skip(start as int)),
{
    let mut i: usize = start;
    while i < s.len() && '0' <= s[i] && s[i] <= '9'
        invariant
            start <= i <= s@.len(),
            leading_digits(s@.skip(start as int)) == (i - start) + leading_digits(s@.skip(i as int)),
        decreases s@.len() - i,
    {
        assert(s@.skip(i as int).drop_first() =~= s@.skip(i + 1));
        i = i + 1;
    }
    i - start
}

fn fractional_precision(text: &[char]) -> (p: Precision)
    ensures
        p == fractional_precision_of(text@),
{
    match index_of_char_exec(text, '.') {
        None => Precision::Seconds,
        Some(dot) => {
            let n = text.len();
            assert(dot < n);
            let digits = leading_digits_exec(text, dot + 1);
            if digits == 0 {
                Precision::Seconds
            } else if digits <= 3 {
                Precision::Milliseconds
            } else if digits <= 6 {
                Precision::Microseconds
            } else {
                Precision::Nanoseconds
            }
        },
    }
}

/// What chrono's RFC 3339 reading makes of the text: nothing when it does
/// not parse, otherwise the instant's nanoseconds when they fit in `i64`.
pub uninterp spec fn rfc3339_nanos(text: Seq<char>) -> Option<Option<i64>>;

/// What chrono makes of the text read with a `strftime` format and no zone,
/// taken as UTC: nothing when it does not parse, otherwise the nanoseconds
/// when they fit in `i64`.
pub uninterp spec fn naive_utc_nanos(text: Seq<char>, format: Seq<char>) -> Option<Option<i64>>;

/// chrono's `DateTime::parse_from_rfc3339`, then `timestamp_nanos_opt`.
/// Claimed: the result is the named reading of the text; chrono's grammar
/// is not restated.
#[verifier::external_body]
fn parse_rfc3339(text: &str) -> (r: Option<Option<i64>>)
    ensures
        r == rfc3339_nanos(text@),
{
    chrono::DateTime::parse_from_rfc3339(text).ok().map(|t| t.timestamp_nanos_opt())
}

/// chrono's `NaiveDateTime::parse_from_str`, then `and_utc` and
/// `timestamp_nanos_opt`. Claimed: the result is the named reading of the
/// text under the format; chrono's grammar is not restated.
#[verifier::external_body]
fn parse_naive_utc(text: &str, format: &str) -> (r: Option<Option<i64>>)
    ensures
        r == naive_utc_nanos(text@, format@),
{
    chrono::NaiveDateTime::parse_from_str(text, format).ok().map(|t| t.and_utc().timestamp_nanos_opt())
}

pub open spec fn reading_instant(reading: Option<i64>, precision: Precision) -> Option<Instant> {
    match reading {
        Some(n) => Some(Instant { nanos: n as i128, precision }),
        None => None,
    }
}

/// A date-time string, with or without an offset; one with no zone is read
/// as UTC. The precision is the one its printed fraction carries.
pub open spec fn datetime_instant(text: Seq<char>) -> Option<Instant> {
    let p = fractional_precision_of(text);
    match rfc3339_nanos(text) {
        Some(r) => reading_instant(r, p),
        None => match naive_utc_nanos(text, "%Y-%m-%dT%H:%M:%S%.f"@) {
            Some(r) => reading_instant(r, p),
            None => match naive_utc_nanos(text, "%Y-%m-%d %H:%M:%S%.f"@) {
                Some(r) => reading_instant(r, p),
                None => None,
            },
        },
    }
}

fn parse_datetime(text: &str) -> (r: Option<Instant>)
    ensures
        r == datetime_instant(text@),
{
    let cs = crate::text::chars_of(text);
    let precision = fractional_precision(cs.as_slice());
    if let Some(reading) = parse_rfc3339(text) {
        return match reading {
            Some(n) => Some(Instant { nanos: n as i128, precision }),
            None => None,
        };
    }
    if let Some(reading) = parse_naive_utc(text, "%Y-%m-%dT%H:%M:%S%.f") {
        return match reading {
            Some(n) => Some(Instant { nanos: n as i128, precision }),
            None => None,
        };
    }
    if let Some(reading) = parse_naive_utc(text, "%Y-%m-%d %H:%M:%S%.f") {
        return match reading {
            Some(n) => Some(Instant { nanos: n as i128, precision }),
            None => None,
        };
    }
    None
}

/// `s` without one leading `-`.
pub open spec fn without_minus(s: Seq<char>) -> Seq<char> {
    if s.len() > 0 && s[0] == '-' {
        s.drop_first()
    } else {
        s
    }
}

/// The instant a string holds: a run of digits, perhaps negative, is read by
/// magnitude as a number would be; anything else as a date-time.
pub open spec fn text_instant(text: Seq<char>) -> Option<Instant> {
    let t = trimmed(text);
    if t.len() > 0 && all_digits(without_minus(t)) {
        match parse_signed(t, i128_min(), i128_max()) {
            Some(v) => Some(magnitude_instant(v)),
            None => None,
        }
    } else {
        datetime_instant(t)
    }
}

/// The instant a value holds, whatever shape a store returned it in.
pub open spec fn instant_of(v: JsonView) -> Option<Instant> {
    match v {
        JsonView::Number(_) => match json_i64(v) {
            Some(n) => Some(magnitude_instant(n)),
            None => None,
        },
        JsonView::String(t) => text_instant(t),
        _ => None,
    }
}

fn all_digits_from(s: &[char], start: usize) -> (b: bool)
    requires
        start <= s@.len(),
    ensures
        b == all_digits(s@.skip(start as int)),
{
    let mut i: usize = start;
    while i < s.len()
        invariant
            start <= i <= s@.len(),
            forall|j: int| start <= j < i ==> is_digit(#[trigger] s@[j]),
        decreases s@.len() - i,
    {
        if !('0' <= s[i] && s[i] <= '9') {
            assert(!is_digit(s@.skip(start as int)[i - start]));
            return false;
        }
        i = i + 1;
    }
    assert forall|j: int| 0 <= j < s@.skip(start as int).len() implies is_digit(
        #[trigger] s@.skip(start as int)[j],
    ) by {
        assert(s@.skip(start as int)[j] == s@[j + start]);
    }
    true
}

/// Reads an instant from whatever shape a store returned it in.
///
/// Integers are read by magnitude. OTLP sends `timeUnixNano` as a JSON
/// string, so a string of digits is read the same way; any other string is
/// read as a date-time.
pub fn parse_instant(value: &Json) -> (r: Option<Instant>)
    ensures
        r == instant_of(value@),
{
    match value {
        Json::Number(_) => match value.as_i64() {
            Some(n) => Some(from_magnitude(n as i128)),
            None => None,
        },
        Json::String(text) => {
            let cs = crate::text::chars_of(text.as_str());
            let t = crate::text::trim_chars(cs.as_slice());
            let start: usize = if t.len() > 0 && t[0] == '-' {
                1
            } else {
                0
            };
            proof {
                if start == 1 {
                    assert(t@.skip(1) =~= without_minus(t@));
                } else {
                    assert(t@.skip(0) =~= without_minus(t@));
                }
            }
            if t.len() > 0 && all_digits_from(t.as_slice(), start) {
                match crate::text::parse_i128(t.as_slice()) {
                    Some(v) => Some(from_magnitude(v)),
                    None => None,
                }
            } else {
                let s = crate::text::string_of(t.as_slice());
                parse_datetime(s.as_str())
            }
        },
        _ => None,
    }
}

// ---------------------------------------------------------------------------
// Comparing
// ---------------------------------------------------------------------------

/// The integer a value holds: a number that fits in `i64`, or a string that
/// parses as an `i128` once trimmed.
pub open spec fn integer_of(v: JsonView) -> Option<int> {
    match v {
        JsonView::Number(_) => json_i64(v),
        JsonView::String(t) => parse_signed(trimmed(t), i128_min(), i128_max()),
        _ => None,
    }
}

fn as_i128(value: &Json) -> (r: Option<i128>)
    ensures
        r matches Some(n) ==> integer_of(value@) == Some(n as int),
        r is None ==> integer_of(value@) is None,
{
    match value {
        Json::Number(_) => match value.as_i64() {
            Some(n) => Some(n as i128),
            None => None,
        },
        Json::String(text) => {
            let cs = crate::text::chars_of(text.as_str());
            let t = crate::text::trim_chars(cs.as_slice());
            crate::text::parse_i128(t.as_slice())
        },
        _ => None,
    }
}

pub open spec fn opt_json(v: Option<Json>) -> Option<JsonView> {
    match v {
        Some(j) => Some(j@),
        None => None,
    }
}

/// Whether two readings are the same value under `kind`.
///
/// For a float the two bit patterns decide, when both sides could be read
/// as one. A value the reader cannot interpret falls back to raw JSON
/// equality rather than being called equal or unequal on a guess.
pub open spec fn readings_equal(
    sent: Option<JsonView>,
    got: Option<JsonView>,
    kind: Kind,
    sent_float: Option<u64>,
    got_float: Option<u64>,
) -> bool {
    match sent {
        None => got is None,
        Some(s) => match got {
            None => false,
            Some(g) => match kind {
                Kind::Raw => json_same(s, g),
                Kind::Timestamp => match (instant_of(s), instant_of(g)) {
                    (Some(a), Some(b)) => a.nanos == b.nanos,
                    _ => json_same(s, g),
                },
                Kind::Integer => match (integer_of(s), integer_of(g)) {
                    (Some(a), Some(b)) => a == b,
                    _ => json_same(s, g),
                },
                Kind::Float => match (sent_float, got_float) {
                    (Some(a), Some(b)) => a == b,
                    _ => json_same(s, g),
                },
                Kind::Text => match (s, g) {
                    (JsonView::String(a), JsonView::String(b)) => a == b,
                    _ => json_text(s) == json_text(g),
                },
            },
        },
    }
}

/// Whether two readings are the same value under `kind`; `sent_float` and
/// `got_float` are the bit patterns each side reads as a float, where it
/// reads as one, and are consulted for [`Kind::Float`] alone.
pub fn equal(
    sent: &Option<Json>,
    got: &Option<Json>,
    kind: Kind,
    sent_float: Option<u64>,
    got_float: Option<u64>,
) -> (r: bool)
    ensures
        r == readings_equal(opt_json(*sent), opt_json(*got), kind, sent_float, got_float),
{
    let (s, g) = match (sent, got) {
        (Some(s), Some(g)) => (s, g),
        _ => {
            return sent.is_none() && got.is_none();
        },
    };
    match kind {
        Kind::Raw => s.same(g),
        Kind::Timestamp => match (parse_instant(s), parse_instant(g)) {
            (Some(a), Some(b)) => a.nanos == b.nanos,
            _ => s.same(g),
        },
        Kind::Integer => match (as_i128(s), as_i128(g)) {
            (Some(a), Some(b)) => a == b,
            _ => s.same(g),
        },
        Kind::Float => match (sent_float, got_float) {
            (Some(a), Some(b)) => a == b,
            _ => s.same(g),
        },
        Kind::Text => match (s, g) {
            (Json::String(a), Json::String(b)) => crate::text::str_eq(a.as_str(), b.as_str()),
            _ => {
                let a = s.to_text();
                let b = g.to_text();
                crate::text::str_eq(a.as_str(), b.as_str())
            },
        },
    }
}

// ---------------------------------------------------------------------------
// Describing
// ---------------------------------------------------------------------------

pub open spec fn json_type_name(v: JsonView) -> Seq<char> {
    match v {
        JsonView::Null => "null"@,
        JsonView::Bool(_) => "bool"@,
        JsonView::Number(_) => "number"@,
        JsonView::String(_) => "string"@,
        JsonView::Array(_) => "array"@,
        JsonView::Object(_) => "object"@,
    }
}

/// A value in a result line: its JSON text and the type it came back as,
/// and for an instant the unit it was stored in and, when it carries less
/// than that unit, the unit it is a whole multiple of.
pub open spec fn described(value: Option<JsonView>, kind: Kind) -> Seq<char> {
    match value {
        None => "<absent>"@,
        Some(v) => {
            let head = json_text(v) + " ("@ + json_type_name(v);
            match kind {
                Kind::Timestamp => match instant_of(v) {
                    Some(i) => {
                        let unit = precision_name(i.precision);
                        let res = resolution_of(i.nanos as int);
                        if res == i.precision {
                            head + ", "@ + unit + ")"@
                        } else {
                            head + ", "@ + unit + " holding whole "@ + precision_name(res) + ")"@
                        }
                    },
                    None => head + ", unreadable as an instant)"@,
                },
                _ => head + ")"@,
            }
        },
    }
}

fn kind_word(v: &Json) -> (r: &'static str)
    ensures
        r@ == json_type_name(v@),
{
    match v {
        Json::Null => "null",
        Json::Bool(_) => "bool",
        Json::Number(_) => "number",
        Json::String(_) => "string",
        Json::Array(_) => "array",
        Json::Object(_) => "object",
    }
}

/// Renders a value for a result line, with the type it came back as and, for
/// an instant, the precision it was stored at.
pub fn describe(value: &Option<Json>, kind: Kind) -> (r: String)
    ensures
        r@ == described(opt_json(*value), kind),
{
    let inner = match value {
        Some(v) => v,
        None => {
            return crate::text::string_of(crate::text::chars_of("<absent>").as_slice());
        },
    };
    let mut out: Vec<char> = Vec::new();
    inner.write_text(&mut out);
    crate::text::push_str(&mut out, " (");
    crate::text::push_str(&mut out, kind_word(inner));
    let ghost head = out@;
    match kind {
        Kind::Timestamp => match parse_instant(inner) {
            Some(instant) => {
                let unit = instant.precision.name();
                let resolution = instant.resolution();
                crate::text::push_str(&mut out, ", ");
                crate::text::push_str(&mut out, unit);
                if resolution == instant.precision {
                    crate::text::push_str(&mut out, ")");
                } else {
                    crate::text::push_str(&mut out, " holding whole ");
                    crate::text::push_str(&mut out, resolution.name());
                    crate::text::push_str(&mut out, ")");
                }
            },
            None => {
                crate::text::push_str(&mut out, ", unreadable as an instant)");
            },
        },
        _ => {
            crate::text::push_str(&mut out, ")");
        },
    }
    assert(out@ =~= described(opt_json(*value), kind));
    crate::text::string_of(out.as_slice())
}

} // verus!

//! The time variables a payload may name, worked out from the clock.
//!
//! Payload timestamps are generated rather than fixed. A corpus carrying a
//! fixed instant ages out of a store's ingest window, and then a check
//! measures the fixture rather than the backend. The clock is read where the
//! run starts; everything here works on the instant it gave, as whole seconds
//! since the epoch and the nanoseconds past that second.

use vstd::prelude::*;
use crate::text::{i128_text, i64_text, signed_decimal, string_of};

verus! {

/// The first second chrono's `DateTime<Utc>` can hold, -262143-01-01T00:00:00Z.
pub open spec fn first_second() -> int {
    -8_334_601_315_200
}

/// The last second chrono's `DateTime<Utc>` can hold, +262142-12-31T23:59:59Z.
pub open spec fn last_second() -> int {
    8_210_266_876_799
}

pub open spec fn representable(secs: int) -> bool {
    first_second() <= secs <= last_second()
}

/// What chrono's `to_rfc3339` writes for the instant `nanos` nanoseconds
/// past the second `secs` seconds after the epoch, in UTC.
pub uninterp spec fn rfc3339_text(secs: int, nanos: int) -> Seq<char>;

/// `chrono::DateTime::<Utc>::from_timestamp`, then `to_rfc3339`. Claimed: an
/// instant whose second chrono can hold and whose nanoseconds are below one
/// second exists, and its text is the named function of the two numbers.
/// The RFC 3339 layout chrono writes is not restated.
#[verifier::external_body]
fn rfc3339(secs: i64, nanos: u32) -> (r: Option<String>)
    ensures
        representable(secs as int) && nanos < 1_000_000_000 ==> r is Some,
        r matches Some(t) ==> t@ == rfc3339_text(secs as int, nanos as int),
{
    chrono::DateTime::from_timestamp(secs, nanos).map(|d| d.to_rfc3339())
}

/// Nanoseconds since the epoch, when they fit an `i64`, as
/// `DateTime::timestamp_nanos_opt` gives them.
pub open spec fn epoch_nanos(secs: int, nanos: int) -> Option<int> {
    let v = secs * 1_000_000_000 + nanos;
    if i64::MIN <= v <= i64::MAX {
        Some(v)
    } else {
        None
    }
}

/// `timestamp_nanos_opt().unwrap_or_default()`: zero for an instant too far
/// from the epoch.
pub open spec fn nanos_or_zero(secs: int, nanos: int) -> int {
    match epoch_nanos(secs, nanos) {
        Some(v) => v,
        None => 0,
    }
}

/// Microseconds since the epoch, as `DateTime::timestamp_micros`.
pub open spec fn epoch_micros(secs: int, nanos: int) -> int {
    secs * 1_000_000 + nanos / 1_000
}

/// Milliseconds since the epoch, as `DateTime::timestamp_millis`.
pub open spec fn epoch_millis(secs: int, nanos: int) -> int {
    secs * 1_000 + nanos / 1_000_000
}

pub open spec fn day_nanos() -> int {
    86_400_000_000_000
}

/// The variables, in order: the search window as RFC 3339 five minutes either
/// side of now, and from `lookback_days` back to a day ahead in microseconds
/// and nanoseconds; now in each unit; now truncated to the second with a known
/// sub-second part; and instants backdated or ahead by fixed spans.
pub open spec fn time_var_entries(secs: int, nanos: int, lookback_days: int) -> Seq<(Seq<char>, Seq<char>)> {
    let start = secs - lookback_days * 86_400;
    let end = secs + 86_400;
    let now_ns = nanos_or_zero(secs, nanos);
    seq![
        ("window_start"@, rfc3339_text(secs - 300, nanos)),
        ("window_end"@, rfc3339_text(secs + 300, nanos)),
        ("window_start_us"@, signed_decimal(epoch_micros(start, nanos))),
        ("window_end_us"@, signed_decimal(epoch_micros(end, nanos))),
        ("window_start_ns"@, signed_decimal(nanos_or_zero(start, nanos))),
        ("window_end_ns"@, signed_decimal(nanos_or_zero(end, nanos))),
        ("now_ns"@, signed_decimal(now_ns)),
        ("now_ns_fractional"@, signed_decimal(secs * 1_000_000_000 + 123_456_789)),
        ("now_us"@, signed_decimal(epoch_micros(secs, nanos))),
        ("now_ms"@, signed_decimal(epoch_millis(secs, nanos))),
        ("now_s"@, signed_decimal(secs)),
        ("now_minus_10s_ms"@, signed_decimal(epoch_millis(secs - 10, nanos))),
        ("now_minus_1h_ms"@, signed_decimal(epoch_millis(secs - 3_600, nanos))),
        ("now_plus_1h_ms"@, signed_decimal(epoch_millis(secs + 3_600, nanos))),
        ("now_minus_1d_ns"@, signed_decimal(now_ns - day_nanos())),
        ("now_minus_30d_ns"@, signed_decimal(now_ns - 30 * day_nanos())),
    ]
}

/// Every instant the variables are taken from exists: now, and each span
/// away from it.
pub open spec fn spans_representable(secs: int, lookback_days: int) -> bool {
    &&& representable(secs)
    &&& representable(secs - 300)
    &&& representable(secs + 300)
    &&& representable(secs - lookback_days * 86_400)
    &&& representable(secs + 86_400)
    &&& representable(secs - 10)
    &&& representable(secs - 3_600)
    &&& representable(secs + 3_600)
}

/// Whether every instant the variables are taken from exists; outside
/// that, chrono's arithmetic on the instant panics.
pub fn spans_fit(now_secs: i64, lookback_days: i64) -> (b: bool)
    ensures
        b == spans_representable(now_secs as int, lookback_days as int),
{
    let first: i128 = -8_334_601_315_200;
    let last: i128 = 8_210_266_876_799;
    let s = now_secs as i128;
    let start = s - lookback_days as i128 * 86_400;
    let fits = |t: i128| -> (r: bool)
        ensures
            r == (first_second() <= t <= last_second()),
        { first <= t && t <= last };
    fits(s) && fits(s - 300) && fits(s + 300) && fits(start) && fits(s + 86_400) && fits(s - 10)
        && fits(s - 3_600) && fits(s + 3_600)
}

fn nanos_or_zero_exec(secs: i64, nanos: u32) -> (r: i128)
    requires
        nanos < 1_000_000_000,
        representable(secs as int),
    ensures
        r == nanos_or_zero(secs as int, nanos as int),
{
    let v: i128 = secs as i128 * 1_000_000_000 + nanos as i128;
    if i64::MIN as i128 <= v && v <= i64::MAX as i128 {
        v
    } else {
        0
    }
}

fn micros_exec(secs: i64, nanos: u32) -> (r: i64)
    requires
        nanos < 1_000_000_000,
        representable(secs as int),
    ensures
        r == epoch_micros(secs as int, nanos as int),
{
    secs * 1_000_000 + (nanos / 1_000) as i64
}

fn millis_exec(secs: i64, nanos: u32) -> (r: i64)
    requires
        nanos < 1_000_000_000,
        representable(secs as int),
    ensures
        r == epoch_millis(secs as int, nanos as int),
{
    secs * 1_000 + (nanos / 1_000_000) as i64
}

fn text_i64(i: i64) -> (s: String)
    ensures
        s@ == signed_decimal(i as int),
{
    string_of(i64_text(i).as_slice())
}

fn text_i128(i: i128) -> (s: String)
    ensures
        s@ == signed_decimal(i as int),
{
    string_of(i128_text(i).as_slice())
}

pub open spec fn entry_views(v: Seq<(&str, String)>) -> Seq<(Seq<char>, Seq<char>)> {
    v.map_values(|e: (&str, String)| (e.0@, e.1@))
}

/// The time variables for a run whose clock read `now_secs` seconds and
/// `now_nanos` nanoseconds after the epoch, with a search window reaching
/// `lookback_days` back.
///
/// `now_ns_fractional` is now truncated to the second with the fixed
/// remainder 123456789: a live nanosecond clock that lands on a whole
/// millisecond would let a store that dropped digits look as if it kept
/// them, and known low digits say which ones it dropped.
pub fn time_vars(now_secs: i64, now_nanos: u32, lookback_days: i64) -> (r: Vec<(&'static str, String)>)
    requires
        now_nanos < 1_000_000_000,
        spans_representable(now_secs as int, lookback_days as int),
    ensures
        entry_views(r@) == time_var_entries(now_secs as int, now_nanos as int, lookback_days as int),
{
    let secs = now_secs;
    let nanos = now_nanos;
    let start = secs - lookback_days * 86_400;
    let end = secs + 86_400;
    let now_ns = nanos_or_zero_exec(secs, nanos);
    let day: i128 = 86_400_000_000_000;
    let mut v: Vec<(&'static str, String)> = Vec::new();
    v.push(("window_start", rfc3339(secs - 300, nanos).unwrap()));
    v.push(("window_end", rfc3339(secs + 300, nanos).unwrap()));
    v.push(("window_start_us", text_i64(micros_exec(start, nanos))));
    v.push(("window_end_us", text_i64(micros_exec(end, nanos))));
    v.push(("window_start_ns", text_i128(nanos_or_zero_exec(start, nanos))));
    v.push(("window_end_ns", text_i128(nanos_or_zero_exec(end, nanos))));
    v.push(("now_ns", text_i128(now_ns)));
    v.push(("now_ns_fractional", text_i128(secs as i128 * 1_000_000_000 + 123_456_789)));
    v.push(("now_us", text_i64(micros_exec(secs, nanos))));
    v.push(("now_ms", text_i64(millis_exec(secs, nanos))));
    v.push(("now_s", text_i64(secs)));
    v.push(("now_minus_10s_ms", text_i64(millis_exec(secs - 10, nanos))));
    v.push(("now_minus_1h_ms", text_i64(millis_exec(secs - 3_600, nanos))));
    v.push(("now_plus_1h_ms", text_i64(millis_exec(secs + 3_600, nanos))));
    v.push(("now_minus_1d_ns", text_i128(now_ns - day)));
    v.push(("now_minus_30d_ns", text_i128(now_ns - 30 * day)));
    assert(entry_views(v@) =~= time_var_entries(secs as int, nanos as int, lookback_days as int));
    v
}

} // verus!

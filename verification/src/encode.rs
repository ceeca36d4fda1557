//! Turning a case payload into the bytes a backend will accept.
//!
//! The corpus keeps every payload in a native, hand-sendable format — real
//! OTLP JSON, real NDJSON — so a maintainer can send the file at their own
//! backend with curl. A backend that speaks a different encoding of the same
//! protocol is not failing the check, so the payload is converted rather than
//! reported as ineligible.

use vstd::prelude::*;

verus! {

/// The two conversions whose payloads carry floating-point values the
/// encoder must turn into IEEE 754 doubles: remote-write samples and OTLP
/// metric points. They are encoded by the application around this library.
pub open spec fn float_route(native: Seq<char>, encoding: Seq<char>) -> bool {
    (native == "remote-write-json"@ && encoding == "remote-write-protobuf"@)
        || (native == "otlp-metrics-json"@ && encoding == "otlp-metrics-protobuf"@)
}

/// What `serde_json` and prost make of an OTLP logs payload: the encoded
/// `ExportLogsServiceRequest` it decodes to, or nothing when it does not.
pub uninterp spec fn logs_protobuf(payload: Seq<u8>) -> Option<Seq<u8>>;

/// The same for an `ExportTraceServiceRequest`.
pub uninterp spec fn traces_protobuf(payload: Seq<u8>) -> Option<Seq<u8>>;

/// `serde_json::from_slice::<ExportLogsServiceRequest>`, then
/// `prost::Message::encode_to_vec`. Claimed: the result is the named reading
/// of the payload. A strict parse: a payload that is not valid UTF-8 cannot
/// become a protobuf string field, and is refused rather than repaired.
#[verifier::external_body]
fn logs_json_to_protobuf(payload: &[u8]) -> (r: Option<Vec<u8>>)
    ensures
        match r {
            Some(b) => logs_protobuf(payload@) == Some(b@),
            None => logs_protobuf(payload@) is None,
        },
{
    serde_json::from_slice::<opentelemetry_proto::tonic::collector::logs::v1::ExportLogsServiceRequest>(payload)
        .ok()
        .map(|request| prost::Message::encode_to_vec(&request))
}

/// `serde_json::from_slice::<ExportTraceServiceRequest>`, then
/// `prost::Message::encode_to_vec`. Claimed: the result is the named reading
/// of the payload.
#[verifier::external_body]
fn traces_json_to_protobuf(payload: &[u8]) -> (r: Option<Vec<u8>>)
    ensures
        match r {
            Some(b) => traces_protobuf(payload@) == Some(b@),
            None => traces_protobuf(payload@) is None,
        },
{
    serde_json::from_slice::<opentelemetry_proto::tonic::collector::trace::v1::ExportTraceServiceRequest>(payload)
        .ok()
        .map(|request| prost::Message::encode_to_vec(&request))
}

pub open spec fn bytes_or(r: Option<Seq<u8>>, message: Seq<char>) -> Result<Seq<u8>, Seq<char>> {
    match r {
        Some(b) => Ok(b),
        None => Err(message),
    }
}

/// What `to_wire` returns: the payload unchanged when no conversion is
/// needed, the protobuf form of an OTLP logs or traces payload, or the
/// message naming a pair no encoder covers.
pub open spec fn wire_of(native: Seq<char>, encoding: Seq<char>, payload: Seq<u8>) -> Result<Seq<u8>, Seq<char>> {
    if native == encoding {
        Ok(payload)
    } else if native == "otlp-json"@ && encoding == "otlp-protobuf"@ {
        bytes_or(logs_protobuf(payload), "decoding OTLP JSON into ExportLogsServiceRequest"@)
    } else if native == "otlp-traces-json"@ && encoding == "otlp-traces-protobuf"@ {
        bytes_or(traces_protobuf(payload), "decoding OTLP JSON into ExportTraceServiceRequest"@)
    } else {
        Err("no encoder from "@ + native + " to "@ + encoding)
    }
}

pub open spec fn wire_view(r: Result<Vec<u8>, String>) -> Result<Seq<u8>, Seq<char>> {
    match r {
        Ok(b) => Ok(b@),
        Err(e) => Err(e@),
    }
}

fn text(s: &str) -> (r: String)
    ensures
        r@ == s@,
{
    crate::text::string_of(crate::text::chars_of(s).as_slice())
}

/// Converts `payload`, written in `native`, into `encoding`.
///
/// The two routes that carry floating-point values (see [`float_route`])
/// are not taken here.
pub fn to_wire(native: &str, encoding: &str, payload: &[u8]) -> (r: Result<Vec<u8>, String>)
    requires
        !float_route(native@, encoding@),
    ensures
        wire_view(r) == wire_of(native@, encoding@, payload@),
{
    if crate::text::str_eq(native, encoding) {
        let mut out: Vec<u8> = Vec::new();
        out.extend_from_slice(payload);
        assert(out@ =~= payload@);
        assert(native@ == encoding@);
        return Ok(out);
    }
    if crate::text::str_eq(native, "otlp-json") && crate::text::str_eq(encoding, "otlp-protobuf") {
        match logs_json_to_protobuf(payload) {
            Some(b) => Ok(b),
            None => Err(text("decoding OTLP JSON into ExportLogsServiceRequest")),
        }
    } else if crate::text::str_eq(native, "otlp-traces-json") && crate::text::str_eq(
        encoding,
        "otlp-traces-protobuf",
    ) {
        match traces_json_to_protobuf(payload) {
            Some(b) => Ok(b),
            None => Err(text("decoding OTLP JSON into ExportTraceServiceRequest")),
        }
    } else {
        let mut out: Vec<char> = Vec::new();
        crate::text::push_str(&mut out, "no encoder from ");
        crate::text::push_str(&mut out, native);
        crate::text::push_str(&mut out, " to ");
        crate::text::push_str(&mut out, encoding);
        assert(out@ =~= wire_of(native@, encoding@, payload@)->Err_0);
        Err(crate::text::string_of(out.as_slice()))
    }
}

/// Headers a wire encoding requires, whatever backend is receiving it: a
/// remote-write receiver identifies the body by `Content-Encoding: snappy`
/// and the protocol version by its own header, and every one of them needs
/// the same three.
pub open spec fn required_headers(encoding: Seq<char>) -> Seq<(Seq<char>, Seq<char>)> {
    if encoding == "remote-write-protobuf"@ {
        seq![
            ("Content-Type"@, "application/x-protobuf"@),
            ("Content-Encoding"@, "snappy"@),
            ("X-Prometheus-Remote-Write-Version"@, "0.1.0"@),
        ]
    } else if encoding == "otlp-protobuf"@ || encoding == "otlp-metrics-protobuf"@ || encoding
        == "otlp-traces-protobuf"@ {
        seq![("Content-Type"@, "application/x-protobuf"@)]
    } else if encoding == "otlp-json"@ || encoding == "otlp-metrics-json"@ || encoding
        == "otlp-traces-json"@ {
        seq![("Content-Type"@, "application/json"@)]
    } else if encoding == "es-ndjson"@ {
        seq![("Content-Type"@, "application/x-ndjson"@)]
    } else {
        Seq::empty()
    }
}

pub open spec fn header_views(v: Seq<(&str, &str)>) -> Seq<(Seq<char>, Seq<char>)> {
    v.map_values(|h: (&str, &str)| (h.0@, h.1@))
}

/// Headers a wire encoding requires. An adapter that declares a header keeps
/// it; the runner only fills in what is missing.
pub fn headers_for(encoding: &str) -> (r: Vec<(&'static str, &'static str)>)
    ensures
        header_views(r@) == required_headers(encoding@),
{
    let r = if crate::text::str_eq(encoding, "remote-write-protobuf") {
        vec![
            ("Content-Type", "application/x-protobuf"),
            ("Content-Encoding", "snappy"),
            ("X-Prometheus-Remote-Write-Version", "0.1.0"),
        ]
    } else if crate::text::str_eq(encoding, "otlp-protobuf") || crate::text::str_eq(
        encoding,
        "otlp-metrics-protobuf",
    ) || crate::text::str_eq(encoding, "otlp-traces-protobuf") {
        vec![("Content-Type", "application/x-protobuf")]
    } else if crate::text::str_eq(encoding, "otlp-json") || crate::text::str_eq(
        encoding,
        "otlp-metrics-json",
    ) || crate::text::str_eq(encoding, "otlp-traces-json") {
        vec![("Content-Type", "application/json")]
    } else if crate::text::str_eq(encoding, "es-ndjson") {
        vec![("Content-Type", "application/x-ndjson")]
    } else {
        Vec::new()
    };
    assert(header_views(r@) =~= required_headers(encoding@));
    r
}

pub open spec fn string_seq(v: Seq<String>) -> Seq<Seq<char>> {
    v.map_values(|s: String| s@)
}

/// The first of `offered` that `accepted` holds.
pub open spec fn first_shared(accepted: Seq<Seq<char>>, offered: Seq<Seq<char>>) -> Option<Seq<char>>
    decreases offered.len(),
{
    if offered.len() == 0 {
        None
    } else if accepted.contains(offered[0]) {
        Some(offered[0])
    } else {
        first_shared(accepted, offered.drop_first())
    }
}

/// The encoding chosen: the first offered when the adapter declares none,
/// otherwise the first offered that it accepts.
pub open spec fn chosen_encoding(accepted: Seq<Seq<char>>, offered: Seq<Seq<char>>) -> Option<Seq<char>> {
    if accepted.len() == 0 {
        if offered.len() > 0 {
            Some(offered[0])
        } else {
            None
        }
    } else {
        first_shared(accepted, offered)
    }
}

fn holds(list: &[String], item: &str) -> (b: bool)
    ensures
        b == string_seq(list@).contains(item@),
{
    let mut i: usize = 0;
    while i < list.len()
        invariant
            i <= list@.len(),
            forall|j: int| 0 <= j < i ==> #[trigger] string_seq(list@)[j] != item@,
        decreases list@.len() - i,
    {
        if crate::text::str_eq(list[i].as_str(), item) {
            assert(string_seq(list@)[i as int] == item@);
            return true;
        }
        i = i + 1;
    }
    false
}

/// The first encoding a case offers that the backend accepts.
///
/// An adapter with no `formats:` has not declared any and is treated as
/// accepting everything.
pub fn choose_encoding(accepted: &[String], offered: &[String]) -> (r: Option<String>)
    ensures
        crate::otlp::opt_string_view(r) == chosen_encoding(string_seq(accepted@), string_seq(offered@)),
{
    if accepted.len() == 0 {
        if offered.len() > 0 {
            return Some(offered[0].clone());
        }
        return None;
    }
    let ghost a = string_seq(accepted@);
    let ghost o = string_seq(offered@);
    let mut i: usize = 0;
    assert(o.skip(0) =~= o);
    while i < offered.len()
        invariant
            i <= offered@.len(),
            a == string_seq(accepted@),
            o == string_seq(offered@),
            first_shared(a, o) == first_shared(a, o.skip(i as int)),
        decreases offered@.len() - i,
    {
        assert(o.skip(i as int)[0] == offered@[i as int]@);
        assert(o.skip(i as int).drop_first() =~= o.skip(i + 1));
        if holds(accepted, offered[i].as_str()) {
            return Some(offered[i].clone());
        }
        i = i + 1;
    }
    None
}

} // verus!

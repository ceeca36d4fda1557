//! Reading logical fields out of a Loki push-API body: `line`, `timestamp`,
//! `labels` and structured-metadata keys, from the JSON a case sent, so they
//! can be compared with what a store returned.

use vstd::prelude::*;
use crate::json::{Json, JsonView, strip_prefix, opt_owned_view};

verus! {

/// A field of the first value of the first stream: `labels` is the stream's
/// label object, `timestamp` and `line` the value's first two elements, and
/// `metadata.<key>` a key of its optional third.
pub open spec fn push_field(sent: JsonView, field: Seq<char>) -> Option<JsonView> {
    match crate::otlp::first_in(sent, "streams"@) {
        None => None,
        Some(stream) => if field == "labels"@ {
            stream.get("stream"@)
        } else {
            match crate::otlp::first_in(stream, "values"@) {
                None => None,
                Some(value) => if field == "timestamp"@ {
                    value.at(0)
                } else if field == "line"@ {
                    value.at(1)
                } else {
                    match strip_prefix(field, "metadata."@) {
                        Some(key) => match value.at(2) {
                            Some(m) => m.get(key),
                            None => None,
                        },
                        None => None,
                    }
                },
            }
        },
    }
}

/// Reads a field from the first value of the first stream in a push body.
pub fn logical_field(sent: &Json, field: &str) -> (r: Option<Json>)
    ensures
        opt_owned_view(r) == push_field(sent@, field@),
{
    let stream = match sent.get("streams") {
        Some(s) => match s.at(0) {
            Some(x) => x,
            None => {
                return None;
            },
        },
        None => {
            return None;
        },
    };
    if crate::text::str_eq(field, "labels") {
        return crate::json::cloned(stream.get("stream"));
    }
    let value = match stream.get("values") {
        Some(v) => match v.at(0) {
            Some(x) => x,
            None => {
                return None;
            },
        },
        None => {
            return None;
        },
    };
    if crate::text::str_eq(field, "timestamp") {
        crate::json::cloned(value.at(0))
    } else if crate::text::str_eq(field, "line") {
        crate::json::cloned(value.at(1))
    } else {
        match crate::json::strip_prefix_exec(field, "metadata.") {
            Some(key) => match value.at(2) {
                Some(m) => crate::json::cloned(m.get(key.as_str())),
                None => None,
            },
            None => None,
        }
    }
}

} // verus!

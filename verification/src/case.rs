//! A check: the rule it tests, the payload to send, and what must survive the
//! round trip.

use vstd::prelude::*;
use crate::json::Json;

verus! {

pub struct Case {
    pub id: String,
    pub protocol: String,
    pub title: String,
    pub rule: Json,
    pub send: Send,
    pub expect: Expect,
    pub notes: String,
    /// A control runs before the rest of its suite; when it does not pass,
    /// the others cannot say anything about the backend and are not run.
    pub control: bool,
    /// The directory the case file lives in.
    pub dir: String,
}

pub struct Send {
    pub format: String,
    /// Payload path, relative to the repository root. Sent byte-for-byte
    /// after `{{ run_key }}` substitution.
    pub body: String,
    pub compression: Option<String>,
}

pub struct Expect {
    /// `accepted`, `rejected` or `accepted-or-rejected`.
    pub ingest: String,
    /// The read-back assertions, one or several; each is read and judged
    /// on its own, and the case fails if any of them does.
    pub readback: Option<Vec<ReadbackExpect>>,
    /// A query-semantics check: the rows a query must return.
    pub query: Option<QueryExpect>,
}

pub struct QueryExpect {
    /// The query body's path, like the payload's.
    pub body: String,
    /// The field of a row that names it.
    pub marker: String,
    /// The markers the query must return.
    pub returns: Vec<String>,
    /// `any` when the rows may come back in any order, `as-listed` when the
    /// order is part of what is checked.
    pub order: String,
}

pub struct ReadbackExpect {
    /// `exact`: the record must be present and the listed fields unchanged.
    /// `present`: the record must be present; fields are reported, not
    /// judged. `absent`: the record must not be there.
    pub match_: String,
    pub on: Vec<FieldCheck>,
    /// The series the assertion is about, for a protocol whose payload
    /// carries several.
    pub series: Option<String>,
}

/// A field the check names, and how to read it: written as the bare name or
/// as `{field, as}`.
pub struct FieldCheck {
    pub field: String,
    /// The `as:` value, when one is given.
    pub kind: Option<String>,
}

/// The wire encoding a native format can be converted into, when there is
/// one.
pub open spec fn converted_encoding(format: Seq<char>) -> Option<Seq<char>> {
    if format == "otlp-json"@ {
        Some("otlp-protobuf"@)
    } else if format == "otlp-metrics-json"@ {
        Some("otlp-metrics-protobuf"@)
    } else if format == "otlp-traces-json"@ {
        Some("otlp-traces-protobuf"@)
    } else if format == "remote-write-json"@ {
        Some("remote-write-protobuf"@)
    } else {
        None
    }
}

impl Send {
    /// Every encoding the payload can be sent in: its own format first, then
    /// the one it can be converted into. A backend is eligible for a case
    /// when it accepts any of them.
    pub fn encodings(&self) -> (r: Vec<String>)
        ensures
            crate::encode::string_seq(r@) == seq![self.format@] + match converted_encoding(self.format@) {
                Some(e) => seq![e],
                None => Seq::empty(),
            },
    {
        let f = self.format.as_str();
        let mut r: Vec<String> = Vec::new();
        r.push(crate::text::string_of(crate::text::chars_of(f).as_slice()));
        let target: Option<&str> = if crate::text::str_eq(f, "otlp-json") {
            Some("otlp-protobuf")
        } else if crate::text::str_eq(f, "otlp-metrics-json") {
            Some("otlp-metrics-protobuf")
        } else if crate::text::str_eq(f, "otlp-traces-json") {
            Some("otlp-traces-protobuf")
        } else if crate::text::str_eq(f, "remote-write-json") {
            Some("remote-write-protobuf")
        } else {
            None
        };
        match target {
            Some(t) => {
                r.push(crate::text::string_of(crate::text::chars_of(t).as_slice()));
            },
            None => {},
        }
        assert(crate::encode::string_seq(r@) =~= seq![self.format@] + match converted_encoding(self.format@) {
            Some(e) => seq![e],
            None => Seq::empty(),
        });
        r
    }
}

} // verus!

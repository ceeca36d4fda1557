//! A backend adapter: the ingest endpoint, auth, the read-back query, and the
//! fields the backend legitimately adds. Everything else is shared by the
//! runner.
//!
//! Maps the adapter writes as YAML mappings are held as lists of pairs, each
//! key once, in the order they were read.

use vstd::prelude::*;
use crate::json::Json;

verus! {

pub struct Backend {
    pub name: String,
    pub version_from: Option<VersionFrom>,
    /// How to start this backend. A matrix that cannot be reproduced from the
    /// repository is a claim rather than a result.
    pub container: Option<Container>,
    pub auth: Option<Auth>,
    pub protocols: Vec<(String, Protocol)>,
    /// How this backend names the run-key field in a query. A case writes
    /// `{{ run_key_field }}` so the query it carries stays portable.
    pub run_key_field: Option<String>,
    /// How far back the read-back window reaches, in days.
    pub lookback_days: Option<i64>,
    pub normalise: Normalise,
    /// A request sent before each case's ingest, after teardown.
    pub setup: Option<Request>,
    pub teardown: Option<Request>,
    /// A precondition polled after setup, before ingest.
    pub setup_verify: Option<Verify>,
}

pub struct Container {
    pub image: String,
    pub command: Vec<String>,
    pub port: u16,
    /// Further ports published on the same number inside and out.
    pub extra_ports: Vec<u16>,
    /// Environment variables, each name once.
    pub env: Vec<(String, String)>,
    pub ready: Option<Ready>,
    /// An inline configuration file, mounted where the command can read it.
    pub config: Option<String>,
}

pub struct Ready {
    pub request: String,
    pub expect_status: u16,
    /// How long to wait after the probe first passes.
    pub settle_ms: u64,
}

pub struct VersionFrom {
    pub request: String,
    /// JSON pointer or bare field name in the response.
    pub field: Option<String>,
    /// A regular expression with one capture group, for a store that reports
    /// its version as text rather than JSON.
    pub pattern: Option<String>,
}

pub struct Auth {
    pub kind: String,
    pub username: Option<String>,
    pub password: Option<String>,
    pub token: Option<String>,
}

pub struct Protocol {
    /// Wire formats this backend accepts for the protocol. Empty means the
    /// adapter has not declared any, and every case is attempted.
    pub formats: Vec<String>,
    pub ingest: Request,
    pub readback: Option<Readback>,
    /// Where a query-semantics check sends its query and where the rows come
    /// back.
    pub query: Option<Query>,
    /// Overrides the backend's own `setup` for this protocol.
    pub setup: Option<Request>,
    /// Overrides the backend's own `teardown` for this protocol.
    pub teardown: Option<Request>,
    /// Overrides the backend's own `setup_verify` for this protocol.
    pub setup_verify: Option<Verify>,
}

/// A precondition polled after setup until the store answers 2xx: a store
/// that creates what it needs by itself still has to have finished doing so.
pub struct Verify {
    pub request: Request,
    pub poll: Poll,
}

pub struct Query {
    pub request: Request,
    /// JSON pointer to the array of rows in the response.
    pub records: String,
    /// JSON pointer, within one row, to the object holding the marker field.
    pub marker_pointer: String,
    pub poll: Poll,
}

pub struct Request {
    /// `METHOD /path`, path relative to the base URL.
    pub request: String,
    pub headers: Vec<(String, String)>,
    /// Query parameters, percent-encoded by the runner.
    pub params: Vec<(String, String)>,
    pub body: Option<Json>,
}

pub struct Readback {
    pub request: Request,
    /// JSON pointer to the array of records in the response. Empty means the
    /// response body itself is the array.
    pub records: String,
    /// From the case's field name (OTLP JSON naming) to a JSON pointer in the
    /// backend's record. Renaming a field is permitted; rewriting a value is
    /// not, and there is deliberately no place here to do it.
    pub fields: Vec<(String, String)>,
    pub poll: Poll,
}

pub struct Poll {
    pub interval_ms: u64,
    pub timeout_ms: u64,
}

/// Polling every half second for at most fifteen.
impl Default for Poll {
    fn default() -> (p: Self)
        ensures
            p.interval_ms == 500,
            p.timeout_ms == 15_000,
    {
        Poll { interval_ms: 500, timeout_ms: 15_000 }
    }
}

pub struct Normalise {
    pub drop_fields: Vec<String>,
}

/// No fields dropped.
impl Default for Normalise {
    fn default() -> (n: Self)
        ensures
            n.drop_fields@.len() == 0,
    {
        Normalise { drop_fields: Vec::new() }
    }
}

pub open spec fn local_url(port: u16) -> Seq<char> {
    "http://localhost:"@ + crate::text::signed_decimal(port as int)
}

impl Backend {
    /// The image the adapter pins, if it declares a container.
    pub fn image(&self) -> (r: Option<String>)
        ensures
            r matches Some(i) ==> self.container matches Some(c) && i@ == c.image@,
            r is None ==> self.container is None,
    {
        match &self.container {
            Some(c) => Some(c.image.clone()),
            None => None,
        }
    }

    /// Where this backend listens when started from its adapter, used when a
    /// run is given no URL.
    pub fn default_url(&self) -> (r: Option<String>)
        ensures
            r matches Some(u) ==> self.container matches Some(c) && u@ == local_url(c.port),
            r is None ==> self.container is None,
    {
        match &self.container {
            Some(c) => Some(c.url()),
            None => None,
        }
    }
}

impl Container {
    /// Where the container listens: its port on localhost.
    pub fn url(&self) -> (r: String)
        ensures
            r@ == local_url(self.port),
    {
        let mut out: Vec<char> = Vec::new();
        crate::text::push_str(&mut out, "http://localhost:");
        let digits = crate::text::u64_text(self.port as u64);
        out.extend_from_slice(digits.as_slice());
        assert(out@ =~= local_url(self.port));
        crate::text::string_of(out.as_slice())
    }
}

/// What std's `str::to_uppercase` makes of the text.
pub uninterp spec fn uppercased(s: Seq<char>) -> Seq<char>;

/// `str::to_uppercase`. Claimed: the result is the named function of the
/// text; Unicode's case mapping is not restated.
#[verifier::external_body]
fn to_uppercase(s: &str) -> (r: String)
    ensures
        r@ == uppercased(s@),
{
    s.to_uppercase()
}

/// Where ` ` first occurs.
pub open spec fn first_space(s: Seq<char>) -> Option<int> {
    crate::compare::index_of_char(s, ' ')
}

/// What `parts` returns: the method upper-cased and the path, both trimmed,
/// split at the first space; or the message refusing a request with none.
pub open spec fn request_parts(request: Seq<char>) -> Result<(Seq<char>, Seq<char>), Seq<char>> {
    match first_space(request) {
        Some(i) => Ok((
            uppercased(crate::text::trimmed(request.take(i))),
            crate::text::trimmed(request.skip(i + 1)),
        )),
        None => Err("request must be `METHOD /path`, got "@ + crate::text::debug_quoted(request)),
    }
}

impl Request {
    /// Split `METHOD /path` into its parts.
    pub fn parts(&self) -> (r: Result<(String, String), String>)
        ensures
            r matches Ok((m, p)) ==> request_parts(self.request@) == Ok::<(Seq<char>, Seq<char>), Seq<char>>((m@, p@)),
            r matches Err(e) ==> request_parts(self.request@) == Err::<(Seq<char>, Seq<char>), Seq<char>>(e@),
    {
        let cs = crate::text::chars_of(self.request.as_str());
        match crate::compare::index_of_char_exec(cs.as_slice(), ' ') {
            Some(i) => {
                let n = cs.len();
                assert(i < n);
                let head = crate::text::slice_to(cs.as_slice(), i);
                let tail = crate::text::slice_from(cs.as_slice(), i + 1);
                let m = crate::text::string_of(crate::text::trim_chars(head.as_slice()).as_slice());
                let p = crate::text::string_of(crate::text::trim_chars(tail.as_slice()).as_slice());
                Ok((to_uppercase(m.as_str()), p))
            },
            None => {
                let mut out: Vec<char> = Vec::new();
                crate::text::push_str(&mut out, "request must be `METHOD /path`, got ");
                let q = crate::text::quote_debug(cs.as_slice());
                out.extend_from_slice(q.as_slice());
                assert(out@ =~= request_parts(self.request@)->Err_0);
                Err(crate::text::string_of(out.as_slice()))
            },
        }
    }
}

} // verus!

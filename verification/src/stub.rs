//! The decisions of a stub HTTP backend, for testing the runner without a
//! container: which canned reply answers a request, and the run key a reply
//! may echo back. The listening socket around them belongs to the caller.
//!
//! A route matches when the request path contains its key. When several
//! replies are given for one route they are served in order and the last one
//! repeats, which is how a store that only becomes queryable after a poll or
//! two is described.

use vstd::prelude::*;
use crate::text::{occurs_at, contains_seq};

verus! {

/// What the stub answers for one route.
pub struct Reply {
    pub status: u16,
    pub body: String,
    pub content_type: &'static str,
}

impl Reply {
    /// A JSON reply.
    pub fn json(status: u16, body: &str) -> (r: Self)
        ensures
            r.status == status,
            r.body@ == body@,
            r.content_type@ == "application/json"@,
    {
        Reply {
            status,
            body: crate::text::string_of(crate::text::chars_of(body).as_slice()),
            content_type: "application/json",
        }
    }

    /// A copy of the reply.
    pub fn copy(&self) -> (r: Self)
        ensures
            r.status == self.status,
            r.body@ == self.body@,
            r.content_type@ == self.content_type@,
    {
        Reply { status: self.status, body: self.body.clone(), content_type: self.content_type }
    }
}

/// One request the stub was sent.
#[derive(Debug)]
pub struct Received {
    pub method: String,
    pub path: String,
    pub body: String,
}

impl Received {
    pub open spec fn received_view(&self) -> (Seq<char>, Seq<char>, Seq<char>) {
        (self.method@, self.path@, self.body@)
    }

    /// A copy of the record.
    pub fn copy(&self) -> (r: Self)
        ensures
            r.received_view() == self.received_view(),
    {
        Received { method: self.method.clone(), path: self.path.clone(), body: self.body.clone() }
    }
}

/// A stub's address and what it has been sent so far, in order.
pub struct Stub {
    pub url: String,
    pub log: Vec<Received>,
}

pub open spec fn received_views(v: Seq<Received>) -> Seq<(Seq<char>, Seq<char>, Seq<char>)> {
    v.map_values(|r: Received| r.received_view())
}

impl Stub {
    /// Every request the stub has been sent, in order.
    pub fn received(&self) -> (r: Vec<Received>)
        ensures
            received_views(r@) == received_views(self.log@),
    {
        let mut out: Vec<Received> = Vec::new();
        let mut i: usize = 0;
        while i < self.log.len()
            invariant
                i <= self.log@.len(),
                received_views(out@) == received_views(self.log@).take(i as int),
            decreases self.log@.len() - i,
        {
            let ghost before = received_views(out@);
            out.push(self.log[i].copy());
            assert(received_views(out@) =~= before.push(self.log@[i as int].received_view()));
            assert(received_views(self.log@).take(i + 1) =~= received_views(self.log@).take(i as int).push(
                self.log@[i as int].received_view(),
            ));
            i = i + 1;
        }
        assert(received_views(self.log@).take(self.log@.len() as int) =~= received_views(self.log@));
        out
    }

    /// The path of every request, in order.
    pub fn paths(&self) -> (r: Vec<String>)
        ensures
            r@.map_values(|p: String| p@) == self.log@.map_values(|x: Received| x.path@),
    {
        let mut out: Vec<String> = Vec::new();
        let mut i: usize = 0;
        while i < self.log.len()
            invariant
                i <= self.log@.len(),
                out@.map_values(|p: String| p@) == self.log@.map_values(|x: Received| x.path@).take(i as int),
            decreases self.log@.len() - i,
        {
            let ghost before = out@.map_values(|p: String| p@);
            out.push(self.log[i].path.clone());
            assert(out@.map_values(|p: String| p@) =~= before.push(self.log@[i as int].path@));
            assert(out@.map_values(|p: String| p@) =~= self.log@.map_values(|x: Received| x.path@).take(
                i + 1,
            ));
            i = i + 1;
        }
        assert(self.log@.map_values(|x: Received| x.path@).take(self.log@.len() as int)
            =~= self.log@.map_values(|x: Received| x.path@));
        out
    }
}

// ---------------------------------------------------------------------------
// Choosing a reply
// ---------------------------------------------------------------------------

/// The first route whose key the path contains.
pub open spec fn matching_route(keys: Seq<Seq<char>>, path: Seq<char>) -> Option<int>
    decreases keys.len(),
{
    if keys.len() == 0 {
        None
    } else if contains_seq(path, keys[0]) {
        Some(0)
    } else {
        match matching_route(keys.drop_first(), path) {
            Some(i) => Some(i + 1),
            None => None,
        }
    }
}

pub open spec fn route_keys(routes: Seq<(&str, Vec<Reply>)>) -> Seq<Seq<char>> {
    routes.map_values(|r: (&str, Vec<Reply>)| r.0@)
}

/// Every route has at least one reply.
pub open spec fn routes_well_formed(routes: Seq<(&str, Vec<Reply>)>) -> bool {
    forall|i: int| 0 <= i < routes.len() ==> (#[trigger] routes[i]).1@.len() > 0
}

pub open spec fn not_found_body() -> Seq<char> {
    "{\"error\":\"no stub route\"}"@
}

/// Picks the reply for a request to `path`. `served` counts, per route, the
/// requests it has answered: the matching route's next reply is served (the
/// last one repeating) and its count goes up; a path no route matches gets a
/// 404 and changes nothing.
pub fn pick_reply(routes: &Vec<(&str, Vec<Reply>)>, served: &mut Vec<usize>, path: &str) -> (r: Reply)
    requires
        routes_well_formed(routes@),
        old(served)@.len() == routes@.len(),
    ensures
        final(served)@.len() == routes@.len(),
        match matching_route(route_keys(routes@), path@) {
            Some(i) => {
                let replies = routes@[i].1@;
                let n = old(served)@[i] as int;
                let k = if n < replies.len() - 1 {
                    n
                } else {
                    replies.len() - 1
                };
                &&& r.status == replies[k].status
                &&& r.body@ == replies[k].body@
                &&& r.content_type@ == replies[k].content_type@
                &&& final(served)@ == old(served)@.update(i, if n < usize::MAX {
                    (n + 1) as usize
                } else {
                    n as usize
                })
            },
            None => {
                &&& r.status == 404
                &&& r.body@ == not_found_body()
                &&& r.content_type@ == "application/json"@
                &&& final(served)@ == old(served)@
            },
        },
{
    let p = crate::text::chars_of(path);
    let ghost keys = route_keys(routes@);
    let mut i: usize = 0;
    assert(keys.skip(0) =~= keys);
    while i < routes.len()
        invariant
            i <= routes@.len(),
            keys == route_keys(routes@),
            p@ == path@,
            served@ == old(served)@,
            routes_well_formed(routes@),
            served@.len() == routes@.len(),
            matching_route(keys, path@) == (match matching_route(keys.skip(i as int), path@) {
                Some(j) => Some(j + i),
                None => None,
            }),
        decreases routes@.len() - i,
    {
        assert(keys.skip(i as int)[0] == routes@[i as int].0@);
        assert(keys.skip(i as int).drop_first() =~= keys.skip(i + 1));
        let key = crate::text::chars_of(routes[i].0);
        if crate::text::contains_chars(p.as_slice(), key.as_slice()) {
            assert(matching_route(keys.skip(i as int), path@) == Some(0int));
            assert(routes@[i as int].1@.len() > 0);
            let replies = &routes[i].1;
            let n = served[i];
            let last = replies.len() - 1;
            let k = if n < last {
                n
            } else {
                last
            };
            let r = replies[k].copy();
            let next = if n < usize::MAX {
                n + 1
            } else {
                n
            };
            served.set(i, next);
            return r;
        }
        i = i + 1;
    }
    Reply {
        status: 404,
        body: crate::text::string_of(crate::text::chars_of("{\"error\":\"no stub route\"}").as_slice()),
        content_type: "application/json",
    }
}

// ---------------------------------------------------------------------------
// The run key a reply may echo
// ---------------------------------------------------------------------------

/// Where `p` first occurs in `s`.
pub open spec fn first_occurrence(s: Seq<char>, p: Seq<char>) -> Option<int>
    decreases s.len(),
{
    if occurs_at(s, 0, p) {
        Some(0)
    } else if s.len() == 0 {
        None
    } else {
        match first_occurrence(s.drop_first(), p) {
            Some(i) => Some(i + 1),
            None => None,
        }
    }
}

pub open spec fn is_hex(c: char) -> bool {
    ('0' <= c && c <= '9') || ('a' <= c && c <= 'f') || ('A' <= c && c <= 'F')
}

/// How many hex digits `s` starts with.
pub open spec fn leading_hex(s: Seq<char>) -> nat
    decreases s.len(),
{
    if s.len() == 0 || !is_hex(s[0]) {
        0
    } else {
        1 + leading_hex(s.drop_first())
    }
}

/// The run key a payload carries: `sm-` at its first occurrence and the hex
/// digits after it, when there is at least one.
pub open spec fn run_key_in(body: Seq<char>) -> Option<Seq<char>> {
    match first_occurrence(body, "sm-"@) {
        None => None,
        Some(start) => {
            let rest = body.skip(start + 3);
            let end = leading_hex(rest);
            if end > 0 {
                Some("sm-"@ + rest.take(end as int))
            } else {
                None
            }
        },
    }
}

fn leading_hex_exec(s: &[char], start: usize) -> (n: usize)
    requires
        start <= s@.len(),
    ensures
        n as nat == leading_hex(s@.skip(start as int)),
        start + n <= s@.len(),
{
    let mut i: usize = start;
    while i < s.len() && (('0' <= s[i] && s[i] <= '9') || ('a' <= s[i] && s[i] <= 'f') || ('A' <= s[i]
        && s[i] <= 'F'))
        invariant
            start <= i <= s@.len(),
            leading_hex(s@.skip(start as int)) == (i - start) + leading_hex(s@.skip(i as int)),
        decreases s@.len() - i,
    {
        assert(s@.skip(i as int).drop_first() =~= s@.skip(i + 1));
        i = i + 1;
    }
    i - start
}

/// Pulls the runner's run key out of a payload it sent. Keys are `sm-` and
/// hex, which no other part of the corpus's payloads looks like.
pub fn find_run_key(body: &str) -> (r: Option<String>)
    ensures
        crate::otlp::opt_string_view(r) == run_key_in(body@),
{
    proof {
        reveal_strlit("sm-");
    }
    let s = crate::text::chars_of(body);
    let pat = crate::text::chars_of("sm-");
    let mut i: usize = 0;
    assert(s@.skip(0) =~= s@);
    loop
        invariant
            i <= s@.len(),
            s@ == body@,
            pat@ == "sm-"@,
            pat@.len() == 3,
            first_occurrence(s@, pat@) == (match first_occurrence(s@.skip(i as int), pat@) {
                Some(j) => Some(j + i),
                None => None,
            }),
        decreases s@.len() - i,
    {
        let ghost t = s@.skip(i as int);
        if crate::text::chars_at(s.as_slice(), i, pat.as_slice()) {
            assert(t.subrange(0, 3) =~= s@.subrange(i as int, i + 3));
            assert(first_occurrence(t, pat@) == Some(0int));
            let n = s.len();
            assert(i + 3 <= n);
            let end = leading_hex_exec(s.as_slice(), i + 3);
            if end > 0 {
                let mut key: Vec<char> = Vec::new();
                key.push('s');
                key.push('m');
                key.push('-');
                proof {
                    reveal_strlit("sm-");
                }
                assert(key@ =~= "sm-"@ + s@.skip(i + 3).take(0));
                let mut k: usize = 0;
                while k < end
                    invariant
                        k <= end,
                        n == s@.len(),
                        i + 3 + end <= n,
                        key@ == "sm-"@ + s@.skip(i + 3).take(k as int),
                    decreases end - k,
                {
                    key.push(s[i + 3 + k]);
                    assert(s@.skip(i + 3).take(k + 1) =~= s@.skip(i + 3).take(k as int).push(s@[i + 3 + k]));
                    assert(key@ =~= "sm-"@ + s@.skip(i + 3).take(k + 1));
                    k = k + 1;
                }
                return Some(crate::text::string_of(key.as_slice()));
            }
            return None;
        }
        assert(!occurs_at(t, 0, pat@)) by {
            if occurs_at(t, 0, pat@) {
                assert(t.subrange(0, 3) =~= s@.subrange(i as int, i + 3));
            }
        }
        if i == s.len() {
            assert(t.len() == 0);
            return None;
        }
        assert(t.drop_first() =~= s@.skip(i + 1));
        i = i + 1;
    }
}

// ---------------------------------------------------------------------------
// Echoing the run key
// ---------------------------------------------------------------------------

/// The run key of the latest request that carried one, or nothing.
pub open spec fn latest_run_key(log: Seq<Received>) -> Option<Seq<char>>
    decreases log.len(),
{
    if log.len() == 0 {
        None
    } else {
        match run_key_in(log.last().body@) {
            Some(k) => Some(k),
            None => latest_run_key(log.drop_last()),
        }
    }
}

/// A reply's body as sent: every `{{RUNKEY}}` in it replaced by the latest
/// run key the stub was sent (by nothing when it was sent none). The key is
/// random per case, so without the echo no canned record could ever match
/// one, and the path to a pass could not be tested at all.
pub open spec fn echoed_body(body: Seq<char>, log: Seq<Received>) -> Seq<char> {
    if contains_seq(body, "{{RUNKEY}}"@) {
        crate::text::replaced(
            body,
            "{{RUNKEY}}"@,
            match latest_run_key(log) {
                Some(k) => k,
                None => Seq::empty(),
            },
        )
    } else {
        body
    }
}

/// The body to send for a reply, given every request received so far.
pub fn echo_run_key(body: &str, log: &Vec<Received>) -> (r: String)
    ensures
        r@ == echoed_body(body@, log@),
{
    let b = crate::text::chars_of(body);
    let marker = crate::text::chars_of("{{RUNKEY}}");
    if !crate::text::contains_chars(b.as_slice(), marker.as_slice()) {
        return crate::text::string_of(b.as_slice());
    }
    let ghost all = log@;
    let mut i: usize = log.len();
    let mut key: Option<String> = None;
    assert(all.take(i as int) =~= all);
    while i > 0
        invariant_except_break
            key is None,
        invariant
            i <= log@.len(),
            all == log@,
            latest_run_key(all) == latest_run_key(all.take(i as int)),
        ensures
            latest_run_key(all) == match key {
                Some(k) => Some(k@),
                None => latest_run_key(all.take(i as int)),
            },
            key is None ==> i == 0,
        decreases i,
    {
        let ghost t = all.take(i as int);
        assert(t.last() == log@[i - 1]);
        assert(t.drop_last() =~= all.take(i - 1));
        let found = find_run_key(log[i - 1].body.as_str());
        if let Some(k) = found {
            assert(run_key_in(t.last().body@) == Some(k@));
            assert(latest_run_key(t) == Some(k@));
            key = Some(k);
            break;
        }
        i = i - 1;
    }
    let with = match &key {
        Some(k) => crate::text::chars_of(k.as_str()),
        None => {
            assert(all.take(0) =~= Seq::<Received>::empty());
            Vec::new()
        },
    };
    let out = crate::text::replace_chars(b.as_slice(), marker.as_slice(), with.as_slice());
    crate::text::string_of(out.as_slice())
}

} // verus!

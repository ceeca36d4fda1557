//! JSON values, as the library reads them.
//!
//! A payload, a read-back response and an export report are all JSON. This
//! is the shape every reader in the library works on: numbers are kept as the
//! text `serde_json` prints for them, so nothing here ever holds a float, and
//! an object keeps its members in ascending key order, which is the order
//! `serde_json`'s map keeps them in.

use vstd::prelude::*;

verus! {

#[derive(Debug)]
pub enum Json {
    Null,
    Bool(bool),
    /// A number, as `serde_json` prints it.
    Number(String),
    String(String),
    Array(Vec<Json>),
    /// Members in ascending key order, each key once.
    Object(Vec<(String, Json)>),
}

pub enum JsonView {
    Null,
    Bool(bool),
    Number(Seq<char>),
    String(Seq<char>),
    Array(Seq<JsonView>),
    Object(Seq<(Seq<char>, JsonView)>),
}

impl View for Json {
    type V = JsonView;

    open spec fn view(&self) -> JsonView
        decreases self,
    {
        match self {
            Json::Null => JsonView::Null,
            Json::Bool(b) => JsonView::Bool(*b),
            Json::Number(n) => JsonView::Number(n@),
            Json::String(s) => JsonView::String(s@),
            Json::Array(items) => JsonView::Array(
                Seq::new(
                    items@.len(),
                    |i: int|
                        if 0 <= i < items@.len() {
                            items@[i].view()
                        } else {
                            JsonView::Null
                        },
                ),
            ),
            Json::Object(members) => JsonView::Object(
                Seq::new(
                    members@.len(),
                    |i: int|
                        (
                            members@[i].0@,
                            if 0 <= i < members@.len() {
                                members@[i].1.view()
                            } else {
                                JsonView::Null
                            },
                        ),
                ),
            ),
        }
    }
}

} // verus!

verus! {

pub open spec fn member_of(members: Seq<(Seq<char>, JsonView)>, key: Seq<char>) -> Option<JsonView>
    decreases members.len(),
{
    if members.len() == 0 {
        None
    } else if members[0].0 == key {
        Some(members[0].1)
    } else {
        member_of(members.drop_first(), key)
    }
}

impl JsonView {
    /// The member `key` of an object; nothing for anything else.
    pub open spec fn get(self, key: Seq<char>) -> Option<JsonView> {
        match self {
            JsonView::Object(m) => member_of(m, key),
            _ => None,
        }
    }

    /// Element `i` of an array; nothing for anything else.
    pub open spec fn at(self, i: int) -> Option<JsonView> {
        match self {
            JsonView::Array(a) => if 0 <= i < a.len() {
                Some(a[i])
            } else {
                None
            },
            _ => None,
        }
    }

    pub open spec fn as_array(self) -> Option<Seq<JsonView>> {
        match self {
            JsonView::Array(a) => Some(a),
            _ => None,
        }
    }

    pub open spec fn as_str(self) -> Option<Seq<char>> {
        match self {
            JsonView::String(s) => Some(s),
            _ => None,
        }
    }
}

pub open spec fn opt_view(r: Option<&Json>) -> Option<JsonView> {
    match r {
        Some(v) => Some(v@),
        None => None,
    }
}

pub open spec fn opt_owned_view(r: Option<Json>) -> Option<JsonView> {
    match r {
        Some(v) => Some(v@),
        None => None,
    }
}

impl Json {
    /// The member `key` of an object (`Value::get` with a string).
    pub fn get(&self, key: &str) -> (r: Option<&Json>)
        ensures
            opt_view(r) == self@.get(key@),
    {
        match self {
            Json::Object(members) => {
                let ghost m = match self@ {
                    JsonView::Object(m) => m,
                    _ => Seq::empty(),
                };
                assert(m.len() == members@.len());
                assert forall|j: int| 0 <= j < members@.len() implies #[trigger] m[j] == (
                    members@[j].0@,
                    members@[j].1@,
                ) by {}
                let mut i: usize = 0;
                assert(m.skip(0) =~= m);
                while i < members.len()
                    invariant
                        i <= members@.len(),
                        self@ == JsonView::Object(m),
                        m.len() == members@.len(),
                        forall|j: int| 0 <= j < members@.len() ==> #[trigger] m[j] == (members@[j].0@, members@[j].1@),
                        member_of(m, key@) == member_of(m.skip(i as int), key@),
                    decreases members@.len() - i,
                {
                    assert(m.skip(i as int).drop_first() =~= m.skip(i + 1));
                    assert(m.skip(i as int)[0] == m[i as int]);
                    if crate::text::str_eq(members[i].0.as_str(), key) {
                        return Some(&members[i].1);
                    }
                    i = i + 1;
                }
                None
            },
            _ => None,
        }
    }

    /// Element `i` of an array (`Value::get` with an index).
    pub fn at(&self, i: usize) -> (r: Option<&Json>)
        ensures
            opt_view(r) == self@.at(i as int),
    {
        match self {
            Json::Array(items) => {
                if i < items.len() {
                    Some(&items[i])
                } else {
                    None
                }
            },
            _ => None,
        }
    }

    /// The elements of an array.
    pub fn as_array(&self) -> (r: Option<&Vec<Json>>)
        ensures
            r matches Some(items) ==> self@.as_array() == Some(
                Seq::new(items@.len(), |i: int| items@[i]@),
            ),
            r is None ==> self@.as_array() is None,
    {
        match self {
            Json::Array(items) => {
                assert(self@.as_array() == Some(Seq::new(items@.len(), |i: int| items@[i]@)));
                Some(items)
            },
            _ => None,
        }
    }

    /// The text of a string.
    pub fn as_str(&self) -> (r: Option<&str>)
        ensures
            r matches Some(s) ==> self@.as_str() == Some(s@),
            r is None ==> self@.as_str() is None,
    {
        match self {
            Json::String(s) => Some(s.as_str()),
            _ => None,
        }
    }

    /// A copy of the value.
    pub fn copy(&self) -> (r: Json)
        ensures
            r@ == self@,
        decreases self,
    {
        match self {
            Json::Null => Json::Null,
            Json::Bool(b) => Json::Bool(*b),
            Json::Number(n) => Json::Number(n.clone()),
            Json::String(s) => Json::String(s.clone()),
            Json::Array(items) => {
                let mut out: Vec<Json> = Vec::new();
                let mut i: usize = 0;
                while i < items.len()
                    invariant
                        *self == Json::Array(*items),
                        i <= items@.len(),
                        out@.len() == i,
                        forall|j: int| 0 <= j < i ==> #[trigger] out@[j]@ == items@[j]@,
                    decreases items@.len() - i,
                {
                    proof {
                        assert(decreases_to!(*self => self->Array_0));
                        assert(decreases_to!(self->Array_0 => self->Array_0@));
                        assert(decreases_to!(self->Array_0@ => self->Array_0@[i as int]));
                    }
                    let c = items[i].copy();
                    out.push(c);
                    i = i + 1;
                }
                let r = Json::Array(out);
                assert forall|j: int| 0 <= j < items@.len() implies r@->Array_0[j] == self@->Array_0[j] by {
                    assert(r@->Array_0[j] == out@[j]@);
                    assert(self@->Array_0[j] == items@[j]@);
                }
                assert(r@->Array_0 =~= self@->Array_0);
                r
            },
            Json::Object(members) => {
                let mut out: Vec<(String, Json)> = Vec::new();
                let mut i: usize = 0;
                while i < members.len()
                    invariant
                        *self == Json::Object(*members),
                        i <= members@.len(),
                        out@.len() == i,
                        forall|j: int|
                            #![trigger out@[j]]
                            0 <= j < i ==> out@[j].0@ == members@[j].0@ && out@[j].1@
                                == members@[j].1@,
                    decreases members@.len() - i,
                {
                    let k = members[i].0.clone();
                    proof {
                        assert(decreases_to!(*self => self->Object_0));
                        assert(decreases_to!(self->Object_0 => self->Object_0@));
                        assert(decreases_to!(self->Object_0@ => self->Object_0@[i as int]));
                        assert(decreases_to!(self->Object_0@[i as int] => self->Object_0@[i as int].1));
                    }
                    let v = members[i].1.copy();
                    assert(k@ == members@[i as int].0@);
                    out.push((k, v));
                    assert(out@[i as int].0@ == members@[i as int].0@);
                    i = i + 1;
                }
                let r = Json::Object(out);
                assert(r@->Object_0 =~= self@->Object_0);
                r
            },
        }
    }
}

} // verus!

verus! {

// ---------------------------------------------------------------------------
// Text, as `serde_json` writes it
// ---------------------------------------------------------------------------

pub open spec fn lower_hex(d: int) -> char {
    if d < 10 {
        ((d + 48) as u8) as char
    } else {
        ((d - 10 + 97) as u8) as char
    }
}

/// How `serde_json` writes one character inside a string.
pub open spec fn json_escape_char(c: char) -> Seq<char> {
    let u = c as u32 as int;
    if c == '"' {
        seq!['\\', '"']
    } else if c == '\\' {
        seq!['\\', '\\']
    } else if u == 8 {
        seq!['\\', 'b']
    } else if c == '\t' {
        seq!['\\', 't']
    } else if c == '\n' {
        seq!['\\', 'n']
    } else if u == 12 {
        seq!['\\', 'f']
    } else if c == '\r' {
        seq!['\\', 'r']
    } else if u < 0x20 {
        seq!['\\', 'u', '0', '0', lower_hex(u / 16), lower_hex(u % 16)]
    } else {
        seq![c]
    }
}

pub open spec fn json_escaped(s: Seq<char>) -> Seq<char>
    decreases s.len(),
{
    if s.len() == 0 {
        Seq::empty()
    } else {
        json_escaped(s.drop_last()) + json_escape_char(s.last())
    }
}

/// A string as JSON writes it, quotes included.
pub open spec fn json_quoted(s: Seq<char>) -> Seq<char> {
    seq!['"'] + json_escaped(s) + seq!['"']
}

/// A value as `serde_json` writes it compactly (`Value`'s `Display`).
pub open spec fn json_text(v: JsonView) -> Seq<char>
    decreases v,
{
    match v {
        JsonView::Null => "null"@,
        JsonView::Bool(b) => if b {
            "true"@
        } else {
            "false"@
        },
        JsonView::Number(t) => t,
        JsonView::String(s) => json_quoted(s),
        JsonView::Array(items) => seq!['['] + crate::text::joined(item_texts(items), seq![','])
            + seq![']'],
        JsonView::Object(m) => seq!['{'] + crate::text::joined(member_texts(m), seq![','])
            + seq!['}'],
    }
}

/// The text of each element.
pub open spec fn item_texts(items: Seq<JsonView>) -> Seq<Seq<char>>
    decreases items,
{
    if items.len() == 0 {
        Seq::empty()
    } else {
        item_texts(items.drop_last()).push(json_text(items.last()))
    }
}

/// `"key":value` for each member.
pub open spec fn member_texts(m: Seq<(Seq<char>, JsonView)>) -> Seq<Seq<char>>
    decreases m,
{
    if m.len() == 0 {
        Seq::empty()
    } else {
        member_texts(m.drop_last()).push(
            json_quoted(m.last().0) + seq![':'] + json_text(m.last().1),
        )
    }
}

proof fn lemma_item_texts_len(items: Seq<JsonView>)
    ensures
        item_texts(items).len() == items.len(),
    decreases items.len(),
{
    if items.len() > 0 {
        lemma_item_texts_len(items.drop_last());
    }
}

proof fn lemma_member_texts_len(m: Seq<(Seq<char>, JsonView)>)
    ensures
        member_texts(m).len() == m.len(),
    decreases m.len(),
{
    if m.len() > 0 {
        lemma_member_texts_len(m.drop_last());
    }
}

fn push_json_escape(out: &mut Vec<char>, c: char)
    ensures
        final(out)@ == old(out)@ + json_escape_char(c),
{
    let ghost before = out@;
    let u = c as u32;
    if c == '"' {
        out.push('\\');
        out.push('"');
    } else if c == '\\' {
        out.push('\\');
        out.push('\\');
    } else if u == 8 {
        out.push('\\');
        out.push('b');
    } else if c == '\t' {
        out.push('\\');
        out.push('t');
    } else if c == '\n' {
        out.push('\\');
        out.push('n');
    } else if u == 12 {
        out.push('\\');
        out.push('f');
    } else if c == '\r' {
        out.push('\\');
        out.push('r');
    } else if u < 0x20 {
        out.push('\\');
        out.push('u');
        out.push('0');
        out.push('0');
        let hi = (u / 16) as u8;
        let lo = (u % 16) as u8;
        out.push(if hi < 10 { (hi + 48) as char } else { (hi - 10 + 97) as char });
        out.push(if lo < 10 { (lo + 48) as char } else { (lo - 10 + 97) as char });
    } else {
        out.push(c);
    }
    assert(out@ =~= before + json_escape_char(c));
}

/// Writes `s` as a JSON string, quotes included.
pub fn push_json_quoted(out: &mut Vec<char>, s: &str)
    ensures
        final(out)@ == old(out)@ + json_quoted(s@),
{
    let cs = crate::text::chars_of(s);
    let ghost start = out@;
    out.push('"');
    let mut i: usize = 0;
    while i < cs.len()
        invariant
            i <= cs@.len(),
            out@ == start + seq!['"'] + json_escaped(cs@.take(i as int)),
        decreases cs@.len() - i,
    {
        assert(cs@.take(i + 1).drop_last() =~= cs@.take(i as int));
        push_json_escape(out, cs[i]);
        i = i + 1;
    }
    assert(cs@.take(cs@.len() as int) =~= cs@);
    out.push('"');
    assert(out@ =~= start + json_quoted(s@));
}

impl Json {
    /// Writes the value as `serde_json` prints it.
    pub fn write_text(&self, out: &mut Vec<char>)
        ensures
            final(out)@ == old(out)@ + json_text(self@),
        decreases self,
    {
        match self {
            Json::Null => crate::text::push_str(out, "null"),
            Json::Bool(b) => if *b {
                crate::text::push_str(out, "true")
            } else {
                crate::text::push_str(out, "false")
            },
            Json::Number(n) => crate::text::push_str(out, n.as_str()),
            Json::String(s) => push_json_quoted(out, s.as_str()),
            Json::Array(items) => {
                let ghost start = out@;
                let ghost v = self@->Array_0;
                out.push('[');
                let mut i: usize = 0;
                while i < items.len()
                    invariant
                        *self == Json::Array(*items),
                        v == self@->Array_0,
                        v.len() == items@.len(),
                        forall|k: int| 0 <= k < v.len() ==> #[trigger] v[k] == items@[k]@,
                        i <= items@.len(),
                        out@ == start + seq!['['] + crate::text::joined(item_texts(v.take(i as int)), seq![',']),
                    decreases items@.len() - i,
                {
                    proof {
                        assert(decreases_to!(*self => self->Array_0));
                        assert(decreases_to!(self->Array_0 => self->Array_0@));
                        assert(decreases_to!(self->Array_0@ => self->Array_0@[i as int]));
                        let t = v.take(i + 1);
                        assert(t.drop_last() =~= v.take(i as int));
                        assert(item_texts(t) == item_texts(v.take(i as int)).push(json_text(v[i as int])));
                        assert(item_texts(t).drop_last() =~= item_texts(v.take(i as int)));
                    }
                    if i > 0 {
                        out.push(',');
                    }
                    items[i].write_text(out);
                    proof {
                        let t = v.take(i + 1);
                        if i == 0 {
                            assert(item_texts(v.take(0)) =~= Seq::<Seq<char>>::empty());
                        }
                        assert(item_texts(t).len() == i + 1) by {
                            lemma_item_texts_len(t);
                        }
                    }
                    assert(out@ =~= start + seq!['['] + crate::text::joined(
                        item_texts(v.take(i + 1)),
                        seq![','],
                    ));
                    i = i + 1;
                }
                out.push(']');
                assert(v.take(v.len() as int) =~= v);
                assert(out@ =~= start + json_text(self@));
            },
            Json::Object(members) => {
                let ghost start = out@;
                let ghost v = self@->Object_0;
                out.push('{');
                let mut i: usize = 0;
                while i < members.len()
                    invariant
                        *self == Json::Object(*members),
                        v == self@->Object_0,
                        v.len() == members@.len(),
                        forall|k: int| 0 <= k < v.len() ==> #[trigger] v[k] == (members@[k].0@, members@[k].1@),
                        i <= members@.len(),
                        out@ == start + seq!['{'] + crate::text::joined(member_texts(v.take(i as int)), seq![',']),
                    decreases members@.len() - i,
                {
                    proof {
                        assert(decreases_to!(*self => self->Object_0));
                        assert(decreases_to!(self->Object_0 => self->Object_0@));
                        assert(decreases_to!(self->Object_0@ => self->Object_0@[i as int]));
                        assert(decreases_to!(self->Object_0@[i as int] => self->Object_0@[i as int].1));
                        let t = v.take(i + 1);
                        assert(t.drop_last() =~= v.take(i as int));
                        assert(member_texts(t).drop_last() =~= member_texts(v.take(i as int)));
                    }
                    if i > 0 {
                        out.push(',');
                    }
                    push_json_quoted(out, members[i].0.as_str());
                    out.push(':');
                    members[i].1.write_text(out);
                    proof {
                        let t = v.take(i + 1);
                        if i == 0 {
                            assert(member_texts(v.take(0)) =~= Seq::<Seq<char>>::empty());
                        }
                        assert(member_texts(t).len() == i + 1) by {
                            lemma_member_texts_len(t);
                        }
                    }
                    assert(out@ =~= start + seq!['{'] + crate::text::joined(
                        member_texts(v.take(i + 1)),
                        seq![','],
                    ));
                    i = i + 1;
                }
                out.push('}');
                assert(v.take(v.len() as int) =~= v);
                assert(out@ =~= start + json_text(self@));
            },
        }
    }

    /// The value as `serde_json` prints it (`Value::to_string`).
    pub fn to_text(&self) -> (s: String)
        ensures
            s@ == json_text(self@),
    {
        let mut out: Vec<char> = Vec::new();
        self.write_text(&mut out);
        assert(out@ =~= json_text(self@));
        crate::text::string_of(out.as_slice())
    }
}

} // verus!

verus! {

// ---------------------------------------------------------------------------
// Equality, as `serde_json::Value`'s `==` decides it
// ---------------------------------------------------------------------------

/// Two number texts name the same `serde_json` number: the same text, or the
/// two float zeros, which `==` on `f64` does not tell apart.
pub open spec fn number_same(a: Seq<char>, b: Seq<char>) -> bool {
    a == b || ((a == "0.0"@ || a == "-0.0"@) && (b == "0.0"@ || b == "-0.0"@))
}

/// `==` on two values.
pub open spec fn json_same(a: JsonView, b: JsonView) -> bool
    decreases a,
{
    match a {
        JsonView::Null => b is Null,
        JsonView::Bool(x) => b matches JsonView::Bool(y) && x == y,
        JsonView::Number(x) => b matches JsonView::Number(y) && number_same(x, y),
        JsonView::String(x) => b matches JsonView::String(y) && x == y,
        JsonView::Array(x) => match b {
            JsonView::Array(y) => x.len() == y.len() && forall|i: int|
                0 <= i < x.len() ==> json_same(#[trigger] x[i], y[i]),
            _ => false,
        },
        JsonView::Object(x) => match b {
            JsonView::Object(y) => x.len() == y.len() && forall|i: int|
                0 <= i < x.len() ==> (#[trigger] x[i]).0 == y[i].0 && json_same(x[i].1, y[i].1),
            _ => false,
        },
    }
}

fn number_same_exec(a: &str, b: &str) -> (r: bool)
    ensures
        r == number_same(a@, b@),
{
    proof {
        reveal_strlit("0.0");
        reveal_strlit("-0.0");
    }
    if crate::text::str_eq(a, b) {
        return true;
    }
    let az = crate::text::str_eq(a, "0.0") || crate::text::str_eq(a, "-0.0");
    let bz = crate::text::str_eq(b, "0.0") || crate::text::str_eq(b, "-0.0");
    az && bz
}

impl Json {
    /// Whether two values are equal, as `==` on `serde_json::Value` decides.
    pub fn same(&self, other: &Json) -> (r: bool)
        ensures
            r == json_same(self@, other@),
        decreases self,
    {
        match self {
            Json::Null => match other {
                Json::Null => true,
                _ => false,
            },
            Json::Bool(x) => match other {
                Json::Bool(y) => *x == *y,
                _ => false,
            },
            Json::Number(x) => match other {
                Json::Number(y) => number_same_exec(x.as_str(), y.as_str()),
                _ => false,
            },
            Json::String(x) => match other {
                Json::String(y) => crate::text::str_eq(x.as_str(), y.as_str()),
                _ => false,
            },
            Json::Array(xs) => match other {
                Json::Array(ys) => {
                    if xs.len() != ys.len() {
                        return false;
                    }
                    let ghost a = self@->Array_0;
                    let ghost b = other@->Array_0;
                    let mut i: usize = 0;
                    while i < xs.len()
                        invariant
                            *self == Json::Array(*xs),
                            *other == Json::Array(*ys),
                            a == self@->Array_0,
                            b == other@->Array_0,
                            xs@.len() == ys@.len(),
                            a.len() == xs@.len(),
                            b.len() == ys@.len(),
                            forall|k: int| 0 <= k < a.len() ==> #[trigger] a[k] == xs@[k]@,
                            forall|k: int| 0 <= k < b.len() ==> #[trigger] b[k] == ys@[k]@,
                            i <= xs@.len(),
                            forall|k: int| 0 <= k < i ==> json_same(#[trigger] a[k], b[k]),
                        decreases xs@.len() - i,
                    {
                        proof {
                            assert(decreases_to!(*self => self->Array_0));
                            assert(decreases_to!(self->Array_0 => self->Array_0@));
                            assert(decreases_to!(self->Array_0@ => self->Array_0@[i as int]));
                        }
                        if !xs[i].same(&ys[i]) {
                            assert(!json_same(a[i as int], b[i as int]));
                            return false;
                        }
                        i = i + 1;
                    }
                    true
                },
                _ => false,
            },
            Json::Object(xs) => match other {
                Json::Object(ys) => {
                    if xs.len() != ys.len() {
                        return false;
                    }
                    let ghost a = self@->Object_0;
                    let ghost b = other@->Object_0;
                    let mut i: usize = 0;
                    while i < xs.len()
                        invariant
                            *self == Json::Object(*xs),
                            *other == Json::Object(*ys),
                            a == self@->Object_0,
                            b == other@->Object_0,
                            xs@.len() == ys@.len(),
                            a.len() == xs@.len(),
                            b.len() == ys@.len(),
                            forall|k: int| 0 <= k < a.len() ==> #[trigger] a[k] == (xs@[k].0@, xs@[k].1@),
                            forall|k: int| 0 <= k < b.len() ==> #[trigger] b[k] == (ys@[k].0@, ys@[k].1@),
                            i <= xs@.len(),
                            forall|k: int|
                                0 <= k < i ==> (#[trigger] a[k]).0 == b[k].0 && json_same(a[k].1, b[k].1),
                        decreases xs@.len() - i,
                    {
                        proof {
                            assert(decreases_to!(*self => self->Object_0));
                            assert(decreases_to!(self->Object_0 => self->Object_0@));
                            assert(decreases_to!(self->Object_0@ => self->Object_0@[i as int]));
                            assert(decreases_to!(self->Object_0@[i as int] => self->Object_0@[i as int].1));
                        }
                        let ghost ai = a[i as int];
                        let ghost bi = b[i as int];
                        if !crate::text::str_eq(xs[i].0.as_str(), ys[i].0.as_str()) {
                            assert(ai.0 != bi.0);
                            return false;
                        }
                        if !xs[i].1.same(&ys[i].1) {
                            assert(!json_same(ai.1, bi.1));
                            return false;
                        }
                        i = i + 1;
                    }
                    true
                },
                _ => false,
            },
        }
    }
}

} // verus!

verus! {

// ---------------------------------------------------------------------------
// JSON pointers (RFC 6901), as `Value::pointer` reads them
// ---------------------------------------------------------------------------

/// A reference token with its escapes undone: `~1` is `/`, then `~0` is `~`.
pub open spec fn unescape_token(raw: Seq<char>) -> Seq<char> {
    crate::text::replaced(crate::text::replaced(raw, "~1"@, "/"@), "~0"@, "~"@)
}

/// An array index as a pointer writes it: digits, no sign, no leading zero.
pub open spec fn pointer_index(token: Seq<char>) -> Option<int> {
    if token.len() > 0 && (token[0] == '+' || (token[0] == '0' && token.len() != 1)) {
        None
    } else {
        crate::text::parse_unsigned(token, usize::MAX as int)
    }
}

/// One step down: a member of an object, or an element of an array.
pub open spec fn pointer_step(v: JsonView, token: Seq<char>) -> Option<JsonView> {
    match v {
        JsonView::Object(m) => member_of(m, token),
        JsonView::Array(a) => match pointer_index(token) {
            Some(i) => if i < a.len() {
                Some(a[i])
            } else {
                None
            },
            None => None,
        },
        _ => None,
    }
}

/// Following the tokens in order.
pub open spec fn pointer_walk(v: JsonView, tokens: Seq<Seq<char>>) -> Option<JsonView>
    decreases tokens.len(),
{
    if tokens.len() == 0 {
        Some(v)
    } else {
        match pointer_step(v, unescape_token(tokens[0])) {
            Some(w) => pointer_walk(w, tokens.drop_first()),
            None => None,
        }
    }
}

/// What `pointer` finds: the whole value for an empty pointer, nothing for
/// one that does not start with `/`.
pub open spec fn pointer_get(v: JsonView, pointer: Seq<char>) -> Option<JsonView> {
    if pointer.len() == 0 {
        Some(v)
    } else if pointer[0] != '/' {
        None
    } else {
        pointer_walk(v, crate::text::split_on(pointer.drop_first(), '/'))
    }
}

fn unescape_token_exec(raw: &[char]) -> (r: String)
    ensures
        r@ == unescape_token(raw@),
{
    let tilde_one = crate::text::chars_of("~1");
    let slash = crate::text::chars_of("/");
    let tilde_zero = crate::text::chars_of("~0");
    let tilde = crate::text::chars_of("~");
    let once = crate::text::replace_chars(raw, tilde_one.as_slice(), slash.as_slice());
    let twice = crate::text::replace_chars(once.as_slice(), tilde_zero.as_slice(), tilde.as_slice());
    crate::text::string_of(twice.as_slice())
}

fn pointer_index_exec(token: &[char]) -> (r: Option<usize>)
    ensures
        r matches Some(i) ==> pointer_index(token@) == Some(i as int),
        r is None ==> pointer_index(token@) is None,
{
    if token.len() > 0 && (token[0] == '+' || (token[0] == '0' && token.len() != 1)) {
        None
    } else {
        crate::text::parse_index(token)
    }
}

impl Json {
    fn step(&self, token: &str) -> (r: Option<&Json>)
        ensures
            opt_view(r) == pointer_step(self@, token@),
    {
        match self {
            Json::Object(_) => self.get(token),
            Json::Array(_) => {
                let cs = crate::text::chars_of(token);
                match pointer_index_exec(cs.as_slice()) {
                    Some(i) => self.at(i),
                    None => None,
                }
            },
            _ => None,
        }
    }

    /// The value a JSON pointer names (`Value::pointer`).
    pub fn pointer(&self, pointer: &str) -> (r: Option<&Json>)
        ensures
            opt_view(r) == pointer_get(self@, pointer@),
    {
        let p = crate::text::chars_of(pointer);
        if p.len() == 0 {
            return Some(self);
        }
        if p[0] != '/' {
            return None;
        }
        let rest = crate::text::slice_from(p.as_slice(), 1);
        assert(rest@ =~= pointer@.drop_first());
        let tokens = crate::text::split_chars(rest.as_slice(), '/');
        let ghost toks = crate::text::views_of(tokens@);
        let mut cur: &Json = self;
        let mut i: usize = 0;
        assert(toks.skip(0) =~= toks);
        while i < tokens.len()
            invariant
                i <= tokens@.len(),
                toks == crate::text::views_of(tokens@),
                toks == crate::text::split_on(pointer@.drop_first(), '/'),
                pointer_get(self@, pointer@) == pointer_walk(cur@, toks.skip(i as int)),
            decreases tokens@.len() - i,
        {
            assert(toks.skip(i as int)[0] == tokens@[i as int]@);
            assert(toks.skip(i as int).drop_first() =~= toks.skip(i + 1));
            let token = unescape_token_exec(tokens[i].as_slice());
            match cur.step(token.as_str()) {
                Some(next) => {
                    cur = next;
                },
                None => {
                    return None;
                },
            }
            i = i + 1;
        }
        Some(cur)
    }
}

// ---------------------------------------------------------------------------
// Numbers
// ---------------------------------------------------------------------------

/// `Number::as_i64` read off the printed text: an integer that fits, never a
/// float (whose text always carries a `.` or an exponent).
pub open spec fn number_i64(text: Seq<char>) -> Option<int> {
    crate::text::parse_signed(text, i64::MIN as int, i64::MAX as int)
}

/// A number's `as_i64`: an integer value that fits in `i64`.
pub open spec fn json_i64(v: JsonView) -> Option<int> {
    match v {
        JsonView::Number(t) => number_i64(t),
        _ => None,
    }
}

impl Json {
    /// `Value::as_i64`.
    pub fn as_i64(&self) -> (r: Option<i64>)
        ensures
            r matches Some(n) ==> json_i64(self@) == Some(n as int),
            r is None ==> json_i64(self@) is None,
    {
        match self {
            Json::Number(t) => {
                let cs = crate::text::chars_of(t.as_str());
                crate::text::parse_i64(cs.as_slice())
            },
            _ => None,
        }
    }
}

} // verus!

verus! {

// ---------------------------------------------------------------------------
// Reading JSON text with `serde_json`
// ---------------------------------------------------------------------------

#[verifier::external_type_specification]
#[verifier::external_body]
pub struct ExValue(serde_json::Value);

/// What `serde_json::from_slice::<Value>` makes of the bytes, if it accepts
/// them.
pub uninterp spec fn parsed_json(bytes: Seq<u8>) -> Option<JsonView>;

/// `serde_json`'s `Value`, carried over into the library's own type one
/// variant for one: a number keeps the text `Number`'s `Display` prints, an
/// object its members in the map's (ascending) order.
#[verifier::external_body]
fn json_of_value(value: serde_json::Value) -> Json {
    match value {
        serde_json::Value::Null => Json::Null,
        serde_json::Value::Bool(b) => Json::Bool(b),
        serde_json::Value::Number(n) => Json::Number(n.to_string()),
        serde_json::Value::String(s) => Json::String(s),
        serde_json::Value::Array(items) => Json::Array(items.into_iter().map(json_of_value).collect()),
        serde_json::Value::Object(m) => Json::Object(m.into_iter().map(|(k, v)| (k, json_of_value(v))).collect()),
    }
}

/// `serde_json::from_slice::<Value>`. Claimed: the result is the named
/// reading of the bytes, and empty input is refused (the parser reports an
/// end of input before any value). What `serde_json` accepts is not restated.
#[verifier::external_body]
fn parse_value(bytes: &[u8]) -> (r: Option<Json>)
    ensures
        opt_owned_view(r) == parsed_json(bytes@),
        bytes@.len() == 0 ==> r is None,
{
    serde_json::from_slice::<serde_json::Value>(bytes).ok().map(json_of_value)
}

impl Json {
    /// Reads JSON text, as `serde_json::from_slice` does.
    pub fn parse(bytes: &[u8]) -> (r: Option<Json>)
        ensures
            opt_owned_view(r) == parsed_json(bytes@),
            bytes@.len() == 0 ==> r is None,
    {
        parse_value(bytes)
    }
}

} // verus!

verus! {

// ---------------------------------------------------------------------------
// Building objects, as `serde_json::Map::insert` does
// ---------------------------------------------------------------------------

/// The members after `insert(k, v)`: in key order, a member with key `k`
/// replaced, otherwise one added before the first larger key.
pub open spec fn inserted(
    m: Seq<(Seq<char>, JsonView)>,
    k: Seq<char>,
    v: JsonView,
) -> Seq<(Seq<char>, JsonView)>
    decreases m.len(),
{
    if m.len() == 0 {
        seq![(k, v)]
    } else if m[0].0 == k {
        seq![(k, v)] + m.drop_first()
    } else if crate::order::text_less(k, m[0].0) {
        seq![(k, v)] + m
    } else {
        seq![m[0]] + inserted(m.drop_first(), k, v)
    }
}

pub open spec fn member_views(m: Seq<(String, Json)>) -> Seq<(Seq<char>, JsonView)> {
    Seq::new(m.len(), |i: int| (m[i].0@, m[i].1@))
}

/// Inserts a member into an object's members (`Map::insert`).
pub fn insert_member(members: &mut Vec<(String, Json)>, key: String, value: Json)
    ensures
        member_views(final(members)@) == inserted(member_views(old(members)@), key@, value@),
{
    let ghost m = member_views(members@);
    let ghost k = key@;
    let ghost v = value@;
    let kc = crate::text::chars_of(key.as_str());
    let mut i: usize = 0;
    assert(m.take(0) + m.skip(0) =~= m);
    assert(inserted(m, k, v) == m.take(0) + inserted(m.skip(0), k, v)) by {
        assert(m.take(0) =~= Seq::<(Seq<char>, JsonView)>::empty());
        assert(m.skip(0) =~= m);
        assert(Seq::<(Seq<char>, JsonView)>::empty() + inserted(m, k, v) =~= inserted(m, k, v));
    }
    loop
        invariant
            i <= members@.len(),
            m == member_views(members@),
            k == key@,
            kc@ == k,
            forall|j: int| 0 <= j < i ==> crate::order::text_less(#[trigger] m[j].0, k),
            inserted(m, k, v) == m.take(i as int) + inserted(m.skip(i as int), k, v),
        ensures
            i <= members@.len(),
            m == member_views(members@),
            i < members@.len() ==> !crate::order::text_less(m[i as int].0, k),
            inserted(m, k, v) == m.take(i as int) + inserted(m.skip(i as int), k, v),
        decreases members@.len() - i,
    {
        if i >= members.len() {
            break;
        }
        let mc = crate::text::chars_of(members[i].0.as_str());
        if !crate::order::less(mc.as_slice(), kc.as_slice()) {
            break;
        }
        proof {
            let a = m[i as int].0;
            crate::order::lemma_less_total(a, k);
            crate::order::lemma_less_irreflexive(a);
            assert(a != k);
            assert(!crate::order::text_less(k, a));
            let t = m.skip(i as int);
            assert(t[0] == m[i as int]);
            assert(t.drop_first() =~= m.skip(i + 1));
            assert(inserted(t, k, v) == seq![m[i as int]] + inserted(m.skip(i + 1), k, v));
            assert(m.take(i + 1) =~= m.take(i as int).push(m[i as int]));
            assert(m.take(i as int) + (seq![m[i as int]] + inserted(m.skip(i + 1), k, v))
                =~= m.take(i + 1) + inserted(m.skip(i + 1), k, v));
        }
        i = i + 1;
    }
    let ghost t = m.skip(i as int);
    if i < members.len() && crate::text::str_eq(members[i].0.as_str(), key.as_str()) {
        assert(t[0].0 == k);
        assert(t.drop_first() =~= m.skip(i + 1));
        members.set(i, (key, value));
        assert(member_views(members@) =~= m.take(i as int) + (seq![(k, v)] + m.skip(i + 1)));
    } else {
        proof {
            if i < m.len() {
                let a = m[i as int].0;
                crate::order::lemma_less_total(a, k);
                assert(t[0] == m[i as int]);
                assert(crate::order::text_less(k, a));
            } else {
                assert(t.len() == 0);
            }
        }
        members.insert(i, (key, value));
        assert(member_views(members@) =~= m.take(i as int) + (seq![(k, v)] + t));
    }
}

/// `s` without the prefix `p`, if it starts with it (`str::strip_prefix`).
pub open spec fn strip_prefix(s: Seq<char>, p: Seq<char>) -> Option<Seq<char>> {
    if p.len() <= s.len() && s.take(p.len() as int) == p {
        Some(s.skip(p.len() as int))
    } else {
        None
    }
}

/// `str::strip_prefix`.
pub fn strip_prefix_exec(s: &str, p: &str) -> (r: Option<String>)
    ensures
        r matches Some(t) ==> strip_prefix(s@, p@) == Some(t@),
        r is None ==> strip_prefix(s@, p@) is None,
{
    let sc = crate::text::chars_of(s);
    let pc = crate::text::chars_of(p);
    if pc.len() <= sc.len() && crate::text::chars_at(sc.as_slice(), 0, pc.as_slice()) {
        assert(sc@.subrange(0, pc@.len() as int) =~= sc@.take(pc@.len() as int));
        let rest = crate::text::slice_from(sc.as_slice(), pc.len());
        Some(crate::text::string_of(rest.as_slice()))
    } else {
        proof {
            if pc@.len() <= sc@.len() {
                assert(sc@.subrange(0, pc@.len() as int) =~= sc@.take(pc@.len() as int));
            }
        }
        None
    }
}

/// An owned copy of what a lookup found (`Option::cloned`).
pub fn cloned(r: Option<&Json>) -> (c: Option<Json>)
    ensures
        opt_owned_view(c) == opt_view(r),
{
    match r {
        Some(v) => Some(v.copy()),
        None => None,
    }
}

} // verus!

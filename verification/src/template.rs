//! Minimal `{{ name }}` substitution. Adapters and cases use a handful of
//! runtime variables (stream name, run key, time window); nothing more is
//! needed and a real template engine would invite logic into config files.

use vstd::prelude::*;
use vstd::utf8::encode_utf8;
use crate::text::{chars_of, replace_bytes, replace_chars, replaced, str_eq, string_of};

verus! {

/// The variables a template may name, each with its value. Substitution goes
/// through them in this order.
pub struct Vars {
    pub entries: Vec<(String, String)>,
}

impl Vars {
    pub open spec fn spec_entries(&self) -> Seq<(Seq<char>, Seq<char>)> {
        self.entries@.map_values(|e: (String, String)| (e.0@, e.1@))
    }

    pub fn new() -> (v: Vars)
        ensures
            v.spec_entries() == Seq::<(Seq<char>, Seq<char>)>::empty(),
    {
        let v = Vars { entries: Vec::new() };
        assert(v.spec_entries() =~= Seq::<(Seq<char>, Seq<char>)>::empty());
        v
    }

    /// Sets `name` to `value`, replacing an earlier value of the same name.
    pub fn insert(&mut self, name: &str, value: String)
        ensures
            final(self).spec_entries() == old(self).spec_entries().filter(
                |e: (Seq<char>, Seq<char>)| e.0 != name@,
            ).push((name@, value@)),
    {
        let ghost before = self.spec_entries();
        let mut kept: Vec<(String, String)> = Vec::new();
        let mut i: usize = 0;
        let ghost pred = |e: (Seq<char>, Seq<char>)| e.0 != name@;
        while i < self.entries.len()
            invariant
                i <= self.entries@.len(),
                before == self.spec_entries(),
                pred == (|e: (Seq<char>, Seq<char>)| e.0 != name@),
                kept@.map_values(|e: (String, String)| (e.0@, e.1@)) == before.take(i as int).filter(pred),
            decreases self.entries@.len() - i,
        {
            let ghost prev = kept@.map_values(|e: (String, String)| (e.0@, e.1@));
            assert(before.take(i + 1).drop_last() =~= before.take(i as int));
            reveal_with_fuel(Seq::filter, 1);
            let same = str_eq(self.entries[i].0.as_str(), name);
            if !same {
                let k = self.entries[i].0.clone();
                let v = self.entries[i].1.clone();
                kept.push((k, v));
                assert(kept@.map_values(|e: (String, String)| (e.0@, e.1@)) =~= prev.push(before[i as int]));
            } else {
                assert(kept@.map_values(|e: (String, String)| (e.0@, e.1@)) =~= prev);
            }
            i = i + 1;
        }
        assert(before.take(self.entries@.len() as int) =~= before);
        let ghost prev = kept@.map_values(|e: (String, String)| (e.0@, e.1@));
        kept.push((string_of(chars_of(name).as_slice()), value));
        assert(kept@.map_values(|e: (String, String)| (e.0@, e.1@)) =~= prev.push((name@, value@)));
        self.entries = kept;
    }

    /// The value of `name`, if it is set: the first entry of that name.
    pub fn get(&self, name: &str) -> (r: Option<&String>)
        ensures
            r matches Some(v) ==> exists|i: int|
                0 <= i < self.spec_entries().len() && #[trigger] self.spec_entries()[i] == (name@, v@)
                    && forall|j: int| 0 <= j < i ==> #[trigger] self.spec_entries()[j].0 != name@,
            r is None ==> forall|i: int|
                0 <= i < self.spec_entries().len() ==> #[trigger] self.spec_entries()[i].0 != name@,
    {
        let mut i: usize = 0;
        while i < self.entries.len()
            invariant
                i <= self.entries@.len(),
                forall|j: int| 0 <= j < i ==> #[trigger] self.spec_entries()[j].0 != name@,
            decreases self.entries@.len() - i,
        {
            if str_eq(self.entries[i].0.as_str(), name) {
                assert(self.spec_entries()[i as int] == (name@, self.entries@[i as int].1@));
                return Some(&self.entries[i].1);
            }
            i = i + 1;
        }
        None
    }
}

/// `{{ name }}`, the spelling with spaces.
pub open spec fn spaced_pattern(name: Seq<char>) -> Seq<char> {
    seq!['{', '{', ' '] + name + seq![' ', '}', '}']
}

/// `{{name}}`, the spelling without.
pub open spec fn tight_pattern(name: Seq<char>) -> Seq<char> {
    seq!['{', '{'] + name + seq!['}', '}']
}

/// `input` with every variable substituted, in the order the variables are
/// listed, each written with or without spaces inside the braces.
pub open spec fn substituted(input: Seq<char>, vars: Seq<(Seq<char>, Seq<char>)>) -> Seq<char>
    decreases vars.len(),
{
    if vars.len() == 0 {
        input
    } else {
        let (name, value) = vars.last();
        replaced(
            replaced(substituted(input, vars.drop_last()), spaced_pattern(name), value),
            tight_pattern(name),
            value,
        )
    }
}

/// [`substituted`] over bytes: the patterns and values are put in as UTF-8.
pub open spec fn substituted_bytes(input: Seq<u8>, vars: Seq<(Seq<char>, Seq<char>)>) -> Seq<u8>
    decreases vars.len(),
{
    if vars.len() == 0 {
        input
    } else {
        let (name, value) = vars.last();
        replaced(
            replaced(
                substituted_bytes(input, vars.drop_last()),
                encode_utf8(spaced_pattern(name)),
                encode_utf8(value),
            ),
            encode_utf8(tight_pattern(name)),
            encode_utf8(value),
        )
    }
}

fn patterns(name: &str) -> (r: (Vec<char>, Vec<char>))
    ensures
        r.0@ == spaced_pattern(name@),
        r.1@ == tight_pattern(name@),
{
    let n = chars_of(name);
    let mut spaced = Vec::new();
    spaced.push('{');
    spaced.push('{');
    spaced.push(' ');
    spaced.extend_from_slice(n.as_slice());
    spaced.push(' ');
    spaced.push('}');
    spaced.push('}');
    let mut tight = Vec::new();
    tight.push('{');
    tight.push('{');
    tight.extend_from_slice(n.as_slice());
    tight.push('}');
    tight.push('}');
    assert(spaced@ =~= spaced_pattern(name@));
    assert(tight@ =~= tight_pattern(name@));
    (spaced, tight)
}

/// Substitutes every `{{ name }}` and `{{name}}` in `input`.
pub fn render(input: &str, vars: &Vars) -> (out: String)
    ensures
        out@ == substituted(input@, vars.spec_entries()),
{
    let mut out = chars_of(input);
    let mut i: usize = 0;
    while i < vars.entries.len()
        invariant
            i <= vars.entries@.len(),
            out@ == substituted(input@, vars.spec_entries().take(i as int)),
        decreases vars.entries@.len() - i,
    {
        assert(vars.spec_entries().take(i + 1).drop_last() =~= vars.spec_entries().take(i as int));
        let (spaced, tight) = patterns(vars.entries[i].0.as_str());
        let value = chars_of(vars.entries[i].1.as_str());
        let once = replace_chars(out.as_slice(), spaced.as_slice(), value.as_slice());
        out = replace_chars(once.as_slice(), tight.as_slice(), value.as_slice());
        i = i + 1;
    }
    assert(vars.spec_entries().take(vars.entries@.len() as int) =~= vars.spec_entries());
    string_of(out.as_slice())
}

/// Byte-level substitution, for payloads that are deliberately not valid UTF-8.
pub fn render_bytes(input: &[u8], vars: &Vars) -> (out: Vec<u8>)
    ensures
        out@ == substituted_bytes(input@, vars.spec_entries()),
{
    let mut out: Vec<u8> = Vec::new();
    out.extend_from_slice(input);
    let mut i: usize = 0;
    while i < vars.entries.len()
        invariant
            i <= vars.entries@.len(),
            out@ == substituted_bytes(input@, vars.spec_entries().take(i as int)),
        decreases vars.entries@.len() - i,
    {
        assert(vars.spec_entries().take(i + 1).drop_last() =~= vars.spec_entries().take(i as int));
        let (spaced, tight) = patterns(vars.entries[i].0.as_str());
        let spaced_text = string_of(spaced.as_slice());
        let tight_text = string_of(tight.as_slice());
        let once = replace_bytes(
            out.as_slice(),
            spaced_text.as_str().as_bytes(),
            vars.entries[i].1.as_str().as_bytes(),
        );
        out = replace_bytes(
            once.as_slice(),
            tight_text.as_str().as_bytes(),
            vars.entries[i].1.as_str().as_bytes(),
        );
        i = i + 1;
    }
    assert(vars.spec_entries().take(vars.entries@.len() as int) =~= vars.spec_entries());
    out
}

} // verus!

verus! {

/// `v` with every string in it rendered; keys, numbers and the rest as they
/// are.
pub open spec fn rendered_json(v: crate::json::JsonView, vars: Seq<(Seq<char>, Seq<char>)>) -> crate::json::JsonView
    decreases v,
{
    match v {
        crate::json::JsonView::String(s) => crate::json::JsonView::String(substituted(s, vars)),
        crate::json::JsonView::Array(items) => crate::json::JsonView::Array(
            Seq::new(
                items.len(),
                |i: int|
                    if 0 <= i < items.len() {
                        rendered_json(items[i], vars)
                    } else {
                        crate::json::JsonView::Null
                    },
            ),
        ),
        crate::json::JsonView::Object(m) => crate::json::JsonView::Object(
            Seq::new(
                m.len(),
                |i: int|
                    (
                        m[i].0,
                        if 0 <= i < m.len() {
                            rendered_json(m[i].1, vars)
                        } else {
                            crate::json::JsonView::Null
                        },
                    ),
            ),
        ),
        _ => v,
    }
}

/// Renders every string value of a JSON body an adapter declares.
pub fn render_json(value: &crate::json::Json, vars: &Vars) -> (r: crate::json::Json)
    ensures
        r@ == rendered_json(value@, vars.spec_entries()),
    decreases value,
{
    match value {
        crate::json::Json::String(s) => crate::json::Json::String(render(s.as_str(), vars)),
        crate::json::Json::Array(items) => {
            let mut out: Vec<crate::json::Json> = Vec::new();
            let mut i: usize = 0;
            while i < items.len()
                invariant
                    *value == crate::json::Json::Array(*items),
                    i <= items@.len(),
                    out@.len() == i,
                    forall|j: int| 0 <= j < i ==> #[trigger] out@[j]@ == rendered_json(items@[j]@, vars.spec_entries()),
                decreases items@.len() - i,
            {
                proof {
                    assert(decreases_to!(*value => value->Array_0));
                    assert(decreases_to!(value->Array_0 => value->Array_0@));
                    assert(decreases_to!(value->Array_0@ => value->Array_0@[i as int]));
                }
                let c = render_json(&items[i], vars);
                out.push(c);
                i = i + 1;
            }
            let r = crate::json::Json::Array(out);
            assert forall|j: int| 0 <= j < items@.len() implies r@->Array_0[j] == rendered_json(
                value@,
                vars.spec_entries(),
            )->Array_0[j] by {
                assert(r@->Array_0[j] == out@[j]@);
                assert(value@->Array_0[j] == items@[j]@);
            }
            assert(r@->Array_0 =~= rendered_json(value@, vars.spec_entries())->Array_0);
            r
        },
        crate::json::Json::Object(members) => {
            let mut out: Vec<(String, crate::json::Json)> = Vec::new();
            let mut i: usize = 0;
            while i < members.len()
                invariant
                    *value == crate::json::Json::Object(*members),
                    i <= members@.len(),
                    out@.len() == i,
                    forall|j: int|
                        #![trigger out@[j]]
                        0 <= j < i ==> out@[j].0@ == members@[j].0@ && out@[j].1@ == rendered_json(
                            members@[j].1@,
                            vars.spec_entries(),
                        ),
                decreases members@.len() - i,
            {
                proof {
                    assert(decreases_to!(*value => value->Object_0));
                    assert(decreases_to!(value->Object_0 => value->Object_0@));
                    assert(decreases_to!(value->Object_0@ => value->Object_0@[i as int]));
                    assert(decreases_to!(value->Object_0@[i as int] => value->Object_0@[i as int].1));
                }
                let k = members[i].0.clone();
                let v = render_json(&members[i].1, vars);
                out.push((k, v));
                i = i + 1;
            }
            let r = crate::json::Json::Object(out);
            assert(r@->Object_0 =~= rendered_json(value@, vars.spec_entries())->Object_0);
            r
        },
        _ => value.copy(),
    }
}

} // verus!

//! The order `String`'s `Ord` puts text in, and sorted sets of text.
//!
//! `String` compares its UTF-8 bytes lexicographically, and UTF-8 is built so
//! that byte order and code-point order agree; the order here is stated over
//! code points.

use vstd::prelude::*;

verus! {

/// `a` sorts strictly before `b`.
pub open spec fn text_less(a: Seq<char>, b: Seq<char>) -> bool
    decreases a.len(),
{
    if a.len() == 0 {
        b.len() > 0
    } else if b.len() == 0 {
        false
    } else if a[0] != b[0] {
        a[0] < b[0]
    } else {
        text_less(a.drop_first(), b.drop_first())
    }
}

pub proof fn lemma_less_irreflexive(a: Seq<char>)
    ensures
        !text_less(a, a),
    decreases a.len(),
{
    if a.len() > 0 {
        lemma_less_irreflexive(a.drop_first());
    }
}

pub proof fn lemma_less_total(a: Seq<char>, b: Seq<char>)
    ensures
        a != b ==> text_less(a, b) || text_less(b, a),
        !(text_less(a, b) && text_less(b, a)),
    decreases a.len(),
{
    if a.len() > 0 && b.len() > 0 {
        lemma_less_total(a.drop_first(), b.drop_first());
        if a[0] == b[0] && a != b {
            assert(a.drop_first() != b.drop_first()) by {
                if a.drop_first() == b.drop_first() {
                    assert(a =~= seq![a[0]] + a.drop_first());
                    assert(b =~= seq![b[0]] + b.drop_first());
                }
            }
        }
    } else if a.len() == 0 && b.len() == 0 {
        assert(a =~= b);
    }
}

pub proof fn lemma_less_transitive(a: Seq<char>, b: Seq<char>, c: Seq<char>)
    requires
        text_less(a, b),
        text_less(b, c),
    ensures
        text_less(a, c),
    decreases a.len(),
{
    if a.len() > 0 && b.len() > 0 && c.len() > 0 {
        if a[0] == b[0] && b[0] == c[0] {
            lemma_less_transitive(a.drop_first(), b.drop_first(), c.drop_first());
        }
    }
}

/// Whether `a` sorts strictly before `b`.
pub fn less(a: &[char], b: &[char]) -> (r: bool)
    ensures
        r == text_less(a@, b@),
{
    let mut i: usize = 0;
    assert(a@.skip(0) =~= a@ && b@.skip(0) =~= b@);
    while i < a.len() && i < b.len() && a[i] == b[i]
        invariant
            i <= a@.len(),
            i <= b@.len(),
            a@.take(i as int) == b@.take(i as int),
            text_less(a@, b@) == text_less(a@.skip(i as int), b@.skip(i as int)),
        decreases a@.len() - i,
    {
        assert(a@.skip(i as int).drop_first() =~= a@.skip(i + 1));
        assert(b@.skip(i as int).drop_first() =~= b@.skip(i + 1));
        assert(a@.take(i + 1) =~= a@.take(i as int).push(a@[i as int]));
        assert(b@.take(i + 1) =~= b@.take(i as int).push(b@[i as int]));
        i = i + 1;
    }
    let ghost x = a@.skip(i as int);
    let ghost y = b@.skip(i as int);
    if i == a.len() {
        assert(x.len() == 0);
        i < b.len()
    } else if i == b.len() {
        false
    } else {
        assert(x[0] == a@[i as int] && y[0] == b@[i as int]);
        a[i] < b[i]
    }
}

/// Strictly ascending, so also free of repeats.
pub open spec fn strictly_sorted(s: Seq<Seq<char>>) -> bool {
    forall|i: int, j: int| 0 <= i < j < s.len() ==> text_less(#[trigger] s[i], #[trigger] s[j])
}

/// Two strictly sorted sequences holding the same items are the same.
pub proof fn lemma_sorted_unique(s: Seq<Seq<char>>, t: Seq<Seq<char>>)
    requires
        strictly_sorted(s),
        strictly_sorted(t),
        s.to_set() == t.to_set(),
    ensures
        s == t,
    decreases s.len(),
{
    if s.len() == 0 {
        if t.len() > 0 {
            assert(t.to_set().contains(t[0]));
        }
        assert(t.len() == 0);
        assert(s =~= t);
    } else if t.len() == 0 {
        assert(s.to_set().contains(s[0]));
    } else {
        // The least items agree.
        assert(s.to_set().contains(s[0]));
        assert(t.to_set().contains(t[0]));
        let i = choose|i: int| 0 <= i < t.len() && t[i] == s[0];
        let j = choose|j: int| 0 <= j < s.len() && s[j] == t[0];
        if i > 0 {
            assert(text_less(t[0], t[i]));
            if j > 0 {
                assert(text_less(s[0], s[j]));
                lemma_less_total(s[0], t[0]);
            } else {
                lemma_less_irreflexive(t[0]);
            }
        }
        if i == 0 {
        }
        assert(s[0] == t[0]) by {
            if i > 0 {
                assert(text_less(t[0], s[0]));
                if j > 0 {
                    assert(text_less(s[0], t[0]));
                    lemma_less_total(s[0], t[0]);
                } else {
                    lemma_less_irreflexive(t[0]);
                }
            }
        }
        let s2 = s.drop_first();
        let t2 = t.drop_first();
        assert forall|x: Seq<char>| s2.to_set().contains(x) implies t2.to_set().contains(x) by {
            let k = choose|k: int| 0 <= k < s2.len() && s2[k] == x;
            assert(s.to_set().contains(x));
            let m = choose|m: int| 0 <= m < t.len() && t[m] == x;
            assert(text_less(s[0], s[k + 1]));
            if m == 0 {
                lemma_less_irreflexive(x);
            }
            assert(t2[m - 1] == x);
        }
        assert forall|x: Seq<char>| t2.to_set().contains(x) implies s2.to_set().contains(x) by {
            let k = choose|k: int| 0 <= k < t2.len() && t2[k] == x;
            assert(t.to_set().contains(x));
            let m = choose|m: int| 0 <= m < s.len() && s[m] == x;
            assert(text_less(t[0], t[k + 1]));
            if m == 0 {
                lemma_less_irreflexive(x);
            }
            assert(s2[m - 1] == x);
        }
        assert(s2.to_set() =~= t2.to_set());
        lemma_sorted_unique(s2, t2);
        assert(s =~= seq![s[0]] + s2);
        assert(t =~= seq![t[0]] + t2);
    }
}

/// The items of a finite set of text, in ascending order, each once.
pub open spec fn sorted_items(items: Set<Seq<char>>) -> Seq<Seq<char>> {
    choose|s: Seq<Seq<char>>| strictly_sorted(s) && s.to_set() == items
}

pub open spec fn chars_views(v: Seq<Vec<char>>) -> Seq<Seq<char>> {
    v.map_values(|x: Vec<char>| x@)
}

/// Adds `x` to a strictly sorted list, keeping it strictly sorted; a copy
/// already present is not added twice.
pub fn insert_sorted(v: &mut Vec<Vec<char>>, x: Vec<char>)
    requires
        strictly_sorted(chars_views(old(v)@)),
    ensures
        strictly_sorted(chars_views(final(v)@)),
        chars_views(final(v)@).to_set() == chars_views(old(v)@).to_set().insert(x@),
{
    let ghost s = chars_views(v@);
    let mut i: usize = 0;
    while i < v.len() && less(v[i].as_slice(), x.as_slice())
        invariant
            i <= v@.len(),
            s == chars_views(v@),
            strictly_sorted(s),
            forall|j: int| 0 <= j < i ==> text_less(#[trigger] s[j], x@),
        decreases v@.len() - i,
    {
        i = i + 1;
    }
    if i < v.len() && !less(x.as_slice(), v[i].as_slice()) {
        // Neither sorts before the other: the same text is already here.
        proof {
            lemma_less_total(s[i as int], x@);
        }
        assert(s.to_set().insert(x@) =~= s.to_set()) by {
            assert(s[i as int] == x@);
        }
        return;
    }
    proof {
        assert forall|j: int| i <= j < s.len() implies text_less(x@, #[trigger] s[j]) by {
            if j > i {
                lemma_less_transitive(x@, s[i as int], s[j]);
            }
        }
    }
    v.insert(i, x);
    let ghost t = chars_views(v@);
    assert(t =~= s.insert(i as int, x@));
    assert forall|a: int, b: int| 0 <= a < b < t.len() implies text_less(#[trigger] t[a], #[trigger] t[b]) by {
        if b == i {
        } else if a == i {
        } else if a < i && b > i {
        }
    }
    assert(t.to_set() =~= s.to_set().insert(x@)) by {
        assert forall|y: Seq<char>| t.to_set().contains(y) implies s.to_set().insert(x@).contains(y) by {
            let k = choose|k: int| 0 <= k < t.len() && t[k] == y;
            if k < i {
                assert(s[k] == y);
            } else if k > i {
                assert(s[k - 1] == y);
            }
        }
        assert forall|y: Seq<char>| s.to_set().insert(x@).contains(y) implies t.to_set().contains(y) by {
            if y == x@ {
                assert(t[i as int] == y);
            } else {
                let k = choose|k: int| 0 <= k < s.len() && s[k] == y;
                if k < i {
                    assert(t[k] == y);
                } else {
                    assert(t[k + 1] == y);
                }
            }
        }
    }
}

} // verus!

verus! {

/// [`sorted_items`] is the one strictly sorted list of a set.
pub proof fn lemma_sorted_items(s: Seq<Seq<char>>)
    requires
        strictly_sorted(s),
    ensures
        sorted_items(s.to_set()) == s,
{
    let t = sorted_items(s.to_set());
    assert(strictly_sorted(t) && t.to_set() == s.to_set());
    lemma_sorted_unique(s, t);
}

/// Whether `x` is one of the items of `v`.
pub fn member(v: &Vec<Vec<char>>, x: &[char]) -> (r: bool)
    ensures
        r == chars_views(v@).contains(x@),
{
    let mut i: usize = 0;
    while i < v.len()
        invariant
            i <= v@.len(),
            forall|j: int| 0 <= j < i ==> #[trigger] chars_views(v@)[j] != x@,
        decreases v@.len() - i,
    {
        if crate::text::chars_eq(v[i].as_slice(), x) {
            assert(chars_views(v@)[i as int] == x@);
            return true;
        }
        i = i + 1;
    }
    false
}

/// The characters of each string.
pub fn chars_of_all(v: &[String]) -> (r: Vec<Vec<char>>)
    ensures
        chars_views(r@) == v@.map_values(|s: String| s@),
{
    let mut r: Vec<Vec<char>> = Vec::new();
    let mut i: usize = 0;
    while i < v.len()
        invariant
            i <= v@.len(),
            chars_views(r@) == v@.take(i as int).map_values(|s: String| s@),
        decreases v@.len() - i,
    {
        let c = crate::text::chars_of(v[i].as_str());
        let ghost prev = chars_views(r@);
        assert(c@ == v@[i as int]@);
        r.push(c);
        assert(chars_views(r@) =~= prev.push(c@));
        assert(v@.take(i + 1).map_values(|s: String| s@) =~= v@.take(i as int).map_values(
            |s: String| s@,
        ).push(v@[i as int]@));
        i = i + 1;
    }
    assert(v@.take(v@.len() as int) =~= v@);
    r
}

/// The items of `a` that `b` does not hold, ascending and each once.
pub fn sorted_difference(a: &Vec<Vec<char>>, b: &Vec<Vec<char>>) -> (r: Vec<Vec<char>>)
    ensures
        strictly_sorted(chars_views(r@)),
        chars_views(r@).to_set() == chars_views(a@).to_set().difference(chars_views(b@).to_set()),
{
    let mut r: Vec<Vec<char>> = Vec::new();
    let mut i: usize = 0;
    assert(chars_views(r@).to_set() =~= Set::<Seq<char>>::empty());
    while i < a.len()
        invariant
            i <= a@.len(),
            strictly_sorted(chars_views(r@)),
            chars_views(r@).to_set() == chars_views(a@).take(i as int).to_set().difference(
                chars_views(b@).to_set(),
            ),
        decreases a@.len() - i,
    {
        let ghost before = chars_views(a@).take(i as int);
        let ghost after = chars_views(a@).take(i + 1);
        assert(after =~= before.push(chars_views(a@)[i as int]));
        assert(after.to_set() =~= before.to_set().insert(a@[i as int]@)) by {
            assert forall|y: Seq<char>| after.to_set().contains(y) implies before.to_set().insert(
                a@[i as int]@,
            ).contains(y) by {
                let k = choose|k: int| 0 <= k < after.len() && after[k] == y;
                if k < i {
                    assert(before[k] == y);
                }
            }
            assert forall|y: Seq<char>| before.to_set().insert(a@[i as int]@).contains(y) implies after.to_set().contains(y) by {
                if y != a@[i as int]@ {
                    let k = choose|k: int| 0 <= k < before.len() && before[k] == y;
                    assert(after[k] == y);
                } else {
                    assert(after[i as int] == y);
                }
            }
        }
        if !member(b, a[i].as_slice()) {
            let x = a[i].clone();
            insert_sorted(&mut r, x);
            assert(chars_views(r@).to_set() =~= after.to_set().difference(chars_views(b@).to_set()));
        } else {
            assert(chars_views(r@).to_set() =~= after.to_set().difference(chars_views(b@).to_set()));
        }
        i = i + 1;
    }
    assert(chars_views(a@).take(a@.len() as int) =~= chars_views(a@));
    r
}

} // verus!

verus! {

/// Adding an item to the end of a list adds it to the list's set.
pub proof fn lemma_push_to_set(s: Seq<Seq<char>>, x: Seq<char>)
    ensures
        s.push(x).to_set() == s.to_set().insert(x),
{
    let t = s.push(x);
    assert forall|y: Seq<char>| t.to_set().contains(y) implies s.to_set().insert(x).contains(y) by {
        let k = choose|k: int| 0 <= k < t.len() && t[k] == y;
        if k < s.len() {
            assert(s[k] == y);
        }
    }
    assert forall|y: Seq<char>| s.to_set().insert(x).contains(y) implies t.to_set().contains(y) by {
        if y == x {
            assert(t[s.len() as int] == y);
        } else {
            let k = choose|k: int| 0 <= k < s.len() && s[k] == y;
            assert(t[k] == y);
        }
    }
    assert(t.to_set() =~= s.to_set().insert(x));
}

} // verus!

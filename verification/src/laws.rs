//! What holds of the library as a whole: across its functions, and of every
//! input rather than the ones a test happens to pick.

use vstd::prelude::*;
use crate::compare::{Kind, readings_equal};
use crate::json::{JsonView, json_same, number_same};
use crate::text::contains_seq;
use vstd::utf8::{encode_utf8, encode_scalar};
use crate::runner::{Outcome, CheckResult, Verdict, worst_of};
use crate::matrix::{History, find_outcome, find_result, history_note};

verus! {

// ---------------------------------------------------------------------------
// Comparing values
// ---------------------------------------------------------------------------

proof fn lemma_json_same_reflexive(v: JsonView)
    ensures
        json_same(v, v),
    decreases v,
{
    match v {
        JsonView::Array(items) => {
            assert forall|i: int| 0 <= i < items.len() implies json_same(#[trigger] items[i], items[i]) by {
                lemma_json_same_reflexive(items[i]);
            }
        },
        JsonView::Object(m) => {
            assert forall|i: int| 0 <= i < m.len() implies (#[trigger] m[i]).0 == m[i].0 && json_same(
                m[i].1,
                m[i].1,
            ) by {
                lemma_json_same_reflexive(m[i].1);
            }
        },
        _ => {},
    }
}

proof fn lemma_json_same_symmetric(a: JsonView, b: JsonView)
    ensures
        json_same(a, b) == json_same(b, a),
    decreases a,
{
    match a {
        JsonView::Array(x) => match b {
            JsonView::Array(y) => {
                if x.len() == y.len() {
                    assert forall|i: int| 0 <= i < x.len() implies json_same(#[trigger] x[i], y[i])
                        == json_same(y[i], x[i]) by {
                        lemma_json_same_symmetric(x[i], y[i]);
                    }
                    if json_same(a, b) {
                        assert forall|i: int| 0 <= i < y.len() implies json_same(#[trigger] y[i], x[i]) by {
                            assert(json_same(x[i], y[i]));
                        }
                    }
                    if json_same(b, a) {
                        assert forall|i: int| 0 <= i < x.len() implies json_same(#[trigger] x[i], y[i]) by {
                            assert(json_same(y[i], x[i]));
                        }
                    }
                }
            },
            _ => {},
        },
        JsonView::Object(x) => match b {
            JsonView::Object(y) => {
                if x.len() == y.len() {
                    assert forall|i: int| 0 <= i < x.len() implies json_same(#[trigger] x[i].1, y[i].1)
                        == json_same(y[i].1, x[i].1) by {
                        lemma_json_same_symmetric(x[i].1, y[i].1);
                    }
                    if json_same(a, b) {
                        assert forall|i: int| 0 <= i < y.len() implies (#[trigger] y[i]).0 == x[i].0
                            && json_same(y[i].1, x[i].1) by {
                            assert(x[i].0 == y[i].0 && json_same(x[i].1, y[i].1));
                        }
                    }
                    if json_same(b, a) {
                        assert forall|i: int| 0 <= i < x.len() implies (#[trigger] x[i]).0 == y[i].0
                            && json_same(x[i].1, y[i].1) by {
                            assert(y[i].0 == x[i].0 && json_same(y[i].1, x[i].1));
                        }
                    }
                }
            },
            _ => {},
        },
        _ => {},
    }
}

/// A value compares equal to itself under every kind: reading a value is
/// not rewriting it, so the same stored value can never be reported as a
/// difference.
pub proof fn law_a_value_equals_itself(v: JsonView, kind: Kind, float_reading: Option<u64>)
    ensures
        readings_equal(Some(v), Some(v), kind, float_reading, float_reading),
{
    lemma_json_same_reflexive(v);
}

/// Which side was sent and which read back makes no difference to whether
/// two values are equal.
pub proof fn law_equality_does_not_depend_on_the_side(
    a: JsonView,
    b: JsonView,
    kind: Kind,
    fa: Option<u64>,
    fb: Option<u64>,
)
    ensures
        readings_equal(Some(a), Some(b), kind, fa, fb) == readings_equal(Some(b), Some(a), kind, fb, fa),
{
    lemma_json_same_symmetric(a, b);
}

/// An absent field is an answer: absent against absent is equal, absent
/// against a value is not, under every kind.
pub proof fn law_absence_compares_as_a_value(v: JsonView, kind: Kind, fa: Option<u64>, fb: Option<u64>)
    ensures
        readings_equal(None, None, kind, fa, fb),
        !readings_equal(None, Some(v), kind, fa, fb),
        !readings_equal(Some(v), None, kind, fa, fb),
{
}

/// Two instants are equal only when they name the same nanosecond: a store
/// that dropped digits is never equal to what was sent, whatever precision
/// either side is expressed in.
pub proof fn law_instants_compare_by_the_nanosecond(sent: JsonView, got: JsonView)
    requires
        crate::compare::instant_of(sent) is Some,
        crate::compare::instant_of(got) is Some,
    ensures
        readings_equal(Some(sent), Some(got), Kind::Timestamp, None, None) <==> crate::compare::instant_of(
            sent,
        )->0.nanos == crate::compare::instant_of(got)->0.nanos,
{
}

/// The nanoseconds of an integer instant are the integer in the unit its
/// magnitude names, and the unit is the one its range says.
pub proof fn law_an_integer_instant_is_its_value_in_its_unit(value: int)
    requires
        crate::text::i128_min() < value <= crate::text::i128_max(),
    ensures
        ({
            let i = crate::compare::magnitude_instant(value);
            let m = crate::compare::abs_int(value);
            &&& (m < 100_000_000_000 ==> i.precision == crate::compare::Precision::Seconds && i.nanos == value
                * 1_000_000_000)
            &&& (100_000_000_000 <= m < 100_000_000_000_000 ==> i.precision
                == crate::compare::Precision::Milliseconds && i.nanos == value * 1_000_000)
            &&& (100_000_000_000_000 <= m < 100_000_000_000_000_000 ==> i.precision
                == crate::compare::Precision::Microseconds && i.nanos == value * 1_000)
            &&& (100_000_000_000_000_000 <= m ==> i.precision == crate::compare::Precision::Nanoseconds
                && i.nanos == value)
        }),
{
}

proof fn lemma_zero_forms_are_not_integers(x: Seq<char>)
    requires
        x == "0.0"@ || x == "-0.0"@,
    ensures
        crate::json::number_i64(x) is None,
        crate::text::parse_signed(crate::text::trimmed(x), crate::text::i128_min(), crate::text::i128_max()) is None,
{
    reveal_strlit("0.0");
    reveal_strlit("-0.0");
    let body = if x[0] == '-' { x.drop_first() } else { x };
    assert(body =~= "0.0"@);
    assert(!crate::text::is_digit(body[1]));
    assert(!crate::text::all_digits(body));
    assert(crate::text::trim_start(x) == x);
    assert(crate::text::trim_end(x) == x);
}

/// Values equal as raw JSON are equal under every kind that reads them
/// from the JSON: as instants, as integers, and as floats when both sides
/// read as the same bit pattern. Under `text` this holds of identical
/// values; raw JSON takes `0.0` and `-0.0` for the same number, and their
/// text differs.
pub proof fn law_raw_equality_carries_over_to_every_kind(
    s: JsonView,
    g: JsonView,
    kind: Kind,
    fs: Option<u64>,
    fg: Option<u64>,
)
    requires
        readings_equal(Some(s), Some(g), Kind::Raw, fs, fg),
        kind == Kind::Float ==> fs == fg,
        kind == Kind::Text ==> s == g,
    ensures
        readings_equal(Some(s), Some(g), kind, fs, fg),
{
    match s {
        JsonView::Number(x) => {
            if let JsonView::Number(y) = g {
                if x != y {
                    lemma_zero_forms_are_not_integers(x);
                    lemma_zero_forms_are_not_integers(y);
                }
            }
        },
        JsonView::String(x) => {
            assert(s == g);
        },
        _ => {},
    }
    if kind == Kind::Text {
        lemma_json_same_reflexive(s);
    }
}

// ---------------------------------------------------------------------------
// JSON objects
// ---------------------------------------------------------------------------

pub open spec fn keys_ascending(m: Seq<(Seq<char>, JsonView)>) -> bool {
    forall|i: int, j: int| 0 <= i < j < m.len() ==> crate::order::text_less(#[trigger] m[i].0, #[trigger] m[j].0)
}

proof fn lemma_member_of_absent(m: Seq<(Seq<char>, JsonView)>, k: Seq<char>)
    requires
        forall|i: int| 0 <= i < m.len() ==> (#[trigger] m[i]).0 != k,
    ensures
        crate::json::member_of(m, k) is None,
    decreases m.len(),
{
    if m.len() > 0 {
        assert(m[0].0 != k);
        assert forall|i: int| 0 <= i < m.drop_first().len() implies (#[trigger] m.drop_first()[i]).0 != k by {
            assert(m.drop_first()[i] == m[i + 1]);
        }
        lemma_member_of_absent(m.drop_first(), k);
    }
}

proof fn lemma_inserted_keys(m: Seq<(Seq<char>, JsonView)>, k: Seq<char>, v: JsonView)
    requires
        keys_ascending(m),
    ensures
        keys_ascending(crate::json::inserted(m, k, v)),
        crate::json::member_of(crate::json::inserted(m, k, v), k) == Some(v),
        forall|x: Seq<char>| x != k ==> crate::json::member_of(crate::json::inserted(m, k, v), x)
            == crate::json::member_of(m, x),
        forall|i: int|
            0 <= i < crate::json::inserted(m, k, v).len() ==> (#[trigger] crate::json::inserted(m, k, v)[i]).0
                == k || exists|j: int| 0 <= j < m.len() && m[j].0 == crate::json::inserted(m, k, v)[i].0,
    decreases m.len(),
{
    let r = crate::json::inserted(m, k, v);
    if m.len() == 0 {
        assert(r.drop_first() =~= Seq::<(Seq<char>, JsonView)>::empty());
        assert forall|x: Seq<char>| x != k implies crate::json::member_of(r, x) == crate::json::member_of(m, x) by {
            assert(crate::json::member_of(r.drop_first(), x) is None);
        }
    } else if m[0].0 == k {
        assert(r == seq![(k, v)] + m.drop_first());
        assert(r.drop_first() =~= m.drop_first());
        assert forall|i: int, j: int| 0 <= i < j < r.len() implies crate::order::text_less(
            #[trigger] r[i].0,
            #[trigger] r[j].0,
        ) by {
            if i == 0 {
                assert(r[j] == m[j]);
                assert(crate::order::text_less(m[0].0, m[j].0));
            } else {
                assert(r[i] == m[i] && r[j] == m[j]);
            }
        }
        assert forall|x: Seq<char>| x != k implies crate::json::member_of(r, x) == crate::json::member_of(m, x) by {
            assert(r.drop_first() =~= m.drop_first());
        }
        assert forall|i: int| 0 <= i < r.len() implies (#[trigger] r[i]).0 == k || exists|j: int|
            0 <= j < m.len() && m[j].0 == r[i].0 by {
            if i > 0 {
                assert(r[i] == m[i]);
            }
        }
    } else if crate::order::text_less(k, m[0].0) {
        assert(r == seq![(k, v)] + m);
        assert(r.drop_first() =~= m);
        assert forall|i: int, j: int| 0 <= i < j < r.len() implies crate::order::text_less(
            #[trigger] r[i].0,
            #[trigger] r[j].0,
        ) by {
            if i == 0 {
                assert(r[j] == m[j - 1]);
                if j > 1 {
                    assert(crate::order::text_less(m[0].0, m[j - 1].0));
                    crate::order::lemma_less_transitive(k, m[0].0, m[j - 1].0);
                }
            } else {
                assert(r[i] == m[i - 1] && r[j] == m[j - 1]);
            }
        }
        assert forall|x: Seq<char>| x != k implies crate::json::member_of(r, x) == crate::json::member_of(m, x) by {
            assert(r.drop_first() =~= m);
        }
        assert forall|i: int| 0 <= i < r.len() implies (#[trigger] r[i]).0 == k || exists|j: int|
            0 <= j < m.len() && m[j].0 == r[i].0 by {
            if i > 0 {
                assert(r[i] == m[i - 1]);
            }
        }
    } else {
        let rest = m.drop_first();
        assert(keys_ascending(rest)) by {
            assert forall|i: int, j: int| 0 <= i < j < rest.len() implies crate::order::text_less(
                #[trigger] rest[i].0,
                #[trigger] rest[j].0,
            ) by {
                assert(rest[i] == m[i + 1] && rest[j] == m[j + 1]);
            }
        }
        lemma_inserted_keys(rest, k, v);
        let t = crate::json::inserted(rest, k, v);
        assert(r == seq![m[0]] + t);
        assert(r.drop_first() =~= t);
        crate::order::lemma_less_total(m[0].0, k);
        assert(crate::order::text_less(m[0].0, k));
        assert forall|i: int, j: int| 0 <= i < j < r.len() implies crate::order::text_less(
            #[trigger] r[i].0,
            #[trigger] r[j].0,
        ) by {
            if i == 0 {
                assert(r[j] == t[j - 1]);
                if t[j - 1].0 != k {
                    let jj = choose|jj: int| 0 <= jj < rest.len() && rest[jj].0 == t[j - 1].0;
                    assert(rest[jj] == m[jj + 1]);
                    assert(crate::order::text_less(m[0].0, m[jj + 1].0));
                }
            } else {
                assert(r[i] == t[i - 1] && r[j] == t[j - 1]);
            }
        }
        assert forall|x: Seq<char>| x != k implies crate::json::member_of(r, x) == crate::json::member_of(m, x) by {
            assert(r.drop_first() =~= t);
            assert(r[0] == m[0]);
            if m[0].0 != x {
                assert(crate::json::member_of(r, x) == crate::json::member_of(t, x));
                assert(crate::json::member_of(m, x) == crate::json::member_of(rest, x));
            }
        }
        assert forall|i: int| 0 <= i < r.len() implies (#[trigger] r[i]).0 == k || exists|j: int|
            0 <= j < m.len() && m[j].0 == r[i].0 by {
            if i == 0 {
                assert(m[0].0 == r[0].0);
            } else {
                assert(r[i] == t[i - 1]);
                if t[i - 1].0 != k {
                    let jj = choose|jj: int| 0 <= jj < rest.len() && rest[jj].0 == t[i - 1].0;
                    assert(m[jj + 1].0 == r[i].0);
                }
            }
        }
    }
}

/// Building an object the way `Map::insert` does: the keys stay in
/// ascending order, each once; reading back the key just written gives the
/// value just written; every other key reads as it did before.
pub proof fn law_an_inserted_member_reads_back(m: Seq<(Seq<char>, JsonView)>, k: Seq<char>, v: JsonView, other: Seq<char>)
    requires
        keys_ascending(m),
    ensures
        keys_ascending(crate::json::inserted(m, k, v)),
        crate::json::member_of(crate::json::inserted(m, k, v), k) == Some(v),
        other != k ==> crate::json::member_of(crate::json::inserted(m, k, v), other) == crate::json::member_of(
            m,
            other,
        ),
{
    lemma_inserted_keys(m, k, v);
}

// ---------------------------------------------------------------------------
// A number and its text
// ---------------------------------------------------------------------------

proof fn lemma_digit_char(d: int)
    requires
        0 <= d < 10,
    ensures
        crate::text::is_digit(crate::text::digit_char(d)),
        crate::text::digit_char(d) as nat == d + 48,
{
    let b: u8 = (d + 48) as u8;
    assert(b == d + 48);
    assert(b as char as nat == b);
}

proof fn lemma_decimal_digits(m: nat)
    ensures
        crate::text::decimal(m).len() > 0,
        crate::text::all_digits(crate::text::decimal(m)),
        crate::text::digits_value(crate::text::decimal(m)) == m,
    decreases m,
{
    let d = crate::text::decimal(m);
    if m < 10 {
        lemma_digit_char(m as int);
        assert(d.drop_last() =~= Seq::<char>::empty());
        assert(d.last() == crate::text::digit_char(m as int));
        assert(crate::text::digits_value(d.drop_last()) == 0);
        assert(crate::text::digits_value(d) == ((d.last() as nat) - 48) as nat);
    } else {
        lemma_digit_char((m % 10) as int);
        lemma_decimal_digits(m / 10);
        let h = crate::text::decimal(m / 10);
        assert(d == h.push(crate::text::digit_char((m % 10) as int)));
        assert(d.drop_last() =~= h);
        assert(d.last() == crate::text::digit_char((m % 10) as int));
        assert(crate::text::digits_value(d) == crate::text::digits_value(h) * 10 + (m % 10));
        assert(m == (m / 10) * 10 + m % 10);
        assert forall|i: int| 0 <= i < d.len() implies crate::text::is_digit(#[trigger] d[i]) by {
            if i < h.len() {
                assert(d[i] == h[i]);
            }
        }
    }
}

proof fn lemma_signed_decimal_reads_back(n: int, lo: int, hi: int)
    requires
        lo <= n <= hi,
    ensures
        crate::text::parse_signed(crate::text::signed_decimal(n), lo, hi) == Some(n),
        crate::text::trimmed(crate::text::signed_decimal(n)) == crate::text::signed_decimal(n),
        crate::text::signed_decimal(n).len() > 0,
        crate::text::all_digits(crate::compare::without_minus(crate::text::signed_decimal(n))),
{
    let s = crate::text::signed_decimal(n);
    if n < 0 {
        lemma_decimal_digits((-n) as nat);
        let d = crate::text::decimal((-n) as nat);
        assert(s == seq!['-'] + d);
        assert(s.drop_first() =~= d);
        assert(crate::compare::without_minus(s) =~= d);
        assert(crate::text::is_digit(s.last())) by {
            assert(s.last() == d.last());
            assert(d.last() == d[d.len() - 1]);
        }
    } else {
        lemma_decimal_digits(n as nat);
        assert(crate::text::is_digit(s[0]));
        assert(crate::text::is_digit(s.last())) by {
            assert(s.last() == s[s.len() - 1]);
        }
    }
    assert(crate::text::trim_start(s) == s);
    assert(crate::text::trim_end(s) == s);
}

/// OTLP writes an int64 as a JSON string, so the instant a case sends is a
/// string of digits; it reads as the same instant as the number would.
pub proof fn law_a_numeric_string_is_the_same_instant_as_the_number(n: i64)
    ensures
        crate::compare::instant_of(JsonView::String(crate::text::signed_decimal(n as int)))
            == crate::compare::instant_of(JsonView::Number(crate::text::signed_decimal(n as int))),
        crate::compare::instant_of(JsonView::Number(crate::text::signed_decimal(n as int))) == Some(
            crate::compare::magnitude_instant(n as int),
        ),
{
    lemma_signed_decimal_reads_back(n as int, i64::MIN as int, i64::MAX as int);
    lemma_signed_decimal_reads_back(n as int, crate::text::i128_min(), crate::text::i128_max());
}

// ---------------------------------------------------------------------------
// Verdicts
// ---------------------------------------------------------------------------

proof fn lemma_nothing_observed_iff_all_equal(rs: Seq<crate::runner::Reading>)
    ensures
        crate::runner::observed_lines(rs, true).len() == 0 <==> forall|i: int|
            0 <= i < rs.len() ==> crate::runner::reading_equal(#[trigger] rs[i]),
    decreases rs.len(),
{
    if rs.len() > 0 {
        lemma_nothing_observed_iff_all_equal(rs.drop_last());
        if forall|i: int| 0 <= i < rs.len() ==> crate::runner::reading_equal(#[trigger] rs[i]) {
            assert(crate::runner::reading_equal(rs[rs.len() - 1]));
            assert forall|i: int| 0 <= i < rs.drop_last().len() implies crate::runner::reading_equal(
                #[trigger] rs.drop_last()[i],
            ) by {
                assert(rs.drop_last()[i] == rs[i]);
            }
        }
        if crate::runner::observed_lines(rs, true).len() == 0 {
            assert forall|i: int| 0 <= i < rs.len() implies crate::runner::reading_equal(#[trigger] rs[i]) by {
                if i < rs.len() - 1 {
                    assert(rs.drop_last()[i] == rs[i]);
                }
            }
        }
    }
}

/// A verdict is the round trip's outcome: a write the check expects to be
/// accepted and that the store refuses is a rejection; a record accepted and
/// never seen again is an alteration, whatever the check then compares; and
/// under `exact` a record read back intact passes exactly when every field
/// it names compares equal, and is otherwise an alteration.
pub proof fn law_a_verdict_follows_the_round_trip(
    case_id: Seq<char>,
    label: Seq<char>,
    match_: Seq<char>,
    status: u16,
    reported: Seq<char>,
    readings: Seq<crate::runner::Reading>,
    sent_was_lossy: bool,
)
    ensures
        crate::runner::ingest_decision("accepted"@, false) == Some(Some(crate::runner::Verdict::Reject)),
        crate::runner::ingest_decision("accepted"@, true) == Some(None::<crate::runner::Verdict>),
        match_ != "absent"@ ==> (crate::runner::readback_judgement(
            case_id,
            label,
            match_,
            false,
            status,
            reported,
            readings,
            sent_was_lossy,
        ) matches Ok((v, _)) && v == crate::runner::Verdict::Alter),
        crate::runner::readback_judgement(case_id, label, "exact"@, true, status, reported, readings, false)
            matches Ok((v, _)) && (v == crate::runner::Verdict::Pass <==> forall|i: int|
            0 <= i < readings.len() ==> crate::runner::reading_equal(#[trigger] readings[i])) && (v
            == crate::runner::Verdict::Pass || v == crate::runner::Verdict::Alter),
{
    reveal_strlit("accepted");
    reveal_strlit("exact");
    reveal_strlit("absent");
    assert("exact"@.len() != "absent"@.len());
    lemma_nothing_observed_iff_all_equal(readings);
    let observed = crate::runner::observed_lines(readings, true);
    if observed.len() == 0 {
        assert(crate::runner::readback_judgement(case_id, label, "exact"@, true, status, reported, readings, false)
            matches Ok((v, _)) && v == crate::runner::Verdict::Pass);
    } else {
        assert(crate::runner::readback_judgement(case_id, label, "exact"@, true, status, reported, readings, false)
            matches Ok((v, _)) && v == crate::runner::Verdict::Alter);
    }
}

// ---------------------------------------------------------------------------
// The order results are reported in
// ---------------------------------------------------------------------------

proof fn lemma_insert_by_id(sorted: Seq<crate::runner::CheckResult>, r: crate::runner::CheckResult)
    requires
        crate::runner::ids_ascending(sorted),
    ensures
        crate::runner::ids_ascending(crate::runner::insert_by_id(sorted, r)),
        crate::runner::insert_by_id(sorted, r).to_multiset() =~= sorted.to_multiset().insert(r),
        forall|i: int|
            0 <= i < crate::runner::insert_by_id(sorted, r).len() ==> #[trigger] crate::runner::insert_by_id(
                sorted,
                r,
            )[i] == r || sorted.contains(crate::runner::insert_by_id(sorted, r)[i]),
    decreases sorted.len(),
{
    broadcast use vstd::seq_lib::to_multiset_build;

    let out = crate::runner::insert_by_id(sorted, r);
    if sorted.len() == 0 {
        assert(out == seq![r]);
        assert(out =~= Seq::<crate::runner::CheckResult>::empty().push(r));
        assert(sorted =~= Seq::<crate::runner::CheckResult>::empty());
    } else {
        let last = sorted.last();
        let init = sorted.drop_last();
        assert(sorted =~= init.push(last));
        if crate::order::text_less(r.id@, last.id@) {
            assert(crate::runner::ids_ascending(init)) by {
                assert forall|i: int, j: int| 0 <= i < j < init.len() implies crate::runner::id_le(
                    #[trigger] init[i].id@,
                    #[trigger] init[j].id@,
                ) by {
                    assert(init[i] == sorted[i] && init[j] == sorted[j]);
                }
            }
            lemma_insert_by_id(init, r);
            let mid = crate::runner::insert_by_id(init, r);
            assert(out == mid.push(last));
            assert forall|i: int, j: int| 0 <= i < j < out.len() implies crate::runner::id_le(
                #[trigger] out[i].id@,
                #[trigger] out[j].id@,
            ) by {
                if j == out.len() - 1 {
                    assert(out[j] == last);
                    assert(out[i] == mid[i]);
                    if mid[i] == r {
                        crate::order::lemma_less_total(r.id@, last.id@);
                    } else {
                        let k = choose|k: int| 0 <= k < init.len() && init[k] == mid[i];
                        assert(init[k] == sorted[k]);
                        assert(crate::runner::id_le(sorted[k].id@, sorted[sorted.len() - 1].id@));
                    }
                } else {
                    assert(out[i] == mid[i] && out[j] == mid[j]);
                }
            }
            assert forall|i: int| 0 <= i < out.len() implies #[trigger] out[i] == r || sorted.contains(out[i]) by {
                if i == out.len() - 1 {
                    assert(sorted[sorted.len() - 1] == out[i]);
                } else {
                    assert(out[i] == mid[i]);
                    if mid[i] != r {
                        let k = choose|k: int| 0 <= k < init.len() && init[k] == mid[i];
                        assert(sorted[k] == init[k]);
                    }
                }
            }
        } else {
            assert(out == sorted.push(r));
            assert forall|i: int, j: int| 0 <= i < j < out.len() implies crate::runner::id_le(
                #[trigger] out[i].id@,
                #[trigger] out[j].id@,
            ) by {
                if j == out.len() - 1 {
                    assert(out[i] == sorted[i]);
                    assert(out[j] == r);
                    if crate::order::text_less(r.id@, sorted[i].id@) {
                        if i == sorted.len() - 1 {
                        } else {
                            assert(crate::runner::id_le(sorted[i].id@, sorted[sorted.len() - 1].id@));
                            crate::order::lemma_less_total(sorted[i].id@, last.id@);
                            if sorted[i].id@ != last.id@ {
                                crate::order::lemma_less_transitive(r.id@, sorted[i].id@, last.id@);
                            }
                        }
                    }
                } else {
                    assert(out[i] == sorted[i] && out[j] == sorted[j]);
                }
            }
            assert forall|i: int| 0 <= i < out.len() implies #[trigger] out[i] == r || sorted.contains(out[i]) by {
                if i < sorted.len() {
                    assert(out[i] == sorted[i]);
                }
            }
        }
    }
}

proof fn lemma_sorted_by_id(results: Seq<crate::runner::CheckResult>)
    ensures
        crate::runner::ids_ascending(crate::runner::sorted_by_id(results)),
        crate::runner::sorted_by_id(results).to_multiset() =~= results.to_multiset(),
    decreases results.len(),
{
    broadcast use vstd::seq_lib::to_multiset_build;

    if results.len() == 0 {
        assert(crate::runner::sorted_by_id(results) =~= results);
    } else {
        lemma_sorted_by_id(results.drop_last());
        lemma_insert_by_id(crate::runner::sorted_by_id(results.drop_last()), results.last());
        assert(results =~= results.drop_last().push(results.last()));
    }
}

/// The report lists results in ascending order of id, and holds every result
/// the run produced, each as often as it was produced: ordering loses and
/// invents nothing.
pub proof fn law_results_are_reported_in_order_and_none_is_lost(results: Seq<crate::runner::CheckResult>)
    ensures
        crate::runner::ids_ascending(crate::runner::sorted_by_id(results)),
        crate::runner::sorted_by_id(results).to_multiset() == results.to_multiset(),
{
    lemma_sorted_by_id(results);
}

// ---------------------------------------------------------------------------
// Reading a series back
// ---------------------------------------------------------------------------

/// A series read back is judged by its newest sample: one of its samples,
/// none later in time, and no later sample with the same time after it.
pub proof fn law_the_newest_sample_is_the_one_read(samples: Seq<JsonView>)
    ensures
        samples.len() == 0 <==> crate::remote_write::latest_of(samples) is None,
        samples.len() > 0 ==> exists|i: int|
            0 <= i < samples.len() && crate::remote_write::latest_of(samples) == Some(samples[i]) && (forall|
                j: int,
            |
                0 <= j < samples.len() ==> crate::remote_write::sample_key(#[trigger] samples[j])
                    <= crate::remote_write::sample_key(samples[i])) && (forall|j: int|
                i < j < samples.len() ==> crate::remote_write::sample_key(#[trigger] samples[j])
                    < crate::remote_write::sample_key(samples[i])),
    decreases samples.len(),
{
    if samples.len() > 0 {
        let init = samples.drop_last();
        law_the_newest_sample_is_the_one_read(init);
        let n = samples.len() - 1;
        if init.len() == 0 {
            assert(crate::remote_write::latest_of(samples) == Some(samples[0]));
        } else {
            let i = choose|i: int|
                0 <= i < init.len() && crate::remote_write::latest_of(init) == Some(init[i]) && (forall|j: int|
                    0 <= j < init.len() ==> crate::remote_write::sample_key(#[trigger] init[j])
                        <= crate::remote_write::sample_key(init[i])) && (forall|j: int|
                    i < j < init.len() ==> crate::remote_write::sample_key(#[trigger] init[j])
                        < crate::remote_write::sample_key(init[i]));
            assert(init[i] == samples[i]);
            if crate::remote_write::sample_key(samples[n]) >= crate::remote_write::sample_key(init[i]) {
                assert(crate::remote_write::latest_of(samples) == Some(samples[n]));
                assert forall|j: int| 0 <= j < samples.len() implies crate::remote_write::sample_key(
                    #[trigger] samples[j],
                ) <= crate::remote_write::sample_key(samples[n]) by {
                    if j < n {
                        assert(init[j] == samples[j]);
                    }
                }
            } else {
                assert(crate::remote_write::latest_of(samples) == Some(samples[i]));
                assert forall|j: int| 0 <= j < samples.len() implies crate::remote_write::sample_key(
                    #[trigger] samples[j],
                ) <= crate::remote_write::sample_key(samples[i]) by {
                    if j < n {
                        assert(init[j] == samples[j]);
                    }
                }
                assert forall|j: int| i < j < samples.len() implies crate::remote_write::sample_key(
                    #[trigger] samples[j],
                ) < crate::remote_write::sample_key(samples[i]) by {
                    if j < n {
                        assert(init[j] == samples[j]);
                    }
                }
            }
        }
    }
}

// ---------------------------------------------------------------------------
// Choosing an encoding
// ---------------------------------------------------------------------------

proof fn lemma_first_shared(accepted: Seq<Seq<char>>, offered: Seq<Seq<char>>)
    ensures
        crate::encode::first_shared(accepted, offered) matches Some(e) ==> exists|i: int|
            0 <= i < offered.len() && offered[i] == e && accepted.contains(e) && forall|j: int|
                0 <= j < i ==> !accepted.contains(#[trigger] offered[j]),
        crate::encode::first_shared(accepted, offered) is None ==> forall|j: int|
            0 <= j < offered.len() ==> !accepted.contains(#[trigger] offered[j]),
    decreases offered.len(),
{
    if offered.len() > 0 {
        let rest = offered.drop_first();
        lemma_first_shared(accepted, rest);
        if accepted.contains(offered[0]) {
            assert(offered[0] == offered[0]);
        } else {
            match crate::encode::first_shared(accepted, rest) {
                Some(e) => {
                    let i = choose|i: int|
                        0 <= i < rest.len() && rest[i] == e && accepted.contains(e) && forall|j: int|
                            0 <= j < i ==> !accepted.contains(#[trigger] rest[j]);
                    assert(offered[i + 1] == e);
                    assert forall|j: int| 0 <= j < i + 1 implies !accepted.contains(#[trigger] offered[j]) by {
                        if j > 0 {
                            assert(offered[j] == rest[j - 1]);
                        }
                    }
                },
                None => {
                    assert forall|j: int| 0 <= j < offered.len() implies !accepted.contains(
                        #[trigger] offered[j],
                    ) by {
                        if j > 0 {
                            assert(offered[j] == rest[j - 1]);
                        }
                    }
                },
            }
        }
    }
}

/// A case is sent in the first encoding it offers that the backend accepts,
/// and in none when the backend accepts none of them; a backend that
/// declares nothing takes the first offered.
pub proof fn law_a_case_is_sent_in_the_first_encoding_both_sides_share(
    accepted: Seq<Seq<char>>,
    offered: Seq<Seq<char>>,
)
    ensures
        accepted.len() > 0 ==> (crate::encode::chosen_encoding(accepted, offered) matches Some(e) ==> exists|
            i: int,
        |
            0 <= i < offered.len() && offered[i] == e && accepted.contains(e) && forall|j: int|
                0 <= j < i ==> !accepted.contains(#[trigger] offered[j])),
        accepted.len() > 0 ==> (crate::encode::chosen_encoding(accepted, offered) is None <==> forall|j: int|
            0 <= j < offered.len() ==> !accepted.contains(#[trigger] offered[j])),
        accepted.len() == 0 && offered.len() > 0 ==> crate::encode::chosen_encoding(accepted, offered) == Some(
            offered[0],
        ),
{
    lemma_first_shared(accepted, offered);
}

// ---------------------------------------------------------------------------
// Template variables
// ---------------------------------------------------------------------------

/// Setting a variable and reading it back gives the value set; every other
/// variable keeps its entries.
pub proof fn law_a_variable_reads_back_what_was_set(
    entries: Seq<(Seq<char>, Seq<char>)>,
    name: Seq<char>,
    value: Seq<char>,
    other: Seq<char>,
)
    ensures
        ({
            let after = entries.filter(|e: (Seq<char>, Seq<char>)| e.0 != name).push((name, value));
            &&& exists|i: int| 0 <= i < after.len() && after[i] == (name, value)
            &&& forall|i: int| 0 <= i < after.len() && (#[trigger] after[i]).0 == name ==> after[i].1 == value
            &&& other != name ==> after.filter(|e: (Seq<char>, Seq<char>)| e.0 == other) == entries.filter(
                |e: (Seq<char>, Seq<char>)| e.0 == other,
            )
        }),
{
    let p = |e: (Seq<char>, Seq<char>)| e.0 != name;
    let kept = entries.filter(p);
    let after = kept.push((name, value));
    assert(after[after.len() - 1] == (name, value));
    assert forall|i: int| 0 <= i < after.len() && (#[trigger] after[i]).0 == name implies after[i].1 == value by {
        if i < kept.len() {
            assert(after[i] == kept[i]);
            entries.lemma_filter_pred(p, i);
        }
    }
    if other != name {
        let q = |e: (Seq<char>, Seq<char>)| e.0 == other;
        lemma_filter_filter(entries, p, q, other, name);
        reveal_with_fuel(Seq::filter, 1);
        assert(after.drop_last() =~= kept);
    }
}

proof fn lemma_filter_filter(
    s: Seq<(Seq<char>, Seq<char>)>,
    p: spec_fn((Seq<char>, Seq<char>)) -> bool,
    q: spec_fn((Seq<char>, Seq<char>)) -> bool,
    other: Seq<char>,
    name: Seq<char>,
)
    requires
        other != name,
        p == (|e: (Seq<char>, Seq<char>)| e.0 != name),
        q == (|e: (Seq<char>, Seq<char>)| e.0 == other),
    ensures
        s.filter(p).filter(q) == s.filter(q),
    decreases s.len(),
{
    reveal_with_fuel(Seq::filter, 1);
    if s.len() > 0 {
        lemma_filter_filter(s.drop_last(), p, q, other, name);
        let x = s.last();
        if p(x) {
            assert(s.filter(p) == s.drop_last().filter(p).push(x));
            assert(s.filter(p).drop_last() =~= s.drop_last().filter(p));
        } else {
            assert(s.filter(p) == s.drop_last().filter(p));
        }
    }
}

// ---------------------------------------------------------------------------
// Escaping
// ---------------------------------------------------------------------------

proof fn lemma_replaced_removes(hay: Seq<char>, needle: Seq<char>, with: Seq<char>, c: char)
    requires
        needle == seq![c],
        !with.contains(c),
    ensures
        !crate::text::replaced(hay, needle, with).contains(c),
    decreases hay.len(),
{
    let r = crate::text::replaced(hay, needle, with);
    if hay.len() > 0 {
        if crate::text::occurs_at(hay, 0, needle) {
            lemma_replaced_removes(hay.skip(1), needle, with, c);
            let t = crate::text::replaced(hay.skip(1), needle, with);
            assert(r == with + t);
            if r.contains(c) {
                let k = choose|k: int| 0 <= k < r.len() && r[k] == c;
                if k < with.len() {
                    assert(with[k] == c);
                } else {
                    assert(t[k - with.len()] == c);
                }
            }
        } else {
            assert(hay.subrange(0, 1) =~= seq![hay[0]]);
            assert(hay[0] != c);
            lemma_replaced_removes(hay.drop_first(), needle, with, c);
            let t = crate::text::replaced(hay.drop_first(), needle, with);
            assert(r == seq![hay[0]] + t);
            if r.contains(c) {
                let k = choose|k: int| 0 <= k < r.len() && r[k] == c;
                if k > 0 {
                    assert(t[k - 1] == c);
                }
            }
        }
    }
}

proof fn lemma_replaced_keeps_out(hay: Seq<char>, needle: Seq<char>, with: Seq<char>, c: char)
    requires
        !hay.contains(c),
        !with.contains(c),
    ensures
        !crate::text::replaced(hay, needle, with).contains(c),
    decreases hay.len(),
{
    let r = crate::text::replaced(hay, needle, with);
    if needle.len() > 0 && hay.len() > 0 {
        if crate::text::occurs_at(hay, 0, needle) {
            let rest = hay.skip(needle.len() as int);
            assert forall|k: int| 0 <= k < rest.len() implies rest[k] != c by {
                assert(rest[k] == hay[k + needle.len()]);
            }
            lemma_replaced_keeps_out(rest, needle, with, c);
            let t = crate::text::replaced(rest, needle, with);
            if r.contains(c) {
                let k = choose|k: int| 0 <= k < r.len() && r[k] == c;
                if k < with.len() {
                    assert(with[k] == c);
                } else {
                    assert(t[k - with.len()] == c);
                }
            }
        } else {
            let rest = hay.drop_first();
            assert forall|k: int| 0 <= k < rest.len() implies rest[k] != c by {
                assert(rest[k] == hay[k + 1]);
            }
            lemma_replaced_keeps_out(rest, needle, with, c);
            let t = crate::text::replaced(rest, needle, with);
            if r.contains(c) {
                let k = choose|k: int| 0 <= k < r.len() && r[k] == c;
                if k > 0 {
                    assert(t[k - 1] == c);
                } else {
                    assert(hay[0] == c);
                }
            }
        }
    }
}

/// A detail in a table cell never ends the row: no line break survives
/// escaping.
pub proof fn law_an_escaped_cell_stays_on_its_row(detail: Seq<char>)
    ensures
        !crate::matrix::cell_escaped(detail).contains('\n'),
{
    reveal_strlit("\n");
    reveal_strlit(" ");
    assert("\n"@ =~= seq!['\n']);
    lemma_replaced_removes(crate::text::replaced(detail, "|"@, "\\|"@), "\n"@, " "@, '\n');
}

/// Text escaped for the page opens no markup and closes no attribute: no
/// `<`, `>` or `"` survives.
pub proof fn law_escaped_html_opens_no_markup(text: Seq<char>)
    ensures
        !crate::matrix::html_escaped(text).contains('<'),
        !crate::matrix::html_escaped(text).contains('>'),
        !crate::matrix::html_escaped(text).contains('"'),
{
    reveal_strlit("&");
    reveal_strlit("&amp;");
    reveal_strlit("<");
    reveal_strlit("&lt;");
    reveal_strlit(">");
    reveal_strlit("&gt;");
    reveal_strlit("\"");
    reveal_strlit("&quot;");
    let a = crate::text::replaced(text, "&"@, "&amp;"@);
    let b = crate::text::replaced(a, "<"@, "&lt;"@);
    let c = crate::text::replaced(b, ">"@, "&gt;"@);
    assert("<"@ =~= seq!['<']);
    assert(">"@ =~= seq!['>']);
    assert("\""@ =~= seq!['"']);
    lemma_replaced_removes(a, "<"@, "&lt;"@, '<');
    lemma_replaced_keeps_out(b, ">"@, "&gt;"@, '<');
    lemma_replaced_keeps_out(c, "\""@, "&quot;"@, '<');
    lemma_replaced_removes(b, ">"@, "&gt;"@, '>');
    lemma_replaced_keeps_out(c, "\""@, "&quot;"@, '>');
    lemma_replaced_removes(c, "\""@, "&quot;"@, '"');
}

// ---------------------------------------------------------------------------
// Run keys
// ---------------------------------------------------------------------------

proof fn lemma_lower_hex_is_hex(d: int)
    requires
        0 <= d < 16,
    ensures
        crate::stub::is_hex(crate::json::lower_hex(d)),
{
    if d < 10 {
        let b: u8 = (d + 48) as u8;
        assert(b == d + 48);
        assert(b as char as nat == b);
    } else {
        let b: u8 = (d - 10 + 97) as u8;
        assert(b == d + 87);
        assert(b as char as nat == b);
    }
}

proof fn lemma_hex_text_is_hex(n: nat)
    ensures
        crate::runner::lower_hex_text(n).len() > 0,
        forall|i: int|
            0 <= i < crate::runner::lower_hex_text(n).len() ==> crate::stub::is_hex(
                #[trigger] crate::runner::lower_hex_text(n)[i],
            ),
    decreases n,
{
    if n < 16 {
        lemma_lower_hex_is_hex(n as int);
    } else {
        lemma_hex_text_is_hex(n / 16);
        lemma_lower_hex_is_hex((n % 16) as int);
        let h = crate::runner::lower_hex_text(n / 16);
        assert forall|i: int| 0 <= i < crate::runner::lower_hex_text(n).len() implies crate::stub::is_hex(
            #[trigger] crate::runner::lower_hex_text(n)[i],
        ) by {
            if i < h.len() {
                assert(crate::runner::lower_hex_text(n)[i] == h[i]);
            }
        }
    }
}

proof fn lemma_leading_hex(h: Seq<char>, after: Seq<char>)
    requires
        forall|i: int| 0 <= i < h.len() ==> crate::stub::is_hex(#[trigger] h[i]),
        after.len() == 0 || !crate::stub::is_hex(after[0]),
    ensures
        crate::stub::leading_hex(h + after) == h.len(),
    decreases h.len(),
{
    if h.len() == 0 {
        assert(h + after =~= after);
    } else {
        assert((h + after)[0] == h[0]);
        assert((h + after).drop_first() =~= h.drop_first() + after);
        assert forall|i: int| 0 <= i < h.drop_first().len() implies crate::stub::is_hex(
            #[trigger] h.drop_first()[i],
        ) by {
            assert(h.drop_first()[i] == h[i + 1]);
        }
        lemma_leading_hex(h.drop_first(), after);
    }
}

/// The run key the runner stamps on a payload is the key the stub finds in
/// it again, whatever follows the key that cannot be part of it.
pub proof fn law_a_stamped_run_key_is_found_again(n: u64, after: Seq<char>)
    requires
        after.len() == 0 || !crate::stub::is_hex(after[0]),
    ensures
        crate::stub::run_key_in("sm-"@ + crate::runner::lower_hex_text(n as nat) + after) == Some(
            "sm-"@ + crate::runner::lower_hex_text(n as nat),
        ),
{
    reveal_strlit("sm-");
    let h = crate::runner::lower_hex_text(n as nat);
    let key = "sm-"@ + h;
    let body = key + after;
    lemma_hex_text_is_hex(n as nat);
    assert(body.subrange(0, 3) =~= "sm-"@);
    assert(crate::text::occurs_at(body, 0, "sm-"@));
    assert(crate::stub::first_occurrence(body, "sm-"@) == Some(0int));
    let rest = body.skip(3);
    assert(rest =~= h + after);
    lemma_leading_hex(h, after);
    assert(rest.take(h.len() as int) =~= h);
}

// ---------------------------------------------------------------------------
// Templates
// ---------------------------------------------------------------------------

proof fn lemma_replaced_absent(hay: Seq<char>, needle: Seq<char>, with: Seq<char>)
    requires
        needle.len() > 0,
        !hay.contains(needle[0]),
    ensures
        crate::text::replaced(hay, needle, with) == hay,
    decreases hay.len(),
{
    if hay.len() > 0 {
        assert(!crate::text::occurs_at(hay, 0, needle)) by {
            if crate::text::occurs_at(hay, 0, needle) {
                assert(hay.subrange(0, needle.len() as int)[0] == hay[0]);
            }
        }
        assert forall|k: int| 0 <= k < hay.drop_first().len() implies hay.drop_first()[k] != needle[0] by {
            assert(hay.drop_first()[k] == hay[k + 1]);
        }
        lemma_replaced_absent(hay.drop_first(), needle, with);
        assert(seq![hay[0]] + hay.drop_first() =~= hay);
    }
}

/// Text that names no variable is sent exactly as written: with no `{` in
/// it, rendering changes nothing, whatever the variables.
pub proof fn law_text_without_a_placeholder_renders_unchanged(
    input: Seq<char>,
    vars: Seq<(Seq<char>, Seq<char>)>,
)
    requires
        !input.contains('{'),
    ensures
        crate::template::substituted(input, vars) == input,
    decreases vars.len(),
{
    if vars.len() > 0 {
        law_text_without_a_placeholder_renders_unchanged(input, vars.drop_last());
        let (name, value) = vars.last();
        lemma_replaced_absent(input, crate::template::spaced_pattern(name), value);
        lemma_replaced_absent(input, crate::template::tight_pattern(name), value);
    }
}

/// A placeholder, spelt with or without spaces, renders as the value of the
/// variable it names.
pub proof fn law_a_placeholder_renders_as_its_value(name: Seq<char>, value: Seq<char>)
    requires
        !value.contains('{'),
    ensures
        crate::template::substituted(crate::template::tight_pattern(name), seq![(name, value)]) == value,
        crate::template::substituted(crate::template::spaced_pattern(name), seq![(name, value)]) == value,
{
    let vars = seq![(name, value)];
    let none = Seq::<(Seq<char>, Seq<char>)>::empty();
    assert(vars.drop_last() =~= none);
    assert(vars.last() == (name, value));
    let tight = crate::template::tight_pattern(name);
    let spaced = crate::template::spaced_pattern(name);
    assert(tight[0] == '{');
    assert(crate::template::substituted(tight, none) == tight);
    assert(crate::template::substituted(spaced, none) == spaced);
    // The spelling with spaces is longer, so it never occurs in the tight one.
    lemma_replaced_shorter(tight, spaced, value);
    lemma_replaced_whole(tight, value);
    lemma_replaced_whole(spaced, value);
    lemma_replaced_absent(value, tight, value);
    assert(crate::template::substituted(tight, vars) == crate::text::replaced(
        crate::text::replaced(tight, spaced, value),
        tight,
        value,
    ));
    assert(crate::template::substituted(spaced, vars) == crate::text::replaced(
        crate::text::replaced(spaced, spaced, value),
        tight,
        value,
    ));
}

proof fn lemma_replaced_whole(p: Seq<char>, with: Seq<char>)
    requires
        p.len() > 0,
    ensures
        crate::text::replaced(p, p, with) == with,
{
    assert(p.subrange(0, p.len() as int) =~= p);
    assert(crate::text::occurs_at(p, 0, p));
    let rest = p.skip(p.len() as int);
    assert(rest =~= Seq::<char>::empty());
    assert(crate::text::replaced(rest, p, with) == rest);
    assert(with + rest =~= with);
}

proof fn lemma_replaced_shorter(hay: Seq<char>, needle: Seq<char>, with: Seq<char>)
    requires
        hay.len() < needle.len(),
    ensures
        crate::text::replaced(hay, needle, with) == hay,
    decreases hay.len(),
{
    if hay.len() > 0 {
        lemma_replaced_shorter(hay.drop_first(), needle, with);
        assert(seq![hay[0]] + hay.drop_first() =~= hay);
    }
}

// ---------------------------------------------------------------------------
// Export reports
// ---------------------------------------------------------------------------

/// A store's export report says the response came back in another encoding
/// than the request went in exactly when it did: a JSON answer to a
/// protobuf request, or a protobuf answer to a JSON one.
pub proof fn law_an_encoding_mismatch_is_flagged_exactly_when_there_is_one(
    protocol: Seq<char>,
    request_encoding: Seq<char>,
    content_type: Option<Seq<char>>,
    body: Seq<u8>,
)
    ensures
        crate::otlp::report_of(protocol, request_encoding, content_type, body) matches Some((_, _, mismatch))
            ==> (mismatch is Some <==> (crate::json::parsed_json(body) is Some) != crate::otlp::ends_with(
            request_encoding,
            "-json"@,
        )),
{
}

// ---------------------------------------------------------------------------
// Time variables
// ---------------------------------------------------------------------------

proof fn lemma_decimal_append(a: nat, d: int)
    requires
        a >= 1,
        0 <= d < 10,
    ensures
        crate::text::decimal(a * 10 + d as nat) == crate::text::decimal(a).push(crate::text::digit_char(d)),
{
    let n = a * 10 + d as nat;
    assert(n >= 10);
    assert(n / 10 == a);
    assert(n % 10 == d);
}

/// The fractional instant is now's second followed by the nine known
/// digits, so a store that drops any of them can be told which.
pub proof fn law_the_fractional_instant_is_the_second_and_known_digits(secs: int)
    requires
        secs >= 1,
    ensures
        crate::text::signed_decimal(secs * 1_000_000_000 + 123_456_789) == crate::text::signed_decimal(secs)
            + "123456789"@,
{
    reveal_strlit("123456789");
    let a = secs as nat;
    lemma_digit_char(1);
    lemma_digit_char(2);
    lemma_digit_char(3);
    lemma_digit_char(4);
    lemma_digit_char(5);
    lemma_digit_char(6);
    lemma_digit_char(7);
    lemma_digit_char(8);
    lemma_digit_char(9);
    lemma_decimal_append(a, 1);
    lemma_decimal_append(a * 10 + 1, 2);
    lemma_decimal_append(a * 100 + 12, 3);
    lemma_decimal_append(a * 1_000 + 123, 4);
    lemma_decimal_append(a * 10_000 + 1_234, 5);
    lemma_decimal_append(a * 100_000 + 12_345, 6);
    lemma_decimal_append(a * 1_000_000 + 123_456, 7);
    lemma_decimal_append(a * 10_000_000 + 1_234_567, 8);
    lemma_decimal_append(a * 100_000_000 + 12_345_678, 9);
    assert(crate::text::digit_char(1) == '1');
    assert(crate::text::digit_char(2) == '2');
    assert(crate::text::digit_char(3) == '3');
    assert(crate::text::digit_char(4) == '4');
    assert(crate::text::digit_char(5) == '5');
    assert(crate::text::digit_char(6) == '6');
    assert(crate::text::digit_char(7) == '7');
    assert(crate::text::digit_char(8) == '8');
    assert(crate::text::digit_char(9) == '9');
    assert(crate::text::decimal(a * 1_000_000_000 + 123_456_789) =~= crate::text::decimal(a) + "123456789"@);
}

// ---------------------------------------------------------------------------
// Metric data points
// ---------------------------------------------------------------------------

/// Rewriting the data points of a field for the decoder keeps every point,
/// in its place, and yields exactly one fixup per point, the one for that
/// point: fixups are applied positionally, so none may be lost or gained.
pub proof fn law_each_data_point_gets_its_own_fixup(points: Seq<JsonView>, exponential: bool)
    ensures
        ({
            let (ps, fs) = crate::points::normalised_data_points(points, exponential);
            &&& ps.len() == points.len()
            &&& fs.len() == points.len()
            &&& forall|i: int|
                0 <= i < points.len() ==> (#[trigger] ps[i], fs[i]) == crate::points::normalised_point(
                    if exponential {
                        crate::points::exponential_filled(points[i])
                    } else {
                        points[i]
                    },
                )
        }),
    decreases points.len(),
{
    if points.len() > 0 {
        law_each_data_point_gets_its_own_fixup(points.drop_last(), exponential);
        let (ps, fs) = crate::points::normalised_data_points(points, exponential);
        let (qs, gs) = crate::points::normalised_data_points(points.drop_last(), exponential);
        assert forall|i: int| 0 <= i < points.len() implies (#[trigger] ps[i], fs[i])
            == crate::points::normalised_point(
            if exponential {
                crate::points::exponential_filled(points[i])
            } else {
                points[i]
            },
        ) by {
            if i < points.len() - 1 {
                assert(ps[i] == qs[i] && fs[i] == gs[i]);
                assert(points.drop_last()[i] == points[i]);
            }
        }
    }
}

// ---------------------------------------------------------------------------
// Counting verdicts
// ---------------------------------------------------------------------------

/// Every result is counted under exactly one verdict, so the four counts
/// a run reports add up to the number of checks.
pub proof fn law_every_result_is_counted_once(results: Seq<crate::runner::CheckResult>)
    ensures
        crate::runner::count_of(results, crate::runner::Verdict::Pass) + crate::runner::count_of(
            results,
            crate::runner::Verdict::Reject,
        ) + crate::runner::count_of(results, crate::runner::Verdict::Alter) + crate::runner::count_of(
            results,
            crate::runner::Verdict::NotApplicable,
        ) == results.len(),
    decreases results.len(),
{
    reveal_with_fuel(Seq::filter, 1);
    if results.len() > 0 {
        law_every_result_is_counted_once(results.drop_last());
    }
}

// ---------------------------------------------------------------------------
// Rendering bytes and rendering text
// ---------------------------------------------------------------------------

proof fn lemma_encode_concat(a: Seq<char>, b: Seq<char>)
    ensures
        encode_utf8(a + b) == encode_utf8(a) + encode_utf8(b),
    decreases a.len(),
{
    if a.len() == 0 {
        assert(a + b =~= b);
    } else {
        assert((a + b).drop_first() =~= a.drop_first() + b);
        assert((a + b)[0] == a[0]);
        lemma_encode_concat(a.drop_first(), b);
    }
}

/// The first character of a text, encoded: its bytes lead the encoding, the
/// first is no continuation byte and the others are.
proof fn lemma_first_scalar_bytes(h: Seq<char>)
    requires
        h.len() > 0,
    ensures
        encode_utf8(h) == encode_scalar(h[0] as u32) + encode_utf8(h.drop_first()),
        encode_scalar(h[0] as u32).len() >= 1,
        encode_scalar(h[0] as u32).len() == vstd::utf8::length_of_first_scalar(encode_utf8(h)),
        !vstd::utf8::is_continuation_byte(encode_utf8(h)[0]),
        forall|i: int|
            1 <= i < encode_scalar(h[0] as u32).len() ==> vstd::utf8::is_continuation_byte(
                #[trigger] encode_utf8(h)[i],
            ),
{
    vstd::utf8::encode_utf8_first_scalar(h);
}

/// Where the encoding of `h` begins with the encoding of a non-empty `n`,
/// `h` begins with `n`: UTF-8 is a prefix code.
proof fn lemma_encoded_prefix(h: Seq<char>, n: Seq<char>)
    requires
        n.len() > 0,
        encode_utf8(n).len() <= encode_utf8(h).len(),
        encode_utf8(h).take(encode_utf8(n).len() as int) == encode_utf8(n),
    ensures
        n.len() <= h.len(),
        h.take(n.len() as int) == n,
    decreases n.len(),
{
    let a = encode_utf8(h);
    let b = encode_utf8(n);
    assert(a.len() > 0) by {
        lemma_first_scalar_bytes(n);
    }
    assert(h.len() > 0);
    lemma_first_scalar_bytes(h);
    lemma_first_scalar_bytes(n);
    vstd::utf8::encode_utf8_first_scalar(h);
    vstd::utf8::encode_utf8_first_scalar(n);
    let l = vstd::utf8::length_of_first_scalar(b);
    assert(a[0] == b[0]) by {
        assert(a.take(b.len() as int)[0] == a[0]);
    }
    assert forall|i: int| 0 <= i < l implies a[i] == b[i] by {
        assert(a.take(b.len() as int)[i] == a[i]);
    }
    assert(vstd::utf8::length_of_first_scalar(a) == l);
    assert(vstd::utf8::decode_first_scalar(a) == vstd::utf8::decode_first_scalar(b));
    vstd::utf8::char_u32_cast(h[0], h[0] as u32);
    vstd::utf8::char_u32_cast(n[0], n[0] as u32);
    assert(h[0] == n[0]);
    let h2 = h.drop_first();
    let n2 = n.drop_first();
    if n2.len() > 0 {
        assert(encode_utf8(h2) =~= a.skip(l));
        assert(encode_utf8(n2) =~= b.skip(l));
        assert(encode_utf8(h2).take(encode_utf8(n2).len() as int) =~= encode_utf8(n2)) by {
            assert forall|i: int| 0 <= i < encode_utf8(n2).len() implies encode_utf8(h2).take(
                encode_utf8(n2).len() as int,
            )[i] == encode_utf8(n2)[i] by {
                assert(a.take(b.len() as int)[i + l] == a[i + l]);
            }
        }
        lemma_encoded_prefix(h2, n2);
        assert(h.take(n.len() as int) =~= seq![h[0]] + h2.take(n2.len() as int));
        assert(n =~= seq![n[0]] + n2);
    } else {
        assert(h.take(n.len() as int) =~= seq![h[0]]);
        assert(n =~= seq![n[0]]);
    }
}

/// Bytes none of which can begin the needle pass through a replacement as
/// they stand.
proof fn lemma_replaced_passes(p: Seq<u8>, r: Seq<u8>, needle: Seq<u8>, with: Seq<u8>)
    requires
        needle.len() > 0,
        forall|i: int| 0 <= i < p.len() ==> p[i] != needle[0],
    ensures
        crate::text::replaced(p + r, needle, with) == p + crate::text::replaced(r, needle, with),
    decreases p.len(),
{
    if p.len() == 0 {
        assert(p + r =~= r);
        assert(p + crate::text::replaced(r, needle, with) =~= crate::text::replaced(r, needle, with));
    } else {
        let x = p + r;
        assert(x[0] == p[0]);
        assert(!crate::text::occurs_at(x, 0, needle)) by {
            if crate::text::occurs_at(x, 0, needle) {
                assert(x.subrange(0, needle.len() as int)[0] == x[0]);
            }
        }
        assert(x.drop_first() =~= p.drop_first() + r);
        lemma_replaced_passes(p.drop_first(), r, needle, with);
        assert(seq![x[0]] + (p.drop_first() + crate::text::replaced(r, needle, with)) =~= p
            + crate::text::replaced(r, needle, with));
    }
}

/// Replacing the encoding of a non-empty text in the encoding of another is
/// encoding the replacement made on the characters.
proof fn lemma_replaced_encoded(h: Seq<char>, n: Seq<char>, w: Seq<char>)
    requires
        n.len() > 0,
    ensures
        crate::text::replaced(encode_utf8(h), encode_utf8(n), encode_utf8(w)) == encode_utf8(
            crate::text::replaced(h, n, w),
        ),
    decreases h.len(),
{
    let a = encode_utf8(h);
    let b = encode_utf8(n);
    let c = encode_utf8(w);
    lemma_first_scalar_bytes(n);
    if h.len() == 0 {
    } else if crate::text::occurs_at(h, 0, n) {
        let rest = h.skip(n.len() as int);
        assert(h =~= n + rest);
        lemma_encode_concat(n, rest);
        assert(a.subrange(0, b.len() as int) =~= b);
        assert(crate::text::occurs_at(a, 0, b));
        assert(a.skip(b.len() as int) =~= encode_utf8(rest));
        lemma_replaced_encoded(rest, n, w);
        lemma_encode_concat(w, crate::text::replaced(rest, n, w));
    } else {
        lemma_first_scalar_bytes(h);
        let e = encode_scalar(h[0] as u32);
        let rest = h.drop_first();
        assert(!crate::text::occurs_at(a, 0, b)) by {
            if crate::text::occurs_at(a, 0, b) {
                assert(a.take(b.len() as int) =~= a.subrange(0, b.len() as int));
                lemma_encoded_prefix(h, n);
                assert(h.subrange(0, n.len() as int) =~= h.take(n.len() as int));
            }
        }
        let tail = e.drop_first();
        assert(a =~= seq![a[0]] + (tail + encode_utf8(rest)));
        assert forall|i: int| 0 <= i < tail.len() implies tail[i] != b[0] by {
            assert(tail[i] == a[i + 1]);
        }
        assert(a.drop_first() =~= tail + encode_utf8(rest));
        lemma_replaced_passes(tail, encode_utf8(rest), b, c);
        lemma_replaced_encoded(rest, n, w);
        assert(crate::text::replaced(h, n, w) =~= seq![h[0]] + crate::text::replaced(rest, n, w));
        lemma_encode_concat(seq![h[0]], crate::text::replaced(rest, n, w));
        let single = seq![h[0]];
        assert(single.drop_first() =~= Seq::<char>::empty());
        assert(single[0] == h[0]);
        assert(encode_utf8(Seq::<char>::empty()) =~= Seq::<u8>::empty());
        assert(encode_utf8(single) == e + encode_utf8(single.drop_first()));
        assert(encode_utf8(single) =~= e);
        assert(e =~= seq![a[0]] + tail);
        assert(seq![a[0]] + (tail + encode_utf8(crate::text::replaced(rest, n, w))) =~= e + encode_utf8(
            crate::text::replaced(rest, n, w),
        ));
    }
}

/// Rendering the UTF-8 bytes of a text is rendering the text and encoding
/// it: the byte form substitutes exactly where the text form does.
pub proof fn law_rendering_bytes_is_rendering_text(s: Seq<char>, vars: Seq<(Seq<char>, Seq<char>)>)
    ensures
        crate::template::substituted_bytes(encode_utf8(s), vars) == encode_utf8(
            crate::template::substituted(s, vars),
        ),
    decreases vars.len(),
{
    if vars.len() > 0 {
        law_rendering_bytes_is_rendering_text(s, vars.drop_last());
        let (name, value) = vars.last();
        let before = crate::template::substituted(s, vars.drop_last());
        let spaced = crate::template::spaced_pattern(name);
        let tight = crate::template::tight_pattern(name);
        assert(spaced.len() > 0);
        assert(tight.len() > 0);
        lemma_replaced_encoded(before, spaced, value);
        lemma_replaced_encoded(crate::text::replaced(before, spaced, value), tight, value);
    }
}

// ---------------------------------------------------------------------------
// A case's verdict
// ---------------------------------------------------------------------------

/// A case with several read-back assertions is altered exactly when one of
/// them found an alteration, wherever that assertion stands, and passes
/// otherwise.
pub proof fn law_an_alteration_anywhere_alters_the_case(vs: Seq<Verdict>)
    ensures
        worst_of(vs) == Verdict::Alter <==> exists|k: int| 0 <= k < vs.len() && vs[k] == Verdict::Alter,
        worst_of(vs) == Verdict::Alter || worst_of(vs) == Verdict::Pass,
{
    if exists|k: int| 0 <= k < vs.len() && vs[k] == Verdict::Alter {
        let k = choose|k: int| 0 <= k < vs.len() && vs[k] == Verdict::Alter;
        assert(vs.contains(vs[k]));
    }
}

/// The order in which a case's read-back assertions come does not change
/// its verdict.
pub proof fn law_the_order_of_assertions_does_not_matter(vs: Seq<Verdict>, ws: Seq<Verdict>)
    requires
        vs.to_multiset() == ws.to_multiset(),
    ensures
        worst_of(vs) == worst_of(ws),
{
    broadcast use vstd::seq_lib::group_to_multiset_ensures;

    assert(vs.to_multiset().count(Verdict::Alter) == ws.to_multiset().count(Verdict::Alter));
    assert(vs.contains(Verdict::Alter) <==> vs.to_multiset().count(Verdict::Alter) > 0);
    assert(ws.contains(Verdict::Alter) <==> ws.to_multiset().count(Verdict::Alter) > 0);
}

// ---------------------------------------------------------------------------
// Text comparison
// ---------------------------------------------------------------------------

/// Under `text`, as under `raw`, two strings are equal exactly when they
/// hold the same characters: strings of equal length that differ are a
/// difference.
pub proof fn law_strings_compare_by_their_characters(
    a: Seq<char>,
    b: Seq<char>,
    kind: Kind,
    fa: Option<u64>,
    fb: Option<u64>,
)
    requires
        kind == Kind::Text || kind == Kind::Raw,
    ensures
        readings_equal(Some(JsonView::String(a)), Some(JsonView::String(b)), kind, fa, fb) <==> a == b,
{
}

/// Two values that both read as integers are equal under `integer`
/// exactly when they are the same integer, whatever their JSON form.
pub proof fn law_integers_compare_by_their_value(sent: JsonView, got: JsonView, fa: Option<u64>, fb: Option<u64>)
    requires
        crate::compare::integer_of(sent) is Some,
        crate::compare::integer_of(got) is Some,
    ensures
        readings_equal(Some(sent), Some(got), Kind::Integer, fa, fb) <==> crate::compare::integer_of(sent)->0
            == crate::compare::integer_of(got)->0,
{
}

/// Two values that both read as floats are equal under `float` exactly
/// when their bit patterns are the same.
pub proof fn law_floats_compare_by_their_bits(sent: JsonView, got: JsonView, fa: u64, fb: u64)
    ensures
        readings_equal(Some(sent), Some(got), Kind::Float, Some(fa), Some(fb)) <==> fa == fb,
{
}

// ---------------------------------------------------------------------------
// What changed since the previous run
// ---------------------------------------------------------------------------

proof fn lemma_first_outcome(outcomes: Seq<Outcome>, backend: Seq<char>, oi: int)
    requires
        0 <= oi < outcomes.len(),
        outcomes[oi].backend@ == backend,
        forall|j: int| 0 <= j < oi ==> (#[trigger] outcomes[j]).backend@ != backend,
    ensures
        find_outcome(outcomes, backend) == Some(outcomes[oi]),
    decreases oi,
{
    if oi > 0 {
        assert(outcomes[0].backend@ != backend);
        let rest = outcomes.drop_first();
        assert forall|j: int| 0 <= j < oi - 1 implies (#[trigger] rest[j]).backend@ != backend by {
            assert(rest[j] == outcomes[j + 1]);
        }
        lemma_first_outcome(rest, backend, oi - 1);
    }
}

proof fn lemma_no_outcome(outcomes: Seq<Outcome>, backend: Seq<char>)
    requires
        forall|j: int| 0 <= j < outcomes.len() ==> (#[trigger] outcomes[j]).backend@ != backend,
    ensures
        find_outcome(outcomes, backend) is None,
    decreases outcomes.len(),
{
    if outcomes.len() > 0 {
        assert(outcomes[0].backend@ != backend);
        let rest = outcomes.drop_first();
        assert forall|j: int| 0 <= j < rest.len() implies (#[trigger] rest[j]).backend@ != backend by {
            assert(rest[j] == outcomes[j + 1]);
        }
        lemma_no_outcome(rest, backend);
    }
}

proof fn lemma_first_result(results: Seq<CheckResult>, id: Seq<char>, ri: int)
    requires
        0 <= ri < results.len(),
        results[ri].id@ == id,
        forall|j: int| 0 <= j < ri ==> (#[trigger] results[j]).id@ != id,
    ensures
        find_result(results, id) == Some(results[ri]),
    decreases ri,
{
    if ri > 0 {
        assert(results[0].id@ != id);
        let rest = results.drop_first();
        assert forall|j: int| 0 <= j < ri - 1 implies (#[trigger] rest[j]).id@ != id by {
            assert(rest[j] == results[j + 1]);
        }
        lemma_first_result(rest, id, ri - 1);
    }
}

proof fn lemma_no_result(results: Seq<CheckResult>, id: Seq<char>)
    requires
        forall|j: int| 0 <= j < results.len() ==> (#[trigger] results[j]).id@ != id,
    ensures
        find_result(results, id) is None,
    decreases results.len(),
{
    if results.len() > 0 {
        assert(results[0].id@ != id);
        let rest = results.drop_first();
        assert forall|j: int| 0 <= j < rest.len() implies (#[trigger] rest[j]).id@ != id by {
            assert(rest[j] == results[j + 1]);
        }
        lemma_no_result(rest, id);
    }
}

/// A cell speaks of the previous run only when that run judged the same
/// check on the same backend (its first column for the backend, and that
/// column's first result for the check) and its verdict differs from the
/// one shown now: an unchanged verdict carries no note.
pub proof fn law_a_cell_notes_only_a_changed_verdict(
    h: &History,
    backend: Seq<char>,
    id: Seq<char>,
    verdict: Verdict,
    oi: int,
    ri: int,
)
    requires
        0 <= oi < h.matrix.outcomes@.len(),
        h.matrix.outcomes@[oi].backend@ == backend,
        forall|j: int| 0 <= j < oi ==> (#[trigger] h.matrix.outcomes@[j]).backend@ != backend,
        0 <= ri < h.matrix.outcomes@[oi].results@.len(),
        h.matrix.outcomes@[oi].results@[ri].id@ == id,
        forall|j: int| 0 <= j < ri ==> (#[trigger] h.matrix.outcomes@[oi].results@[j]).id@ != id,
    ensures
        history_note(Some(h), backend, id, verdict).len() == 0 <==> h.matrix.outcomes@[oi].results@[ri].verdict
            == verdict,
        h.matrix.outcomes@[oi].results@[ri].verdict != verdict ==> contains_seq(
            history_note(Some(h), backend, id, verdict),
            "changed from "@ + crate::matrix::label_text(h.matrix.outcomes@[oi].results@[ri].verdict),
        ),
{
    lemma_first_outcome(h.matrix.outcomes@, backend, oi);
    lemma_first_result(h.matrix.outcomes@[oi].results@, id, ri);
    reveal_strlit("</a>");
    let prev = h.matrix.outcomes@[oi].results@[ri].verdict;
    if prev != verdict {
        reveal_strlit("\">changed from ");
        reveal_strlit("changed from ");
        let a = "<a class=\"hist\" href=\""@ + crate::matrix::html_escaped(h.link@);
        let b = "\">changed from "@;
        let rest = " on "@ + crate::matrix::html_escaped(crate::matrix::date_of(h.matrix.generated@)) + "</a>"@;
        let p = "changed from "@ + crate::matrix::label_text(prev);
        let note = history_note(Some(h), backend, id, verdict);
        assert(note =~= a + b + crate::matrix::label_text(prev) + rest);
        let i: int = a.len() as int + 2;
        assert(note.subrange(i, i + p.len()) =~= p);
        assert(crate::text::occurs_at(note, i, p));
    }
}

/// Without a previous run, or when the previous run has no column for the
/// backend or no result for the check, a cell says nothing of history.
pub proof fn law_no_previous_verdict_no_note(
    history: Option<&History>,
    backend: Seq<char>,
    id: Seq<char>,
    verdict: Verdict,
)
    requires
        history matches Some(h) ==> (forall|j: int|
            0 <= j < h.matrix.outcomes@.len() ==> (#[trigger] h.matrix.outcomes@[j]).backend@ != backend)
            || (exists|oi: int|
            0 <= oi < h.matrix.outcomes@.len() && h.matrix.outcomes@[oi].backend@ == backend && (forall|
                j: int,
            | 0 <= j < oi ==> (#[trigger] h.matrix.outcomes@[j]).backend@ != backend) && (forall|j: int|
                0 <= j < h.matrix.outcomes@[oi].results@.len() ==> (#[trigger] h.matrix.outcomes@[oi].results@[j]).id@
                    != id)),
    ensures
        history_note(history, backend, id, verdict).len() == 0,
{
    match history {
        None => {},
        Some(h) => {
            let outcomes = h.matrix.outcomes@;
            if forall|j: int| 0 <= j < outcomes.len() ==> (#[trigger] outcomes[j]).backend@ != backend {
                lemma_no_outcome(outcomes, backend);
            } else {
                let oi = choose|oi: int|
                    0 <= oi < outcomes.len() && outcomes[oi].backend@ == backend && (forall|j: int|
                        0 <= j < oi ==> (#[trigger] outcomes[j]).backend@ != backend) && (forall|j: int|
                        0 <= j < outcomes[oi].results@.len() ==> (#[trigger] outcomes[oi].results@[j]).id@
                            != id);
                lemma_first_outcome(outcomes, backend, oi);
                lemma_no_result(outcomes[oi].results@, id);
            }
        },
    }
}

// ---------------------------------------------------------------------------
// Reading a log record's fields
// ---------------------------------------------------------------------------

/// The three named fields of a log record are read from the record's own
/// member of that name, whether the check spells them in camel case or in
/// snake case, and any other field that is neither `body` nor
/// `attributes.<key>` is the record's member of exactly that name.
pub proof fn law_a_log_field_is_the_member_it_names(payload: JsonView, field: Seq<char>)
    requires
        crate::otlp::first_log_record(payload) is Some,
    ensures
        ({
            let r = crate::otlp::first_log_record(payload)->0;
            &&& crate::otlp::log_field(payload, "severityNumber"@) == r.get("severityNumber"@)
            &&& crate::otlp::log_field(payload, "severity_number"@) == r.get("severityNumber"@)
            &&& crate::otlp::log_field(payload, "severityText"@) == r.get("severityText"@)
            &&& crate::otlp::log_field(payload, "severity_text"@) == r.get("severityText"@)
            &&& crate::otlp::log_field(payload, "timeUnixNano"@) == r.get("timeUnixNano"@)
            &&& crate::otlp::log_field(payload, "time_unix_nano"@) == r.get("timeUnixNano"@)
            &&& (field != "body"@ && field != "severityNumber"@ && field != "severity_number"@ && field
                != "severityText"@ && field != "severity_text"@ && field != "timeUnixNano"@ && field
                != "time_unix_nano"@ && !(field.len() >= 11 && field.take(11) == "attributes."@))
                ==> crate::otlp::log_field(payload, field) == r.get(field)
        }),
{
    reveal_strlit("body");
    reveal_strlit("severityNumber");
    reveal_strlit("severity_number");
    reveal_strlit("severityText");
    reveal_strlit("severity_text");
    reveal_strlit("timeUnixNano");
    reveal_strlit("time_unix_nano");
    reveal_strlit("attributes.");
    assert("severityNumber"@ != "body"@);
    assert("severityNumber"@ != "severityText"@);
    assert("severityNumber"@ != "severity_text"@);
    assert("severity_number"@ != "body"@);
    assert("severity_number"@ != "severityText"@);
    assert("severity_number"@ != "severity_text"@);
    assert("severityText"@ != "body"@);
    assert("severity_text"@ != "body"@);
    assert("timeUnixNano"@ != "body"@);
    assert("timeUnixNano"@[0] != "severityText"@[0]);
    assert("timeUnixNano"@ != "severityText"@);
    assert("timeUnixNano"@[0] != "severity_text"@[0]);
    assert("timeUnixNano"@ != "severity_text"@);
    assert("timeUnixNano"@ != "severityNumber"@);
    assert("timeUnixNano"@ != "severity_number"@);
    assert("time_unix_nano"@ != "body"@);
    assert("time_unix_nano"@ != "severityText"@);
    assert("time_unix_nano"@ != "severity_text"@);
    assert("time_unix_nano"@[0] != "severityNumber"@[0]);
    assert("time_unix_nano"@ != "severityNumber"@);
    assert("time_unix_nano"@[0] != "severity_number"@[0]);
    assert("time_unix_nano"@ != "severity_number"@);
}

/// The dotted paths of a span read the member each names: `status.code` and
/// `status.message` inside the span's status, `events.0.name` and
/// `events.0.timeUnixNano` in its first event, `links.0.traceId` in its
/// first link; any other field that is not `attributes.<key>` is the span's
/// member of exactly that name.
pub proof fn law_a_span_field_is_the_member_its_path_names(payload: JsonView, field: Seq<char>)
    requires
        crate::otlp::first_span(payload) is Some,
    ensures
        ({
            let span = crate::otlp::first_span(payload)->0;
            let status = span.get("status"@);
            let event = crate::otlp::first_in(span, "events"@);
            let link = crate::otlp::first_in(span, "links"@);
            &&& crate::otlp::trace_field(payload, "status.code"@) == (match status {
                Some(st) => st.get("code"@),
                None => None,
            })
            &&& crate::otlp::trace_field(payload, "status.message"@) == (match status {
                Some(st) => st.get("message"@),
                None => None,
            })
            &&& crate::otlp::trace_field(payload, "events.0.name"@) == (match event {
                Some(e) => e.get("name"@),
                None => None,
            })
            &&& crate::otlp::trace_field(payload, "events.0.timeUnixNano"@) == (match event {
                Some(e) => e.get("timeUnixNano"@),
                None => None,
            })
            &&& crate::otlp::trace_field(payload, "links.0.traceId"@) == (match link {
                Some(l) => l.get("traceId"@),
                None => None,
            })
            &&& (field != "status.code"@ && field != "status.message"@ && field != "events.0.name"@ && field
                != "events.0.timeUnixNano"@ && field != "links.0.traceId"@ && !(field.len() >= 11 && field.take(
                11,
            ) == "attributes."@)) ==> crate::otlp::trace_field(payload, field) == span.get(field)
        }),
{
    reveal_strlit("status.code");
    reveal_strlit("status.message");
    reveal_strlit("events.0.name");
    reveal_strlit("events.0.timeUnixNano");
    reveal_strlit("links.0.traceId");
    reveal_strlit("attributes.");
    assert("status.message"@[7] != "status.code"@[7]);
    assert("status.message"@ != "status.code"@);
    assert("events.0.name"@[0] != "status.code"@[0]);
    assert("events.0.name"@[0] != "status.message"@[0]);
    assert("events.0.name"@ != "status.code"@);
    assert("events.0.name"@ != "status.message"@);
    assert("events.0.timeUnixNano"@[0] != "status.code"@[0]);
    assert("events.0.timeUnixNano"@[0] != "status.message"@[0]);
    assert("events.0.timeUnixNano"@[9] != "events.0.name"@[9]);
    assert("events.0.timeUnixNano"@ != "status.code"@);
    assert("events.0.timeUnixNano"@ != "status.message"@);
    assert("events.0.timeUnixNano"@ != "events.0.name"@);
    assert("links.0.traceId"@[0] != "status.code"@[0]);
    assert("links.0.traceId"@[0] != "status.message"@[0]);
    assert("links.0.traceId"@[0] != "events.0.name"@[0]);
    assert("links.0.traceId"@[0] != "events.0.timeUnixNano"@[0]);
    assert("links.0.traceId"@ != "status.code"@);
    assert("links.0.traceId"@ != "status.message"@);
    assert("links.0.traceId"@ != "events.0.name"@);
    assert("links.0.traceId"@ != "events.0.timeUnixNano"@);
}

// ---------------------------------------------------------------------------
// Content types
// ---------------------------------------------------------------------------

proof fn lemma_not_ending_with(s: Seq<char>, p: Seq<char>, k: int)
    requires
        p.len() <= s.len() ==> 0 <= k < p.len() && s[s.len() - p.len() + k] != p[k],
    ensures
        !crate::otlp::ends_with(s, p),
{
    if p.len() <= s.len() && s.skip(s.len() - p.len()) == p {
        assert(s.skip(s.len() - p.len())[k] == s[s.len() - p.len() + k]);
    }
}

/// The content type a wire encoding requires names the body's format: an
/// encoding whose name ends in `-protobuf` is sent as
/// `application/x-protobuf`, and one whose name ends in `-json` as
/// `application/json`.
pub proof fn law_the_content_type_names_the_body_format(encoding: Seq<char>, i: int)
    requires
        0 <= i < crate::encode::required_headers(encoding).len(),
        crate::encode::required_headers(encoding)[i].0 == "Content-Type"@,
    ensures
        crate::otlp::ends_with(encoding, "-protobuf"@) ==> crate::encode::required_headers(encoding)[i].1
            == "application/x-protobuf"@,
        crate::otlp::ends_with(encoding, "-json"@) ==> crate::encode::required_headers(encoding)[i].1
            == "application/json"@,
{
    reveal_strlit("-protobuf");
    reveal_strlit("-json");
    reveal_strlit("Content-Type");
    reveal_strlit("Content-Encoding");
    reveal_strlit("X-Prometheus-Remote-Write-Version");
    reveal_strlit("remote-write-protobuf");
    reveal_strlit("otlp-protobuf");
    reveal_strlit("otlp-metrics-protobuf");
    reveal_strlit("otlp-traces-protobuf");
    reveal_strlit("otlp-json");
    reveal_strlit("otlp-metrics-json");
    reveal_strlit("otlp-traces-json");
    reveal_strlit("es-ndjson");
    if encoding == "remote-write-protobuf"@ {
        assert("Content-Encoding"@[8] != "Content-Type"@[8]);
        assert("Content-Encoding"@ != "Content-Type"@);
        assert("X-Prometheus-Remote-Write-Version"@[0] != "Content-Type"@[0]);
        assert("X-Prometheus-Remote-Write-Version"@ != "Content-Type"@);
        lemma_not_ending_with(encoding, "-json"@, 0);
    } else if encoding == "otlp-protobuf"@ || encoding == "otlp-metrics-protobuf"@ || encoding
        == "otlp-traces-protobuf"@ {
        lemma_not_ending_with(encoding, "-json"@, 0);
    } else if encoding == "otlp-json"@ || encoding == "otlp-metrics-json"@ || encoding
        == "otlp-traces-json"@ {
        lemma_not_ending_with(encoding, "-protobuf"@, 0);
    } else if encoding == "es-ndjson"@ {
        lemma_not_ending_with(encoding, "-protobuf"@, 0);
        lemma_not_ending_with(encoding, "-json"@, 0);
    }
}

/// Every OTLP encoding and the remote-write encoding require a content
/// type, and it is the first header they require.
pub proof fn law_every_protobuf_or_json_encoding_has_a_content_type(encoding: Seq<char>)
    requires
        encoding == "remote-write-protobuf"@ || encoding == "otlp-protobuf"@ || encoding
            == "otlp-metrics-protobuf"@ || encoding == "otlp-traces-protobuf"@ || encoding == "otlp-json"@
            || encoding == "otlp-metrics-json"@ || encoding == "otlp-traces-json"@,
    ensures
        crate::encode::required_headers(encoding).len() > 0,
        crate::encode::required_headers(encoding)[0].0 == "Content-Type"@,
{
}

} // verus!

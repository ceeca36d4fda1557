//! Text helpers: characters in, characters out, with what each one does
//! stated over `Seq<char>`.

use vstd::prelude::*;

verus! {

/// Appends one character to a `String` (std's `String::push`).
#[verifier::external_body]
pub(crate) fn push_char(s: &mut String, c: char)
    ensures
        final(s)@ == old(s)@.push(c),
{
    s.push(c)
}

/// The characters of a string slice, in order.
pub fn chars_of(s: &str) -> (v: Vec<char>)
    ensures
        v@ == s@,
{
    let mut v: Vec<char> = Vec::new();
    for c in it: s.chars()
        invariant
            v@ == it.seq().take(it.index() as int),
    {
        v.push(c);
    }
    v
}

/// A `String` holding exactly the given characters.
pub fn string_of(cs: &[char]) -> (s: String)
    ensures
        s@ == cs@,
{
    let mut s = String::new();
    let mut i: usize = 0;
    while i < cs.len()
        invariant
            i <= cs@.len(),
            s@ == cs@.take(i as int),
        decreases cs@.len() - i,
    {
        push_char(&mut s, cs[i]);
        assert(cs@.take(i as int + 1) == cs@.take(i as int).push(cs@[i as int]));
        i = i + 1;
    }
    assert(cs@.take(cs@.len() as int) == cs@);
    s
}

} // verus!

verus! {

// ---------------------------------------------------------------------------
// Whitespace and trimming
// ---------------------------------------------------------------------------

/// Unicode `White_Space`, the property `char::is_whitespace` and `str::trim`
/// go by.
pub open spec fn is_white_space(c: char) -> bool {
    let u = c as u32;
    ||| 0x9 <= u <= 0xd
    ||| u == 0x20
    ||| u == 0x85
    ||| u == 0xa0
    ||| u == 0x1680
    ||| 0x2000 <= u <= 0x200a
    ||| u == 0x2028
    ||| u == 0x2029
    ||| u == 0x202f
    ||| u == 0x205f
    ||| u == 0x3000
}

pub fn white_space(c: char) -> (b: bool)
    ensures
        b == is_white_space(c),
{
    let u = c as u32;
    (0x9 <= u && u <= 0xd) || u == 0x20 || u == 0x85 || u == 0xa0 || u == 0x1680 || (0x2000 <= u
        && u <= 0x200a) || u == 0x2028 || u == 0x2029 || u == 0x202f || u == 0x205f || u == 0x3000
}

/// `s` without its leading whitespace.
pub open spec fn trim_start(s: Seq<char>) -> Seq<char>
    decreases s.len(),
{
    if s.len() > 0 && is_white_space(s[0]) {
        trim_start(s.drop_first())
    } else {
        s
    }
}

/// `s` without its trailing whitespace.
pub open spec fn trim_end(s: Seq<char>) -> Seq<char>
    decreases s.len(),
{
    if s.len() > 0 && is_white_space(s.last()) {
        trim_end(s.drop_last())
    } else {
        s
    }
}

/// What `str::trim` leaves.
pub open spec fn trimmed(s: Seq<char>) -> Seq<char> {
    trim_end(trim_start(s))
}

proof fn lemma_trim_start_from(s: Seq<char>, i: int)
    requires
        0 <= i < s.len(),
        is_white_space(s[i]),
    ensures
        trim_start(s.subrange(i, s.len() as int)) == trim_start(s.subrange(i + 1, s.len() as int)),
{
    assert(s.subrange(i, s.len() as int).drop_first() =~= s.subrange(i + 1, s.len() as int));
}

proof fn lemma_trim_end_to(s: Seq<char>, j: int)
    requires
        0 < j <= s.len(),
        is_white_space(s[j - 1]),
    ensures
        trim_end(s.subrange(0, j)) == trim_end(s.subrange(0, j - 1)),
{
    assert(s.subrange(0, j).drop_last() =~= s.subrange(0, j - 1));
}

/// The characters of `s` with leading and trailing whitespace removed.
pub fn trim_chars(s: &[char]) -> (r: Vec<char>)
    ensures
        r@ == trimmed(s@),
{
    let n = s.len();
    let mut i: usize = 0;
    assert(s@.subrange(0, n as int) =~= s@);
    while i < n && white_space(s[i])
        invariant
            i <= n == s@.len(),
            trim_start(s@) == trim_start(s@.subrange(i as int, n as int)),
        decreases n - i,
    {
        proof {
            lemma_trim_start_from(s@, i as int);
        }
        i = i + 1;
    }
    let ghost t = s@.subrange(i as int, n as int);
    assert(trim_start(s@) == t);
    let mut j: usize = n;
    assert(t.subrange(0, t.len() as int) =~= t);
    while j > i && white_space(s[j - 1])
        invariant
            i <= j <= n == s@.len(),
            t == s@.subrange(i as int, n as int),
            trim_end(t) == trim_end(s@.subrange(i as int, j as int)),
        decreases j,
    {
        proof {
            let u = s@.subrange(i as int, j as int);
            assert(u.subrange(0, u.len() as int) =~= u);
            lemma_trim_end_to(u, u.len() as int);
            assert(u.subrange(0, u.len() - 1) =~= s@.subrange(i as int, j - 1));
        }
        j = j - 1;
    }
    let mut r: Vec<char> = Vec::new();
    let mut k: usize = i;
    while k < j
        invariant
            i <= k <= j <= n == s@.len(),
            r@ == s@.subrange(i as int, k as int),
        decreases j - k,
    {
        r.push(s[k]);
        assert(s@.subrange(i as int, k + 1) =~= s@.subrange(i as int, k as int).push(s@[k as int]));
        k = k + 1;
    }
    r
}

// ---------------------------------------------------------------------------
// Decimal integers
// ---------------------------------------------------------------------------

pub open spec fn digit_char(d: int) -> char {
    ((d + 48) as u8) as char
}

pub open spec fn is_digit(c: char) -> bool {
    '0' <= c && c <= '9'
}

/// The decimal digits of `n`, most significant first, with no leading zero.
pub open spec fn decimal(n: nat) -> Seq<char>
    decreases n,
{
    if n < 10 {
        seq![digit_char(n as int)]
    } else {
        decimal(n / 10).push(digit_char((n % 10) as int))
    }
}

/// `i` as Rust's `Display` prints an integer.
pub open spec fn signed_decimal(i: int) -> Seq<char> {
    if i < 0 {
        seq!['-'] + decimal((-i) as nat)
    } else {
        decimal(i as nat)
    }
}

fn decimal_chars(n: u128) -> (v: Vec<char>)
    ensures
        v@ == decimal(n as nat),
    decreases n,
{
    let d = ((n % 10) as u8 + 48u8) as char;
    if n < 10 {
        let mut v = Vec::new();
        v.push(d);
        v
    } else {
        let mut v = decimal_chars(n / 10);
        v.push(d);
        v
    }
}

/// `n` in decimal.
pub fn u64_text(n: u64) -> (v: Vec<char>)
    ensures
        v@ == signed_decimal(n as int),
{
    decimal_chars(n as u128)
}

/// `i` in decimal, with a leading `-` when negative.
pub fn i64_text(i: i64) -> (v: Vec<char>)
    ensures
        v@ == signed_decimal(i as int),
{
    if i < 0 {
        let magnitude: u64 = if i == i64::MIN {
            9223372036854775808u64
        } else {
            (-i) as u64
        };
        let mut v = Vec::new();
        v.push('-');
        let mut d = decimal_chars(magnitude as u128);
        v.append(&mut d);
        assert(v@ =~= seq!['-'] + decimal((-i) as nat));
        v
    } else {
        decimal_chars(i as u128)
    }
}

/// `i` in decimal, with a leading `-` when negative.
pub fn i128_text(i: i128) -> (v: Vec<char>)
    ensures
        v@ == signed_decimal(i as int),
{
    if i < 0 {
        let magnitude: u128 = if i == i128::MIN {
            170141183460469231731687303715884105728u128
        } else {
            (-i) as u128
        };
        let mut v = Vec::new();
        v.push('-');
        let mut d = decimal_chars(magnitude);
        v.append(&mut d);
        assert(v@ =~= seq!['-'] + decimal((-i) as nat));
        v
    } else {
        decimal_chars(i as u128)
    }
}

/// The value of a run of decimal digits.
pub open spec fn digits_value(s: Seq<char>) -> nat
    decreases s.len(),
{
    if s.len() == 0 {
        0
    } else {
        digits_value(s.drop_last()) * 10 + ((s.last() as nat) - 48) as nat
    }
}

pub open spec fn all_digits(s: Seq<char>) -> bool {
    forall|i: int| 0 <= i < s.len() ==> is_digit(#[trigger] s[i])
}

/// What `str::parse` returns for a signed integer type whose range is
/// `lo..=hi`: an optional sign, then at least one ASCII digit, nothing else.
pub open spec fn parse_signed(s: Seq<char>, lo: int, hi: int) -> Option<int> {
    let neg = s.len() > 0 && s[0] == '-';
    let body = if s.len() > 0 && (s[0] == '-' || s[0] == '+') {
        s.drop_first()
    } else {
        s
    };
    if body.len() == 0 || !all_digits(body) {
        None
    } else {
        let v = if neg {
            -(digits_value(body) as int)
        } else {
            digits_value(body) as int
        };
        if lo <= v <= hi {
            Some(v)
        } else {
            None
        }
    }
}

/// What `str::parse` returns for an unsigned type whose maximum is `hi`: an
/// optional `+`, then at least one ASCII digit.
pub open spec fn parse_unsigned(s: Seq<char>, hi: int) -> Option<int> {
    let body = if s.len() > 0 && s[0] == '+' {
        s.drop_first()
    } else {
        s
    };
    if body.len() == 0 || !all_digits(body) || digits_value(body) > hi {
        None
    } else {
        Some(digits_value(body) as int)
    }
}

pub open spec fn i128_min() -> int {
    -0x8000_0000_0000_0000_0000_0000_0000_0000
}

pub open spec fn i128_max() -> int {
    0x7fff_ffff_ffff_ffff_ffff_ffff_ffff_ffff
}

proof fn lemma_digits_value_grows(s: Seq<char>, k: int)
    requires
        0 <= k <= s.len(),
        all_digits(s),
    ensures
        digits_value(s.take(k)) <= digits_value(s),
    decreases s.len() - k,
{
    if k < s.len() {
        lemma_digits_value_grows(s, k + 1);
        assert(s.take(k + 1).drop_last() =~= s.take(k));
        assert(is_digit(s[k]));
    } else {
        assert(s.take(k) =~= s);
    }
}

/// Whether every character from `start` on is an ASCII digit.
fn digits_from(s: &[char], start: usize) -> (b: bool)
    requires
        start <= s@.len(),
    ensures
        b == all_digits(s@.skip(start as int)),
{
    let mut k = start;
    while k < s.len()
        invariant
            start <= k <= s@.len(),
            forall|i: int| start <= i < k ==> is_digit(#[trigger] s@[i]),
        decreases s@.len() - k,
    {
        if !('0' <= s[k] && s[k] <= '9') {
            assert(!is_digit(s@.skip(start as int)[k - start]));
            return false;
        }
        k = k + 1;
    }
    assert forall|i: int| 0 <= i < s@.skip(start as int).len() implies is_digit(
        #[trigger] s@.skip(start as int)[i],
    ) by {
        assert(s@.skip(start as int)[i] == s@[start + i]);
    }
    true
}

/// The magnitude of a run of digits, or `None` once it passes `limit`.
fn digits_up_to(s: &[char], start: usize, limit: u128) -> (r: Option<u128>)
    requires
        start <= s@.len(),
        9 <= limit <= 0x8000_0000_0000_0000_0000_0000_0000_0000,
        all_digits(s@.skip(start as int)),
    ensures
        r matches Some(v) ==> v == digits_value(s@.skip(start as int)) && v <= limit,
        r is None ==> digits_value(s@.skip(start as int)) > limit,
{
    let ghost body = s@.skip(start as int);
    let mut m: u128 = 0;
    let mut k: usize = start;
    while k < s.len()
        invariant
            start <= k <= s@.len(),
            body == s@.skip(start as int),
            all_digits(body),
            9 <= limit <= 0x8000_0000_0000_0000_0000_0000_0000_0000,
            m == digits_value(body.take(k - start)),
            m <= limit,
        decreases s@.len() - k,
    {
        let ghost j = (k - start) as int;
        assert(body[j] == s@[k as int]);
        assert(is_digit(body[j]));
        let d = (s[k] as u32 - 48) as u128;
        assert(body.take(j + 1).drop_last() =~= body.take(j));
        if m > (limit - d) / 10 {
            proof {
                assert(m * 10 + d > limit) by (nonlinear_arith)
                    requires
                        m > (limit - d) / 10,
                        d <= 9,
                        d <= limit || limit < 9;
                lemma_digits_value_grows(body, j + 1);
            }
            return None;
        }
        assert(m * 10 + d <= limit) by (nonlinear_arith)
            requires
                m <= (limit - d) / 10,
                d <= limit;
        m = m * 10 + d;
        k = k + 1;
    }
    assert(body.take(body.len() as int) =~= body);
    Some(m)
}

/// Rust's `str::parse::<i128>`.
pub fn parse_i128(s: &[char]) -> (r: Option<i128>)
    ensures
        r matches Some(v) ==> parse_signed(s@, i128_min(), i128_max()) == Some(v as int),
        r is None ==> parse_signed(s@, i128_min(), i128_max()) is None,
{
    let neg = s.len() > 0 && s[0] == '-';
    let start: usize = if s.len() > 0 && (s[0] == '-' || s[0] == '+') {
        1
    } else {
        0
    };
    proof {
        if s@.len() > 0 && (s@[0] == '-' || s@[0] == '+') {
            assert(s@.skip(1) =~= s@.drop_first());
        } else {
            assert(s@.skip(0) =~= s@);
        }
    }
    if start == s.len() {
        return None;
    }
    if !digits_from(s, start) {
        return None;
    }
    let limit: u128 = if neg {
        0x8000_0000_0000_0000_0000_0000_0000_0000
    } else {
        0x7fff_ffff_ffff_ffff_ffff_ffff_ffff_ffff
    };
    match digits_up_to(s, start, limit) {
        None => None,
        Some(m) => {
            if neg {
                if m == 0x8000_0000_0000_0000_0000_0000_0000_0000 {
                    Some(i128::MIN)
                } else {
                    Some(-(m as i128))
                }
            } else {
                Some(m as i128)
            }
        },
    }
}

/// Rust's `str::parse::<i64>`.
pub fn parse_i64(s: &[char]) -> (r: Option<i64>)
    ensures
        r matches Some(v) ==> parse_signed(s@, i64::MIN as int, i64::MAX as int) == Some(v as int),
        r is None ==> parse_signed(s@, i64::MIN as int, i64::MAX as int) is None,
{
    match parse_i128(s) {
        Some(v) => {
            if i64::MIN as i128 <= v && v <= i64::MAX as i128 {
                Some(v as i64)
            } else {
                None
            }
        },
        None => None,
    }
}

/// Rust's `str::parse::<usize>` for a 64-bit `usize`, as JSON pointers read
/// an array index.
pub fn parse_index(s: &[char]) -> (r: Option<usize>)
    ensures
        r matches Some(v) ==> parse_unsigned(s@, usize::MAX as int) == Some(v as int),
        r is None ==> parse_unsigned(s@, usize::MAX as int) is None,
{
    let start: usize = if s.len() > 0 && s[0] == '+' {
        1
    } else {
        0
    };
    proof {
        if s@.len() > 0 && s@[0] == '+' {
            assert(s@.skip(1) =~= s@.drop_first());
        } else {
            assert(s@.skip(0) =~= s@);
        }
    }
    if start == s.len() {
        return None;
    }
    if !digits_from(s, start) {
        return None;
    }
    match digits_up_to(s, start, usize::MAX as u128) {
        None => None,
        Some(m) => Some(m as usize),
    }
}

} // verus!

verus! {

// ---------------------------------------------------------------------------
// Searching and replacing
// ---------------------------------------------------------------------------

/// `p` occurs in `s` starting at `i`.
pub open spec fn occurs_at<A>(s: Seq<A>, i: int, p: Seq<A>) -> bool {
    0 <= i && i + p.len() <= s.len() && s.subrange(i, i + p.len()) == p
}

pub open spec fn contains_seq<A>(s: Seq<A>, p: Seq<A>) -> bool {
    exists|i: int| occurs_at(s, i, p)
}

/// Every non-overlapping occurrence of `needle`, scanning left to right,
/// replaced by `with`. An empty needle replaces nothing.
pub open spec fn replaced<A>(hay: Seq<A>, needle: Seq<A>, with: Seq<A>) -> Seq<A>
    decreases hay.len(),
{
    if needle.len() == 0 || hay.len() == 0 {
        hay
    } else if occurs_at(hay, 0, needle) {
        with + replaced(hay.skip(needle.len() as int), needle, with)
    } else {
        seq![hay[0]] + replaced(hay.drop_first(), needle, with)
    }
}

/// Whether `p` occurs in `s` at `i`.
pub fn chars_at(s: &[char], i: usize, p: &[char]) -> (b: bool)
    ensures
        b == occurs_at(s@, i as int, p@),
{
    if i > s.len() || p.len() > s.len() - i {
        return false;
    }
    let mut k: usize = 0;
    while k < p.len()
        invariant
            i + p@.len() <= s@.len() <= usize::MAX,
            k <= p@.len(),
            forall|j: int| 0 <= j < k ==> s@[i + j] == p@[j],
        decreases p@.len() - k,
    {
        if s[i + k] != p[k] {
            assert(s@.subrange(i as int, i + p@.len())[k as int] != p@[k as int]);
            return false;
        }
        k = k + 1;
    }
    assert(s@.subrange(i as int, i + p@.len()) =~= p@);
    true
}

/// Whether `p` occurs in `s` at `i`.
pub fn bytes_at(s: &[u8], i: usize, p: &[u8]) -> (b: bool)
    ensures
        b == occurs_at(s@, i as int, p@),
{
    if i > s.len() || p.len() > s.len() - i {
        return false;
    }
    let mut k: usize = 0;
    while k < p.len()
        invariant
            i + p@.len() <= s@.len() <= usize::MAX,
            k <= p@.len(),
            forall|j: int| 0 <= j < k ==> s@[i + j] == p@[j],
        decreases p@.len() - k,
    {
        if s[i + k] != p[k] {
            assert(s@.subrange(i as int, i + p@.len())[k as int] != p@[k as int]);
            return false;
        }
        k = k + 1;
    }
    assert(s@.subrange(i as int, i + p@.len()) =~= p@);
    true
}

/// Whether `p` occurs anywhere in `s`.
pub fn contains_chars(s: &[char], p: &[char]) -> (b: bool)
    ensures
        b == contains_seq(s@, p@),
{
    if p.len() > s.len() {
        return false;
    }
    let last = s.len() - p.len();
    let mut i: usize = 0;
    while i <= last
        invariant
            last + p@.len() == s@.len(),
            i <= last + 1,
            forall|j: int| 0 <= j < i ==> !occurs_at(s@, j, p@),
        decreases last + 1 - i,
    {
        if chars_at(s, i, p) {
            return true;
        }
        if i == last {
            return false;
        }
        i = i + 1;
    }
    false
}

proof fn lemma_replaced_step<A>(hay: Seq<A>, i: int, needle: Seq<A>, with: Seq<A>)
    requires
        0 <= i < hay.len(),
        needle.len() > 0,
    ensures
        occurs_at(hay, i, needle) ==> replaced(hay.skip(i), needle, with) == with + replaced(
            hay.skip(i + needle.len()),
            needle,
            with,
        ),
        !occurs_at(hay, i, needle) ==> replaced(hay.skip(i), needle, with) == seq![hay[i]]
            + replaced(hay.skip(i + 1), needle, with),
{
    let t = hay.skip(i);
    assert(t.len() > 0);
    if occurs_at(hay, i, needle) {
        assert(t.subrange(0, needle.len() as int) =~= hay.subrange(i, i + needle.len()));
        assert(t.skip(needle.len() as int) =~= hay.skip(i + needle.len()));
    } else {
        if occurs_at(t, 0, needle) {
            assert(t.subrange(0, needle.len() as int) =~= hay.subrange(i, i + needle.len()));
        }
        assert(t.drop_first() =~= hay.skip(i + 1));
    }
}

/// Every non-overlapping occurrence of `needle` in `hay` replaced by `with`,
/// left to right; an empty needle leaves `hay` as it is.
pub fn replace_bytes(hay: &[u8], needle: &[u8], with: &[u8]) -> (out: Vec<u8>)
    ensures
        out@ == replaced(hay@, needle@, with@),
{
    if needle.len() == 0 {
        let mut out = Vec::new();
        out.extend_from_slice(hay);
        return out;
    }
    let mut out: Vec<u8> = Vec::new();
    let mut i: usize = 0;
    assert(hay@.skip(0) =~= hay@);
    while i < hay.len()
        invariant
            needle@.len() > 0,
            i <= hay@.len(),
            out@ + replaced(hay@.skip(i as int), needle@, with@) == replaced(hay@, needle@, with@),
        decreases hay@.len() - i,
    {
        proof {
            lemma_replaced_step(hay@, i as int, needle@, with@);
        }
        if bytes_at(hay, i, needle) {
            let ghost before = out@;
            out.extend_from_slice(with);
            assert(out@ + replaced(hay@.skip(i + needle@.len()), needle@, with@) =~= before + (with@
                + replaced(hay@.skip(i + needle@.len()), needle@, with@)));
            i = i + needle.len();
        } else {
            let ghost before = out@;
            out.push(hay[i]);
            assert(out@ + replaced(hay@.skip(i + 1), needle@, with@) =~= before + (seq![hay@[i as int]]
                + replaced(hay@.skip(i + 1), needle@, with@)));
            i = i + 1;
        }
    }
    assert(hay@.skip(i as int) =~= Seq::<u8>::empty());
    assert(out@ + Seq::<u8>::empty() =~= out@);
    out
}

/// [`replace_bytes`] over characters, as `str::replace` does for a non-empty
/// pattern.
pub fn replace_chars(hay: &[char], needle: &[char], with: &[char]) -> (out: Vec<char>)
    ensures
        out@ == replaced(hay@, needle@, with@),
{
    if needle.len() == 0 {
        let mut out = Vec::new();
        out.extend_from_slice(hay);
        return out;
    }
    let mut out: Vec<char> = Vec::new();
    let mut i: usize = 0;
    assert(hay@.skip(0) =~= hay@);
    while i < hay.len()
        invariant
            needle@.len() > 0,
            i <= hay@.len(),
            out@ + replaced(hay@.skip(i as int), needle@, with@) == replaced(hay@, needle@, with@),
        decreases hay@.len() - i,
    {
        proof {
            lemma_replaced_step(hay@, i as int, needle@, with@);
        }
        if chars_at(hay, i, needle) {
            let ghost before = out@;
            out.extend_from_slice(with);
            assert(out@ + replaced(hay@.skip(i + needle@.len()), needle@, with@) =~= before + (with@
                + replaced(hay@.skip(i + needle@.len()), needle@, with@)));
            i = i + needle.len();
        } else {
            let ghost before = out@;
            out.push(hay[i]);
            assert(out@ + replaced(hay@.skip(i + 1), needle@, with@) =~= before + (seq![hay@[i as int]]
                + replaced(hay@.skip(i + 1), needle@, with@)));
            i = i + 1;
        }
    }
    assert(hay@.skip(i as int) =~= Seq::<char>::empty());
    assert(out@ + Seq::<char>::empty() =~= out@);
    out
}

// ---------------------------------------------------------------------------
// Joining
// ---------------------------------------------------------------------------

/// `parts` with `sep` between each two, as `[T]::join` builds it.
pub open spec fn joined(parts: Seq<Seq<char>>, sep: Seq<char>) -> Seq<char>
    decreases parts.len(),
{
    if parts.len() == 0 {
        Seq::empty()
    } else if parts.len() == 1 {
        parts[0]
    } else {
        joined(parts.drop_last(), sep) + sep + parts.last()
    }
}

pub open spec fn views_of(v: Seq<Vec<char>>) -> Seq<Seq<char>> {
    v.map_values(|x: Vec<char>| x@)
}

/// The parts, joined by `sep`.
pub fn join_chars(parts: &Vec<Vec<char>>, sep: &[char]) -> (out: Vec<char>)
    ensures
        out@ == joined(views_of(parts@), sep@),
{
    let mut out: Vec<char> = Vec::new();
    let mut i: usize = 0;
    while i < parts.len()
        invariant
            i <= parts@.len(),
            out@ == joined(views_of(parts@).take(i as int), sep@),
        decreases parts@.len() - i,
    {
        let ghost before = views_of(parts@).take(i as int);
        assert(views_of(parts@).take(i + 1).drop_last() =~= before);
        if i > 0 {
            out.extend_from_slice(sep);
        }
        out.extend_from_slice(parts[i].as_slice());
        assert(views_of(parts@).take(i + 1).last() == parts@[i as int]@);
        proof {
            if i == 0 {
                assert(out@ =~= views_of(parts@).take(1)[0]);
            }
        }
        i = i + 1;
    }
    assert(views_of(parts@).take(parts@.len() as int) =~= views_of(parts@));
    out
}

// ---------------------------------------------------------------------------
// Byte lengths
// ---------------------------------------------------------------------------

/// How many bytes UTF-8 spends on `c`.
pub open spec fn utf8_width(c: char) -> nat {
    let u = c as u32;
    if u < 0x80 {
        1
    } else if u < 0x800 {
        2
    } else if u < 0x10000 {
        3
    } else {
        4
    }
}

/// The UTF-8 length of `s`, which is what `str::len` counts.
pub open spec fn utf8_len(s: Seq<char>) -> nat
    decreases s.len(),
{
    if s.len() == 0 {
        0
    } else {
        utf8_len(s.drop_last()) + utf8_width(s.last())
    }
}

/// Some prefix of `s` is exactly `n` bytes long, so `&s[..n]` does not
/// panic.
pub open spec fn has_byte_prefix(s: Seq<char>, n: int) -> bool {
    exists|k: int| 0 <= k <= s.len() && #[trigger] utf8_len(s.take(k)) == n
}

pub proof fn lemma_utf8_len_take_grows(s: Seq<char>, j: int, k: int)
    requires
        0 <= j <= k <= s.len(),
    ensures
        utf8_len(s.take(j)) + (k - j) <= utf8_len(s.take(k)),
    decreases k - j,
{
    if j < k {
        lemma_utf8_len_take_grows(s, j, k - 1);
        assert(s.take(k).drop_last() =~= s.take(k - 1));
    }
}

pub fn char_width(c: char) -> (w: usize)
    ensures
        w == utf8_width(c),
{
    let u = c as u32;
    if u < 0x80 {
        1
    } else if u < 0x800 {
        2
    } else if u < 0x10000 {
        3
    } else {
        4
    }
}

/// The characters that make up the first `n` bytes of `s`, which is what
/// `&s[..n]` holds when it does not panic.
pub open spec fn byte_prefix_of(s: Seq<char>, n: int) -> Seq<char> {
    s.take(choose|k: int| 0 <= k <= s.len() && #[trigger] utf8_len(s.take(k)) == n)
}

proof fn lemma_byte_prefix_unique(s: Seq<char>, n: int, k: int)
    requires
        0 <= k <= s.len(),
        utf8_len(s.take(k)) == n,
    ensures
        byte_prefix_of(s, n) == s.take(k),
{
    let c = choose|k: int| 0 <= k <= s.len() && #[trigger] utf8_len(s.take(k)) == n;
    if c < k {
        lemma_utf8_len_take_grows(s, c, k);
    } else if k < c {
        lemma_utf8_len_take_grows(s, k, c);
    }
}

/// The characters that make up the first `n` bytes of `s` (`&s[..n]`).
/// Whether some prefix of `s` is exactly `n` bytes long.
pub fn has_byte_prefix_exec(s: &[char], n: usize) -> (b: bool)
    ensures
        b == has_byte_prefix(s@, n as int),
{
    let ghost l = s@;
    let mut bytes: usize = 0;
    let mut i: usize = 0;
    assert(l.take(0) =~= Seq::<char>::empty());
    loop
        invariant
            i <= l.len(),
            l == s@,
            bytes == utf8_len(l.take(i as int)),
            bytes <= n,
        decreases l.len() - i,
    {
        if bytes == n {
            return true;
        }
        if i == s.len() {
            proof {
                assert forall|k: int| 0 <= k <= l.len() implies #[trigger] utf8_len(l.take(k)) != n by {
                    lemma_utf8_len_take_grows(l, k, i as int);
                }
            }
            return false;
        }
        assert(l.take(i + 1).drop_last() =~= l.take(i as int));
        assert(l.take(i + 1).last() == l[i as int]);
        let w = char_width(s[i]);
        if w > n - bytes {
            proof {
                assert forall|k: int| 0 <= k <= l.len() implies #[trigger] utf8_len(l.take(k)) != n by {
                    if k <= i {
                        lemma_utf8_len_take_grows(l, k, i as int);
                    } else {
                        lemma_utf8_len_take_grows(l, i + 1, k);
                    }
                }
            }
            return false;
        }
        bytes = bytes + w;
        i = i + 1;
    }
}

pub fn byte_prefix(s: &[char], n: usize) -> (r: Vec<char>)
    requires
        has_byte_prefix(s@, n as int),
    ensures
        r@ == byte_prefix_of(s@, n as int),
        utf8_len(r@) == n,
{
    let ghost kk = choose|k: int| 0 <= k <= s@.len() && #[trigger] utf8_len(s@.take(k)) == n;
    let mut r: Vec<char> = Vec::new();
    let mut used: usize = 0;
    let mut k: usize = 0;
    assert(s@.take(0) =~= Seq::<char>::empty());
    while used < n
        invariant
            0 <= kk <= s@.len(),
            utf8_len(s@.take(kk)) == n,
            k <= s@.len(),
            used == utf8_len(s@.take(k as int)),
            used <= n,
            k <= kk,
            r@ == s@.take(k as int),
        decreases n - used,
    {
        proof {
            if k == kk {
                assert(false);
            }
            lemma_utf8_len_take_grows(s@, k as int, kk);
            assert(s@.take(k + 1).drop_last() =~= s@.take(k as int));
            lemma_utf8_len_take_grows(s@, k + 1, kk);
        }
        used = used + char_width(s[k]);
        r.push(s[k]);
        assert(r@ =~= s@.take(k + 1));
        k = k + 1;
        proof {
            if k > kk {
                lemma_utf8_len_take_grows(s@, kk, k as int);
            }
            if k <= kk {
                lemma_utf8_len_take_grows(s@, k as int, kk);
            }
        }
    }
    proof {
        lemma_byte_prefix_unique(s@, n as int, k as int);
    }
    r
}

} // verus!

verus! {

/// Whether two character sequences are the same.
pub fn chars_eq(a: &[char], b: &[char]) -> (r: bool)
    ensures
        r == (a@ == b@),
{
    if a.len() != b.len() {
        return false;
    }
    let mut i: usize = 0;
    while i < a.len()
        invariant
            a@.len() == b@.len(),
            i <= a@.len(),
            forall|j: int| 0 <= j < i ==> a@[j] == b@[j],
        decreases a@.len() - i,
    {
        if a[i] != b[i] {
            return false;
        }
        i = i + 1;
    }
    assert(a@ =~= b@);
    true
}

/// Whether two strings hold the same characters.
pub fn str_eq(a: &str, b: &str) -> (r: bool)
    ensures
        r == (a@ == b@),
{
    let x = chars_of(a);
    let y = chars_of(b);
    chars_eq(x.as_slice(), y.as_slice())
}

} // verus!

verus! {

// ---------------------------------------------------------------------------
// Lines
// ---------------------------------------------------------------------------

/// The characters before the first `\n`, or all of them when there is none:
/// the first item `str::lines` yields, up to a trailing `\r` that trimming
/// removes anyway.
pub open spec fn before_newline(s: Seq<char>) -> Seq<char>
    decreases s.len(),
{
    if s.len() == 0 {
        s
    } else if s[0] == '\n' {
        Seq::empty()
    } else {
        seq![s[0]] + before_newline(s.drop_first())
    }
}

/// The characters of `s` up to its first `\n`.
pub fn first_line_chars(s: &[char]) -> (r: Vec<char>)
    ensures
        r@ == before_newline(s@),
{
    let mut r: Vec<char> = Vec::new();
    let mut i: usize = 0;
    assert(s@.skip(0) =~= s@);
    while i < s.len() && s[i] != '\n'
        invariant
            i <= s@.len(),
            r@ == s@.take(i as int),
            before_newline(s@) == r@ + before_newline(s@.skip(i as int)),
        decreases s@.len() - i,
    {
        let ghost rest = s@.skip(i as int);
        assert(rest.drop_first() =~= s@.skip(i + 1));
        assert(r@ + (seq![s@[i as int]] + before_newline(s@.skip(i + 1))) =~= r@.push(s@[i as int])
            + before_newline(s@.skip(i + 1)));
        r.push(s[i]);
        assert(r@ =~= s@.take(i + 1));
        i = i + 1;
    }
    assert(before_newline(s@.skip(i as int)) =~= Seq::<char>::empty());
    assert(r@ + Seq::<char>::empty() =~= r@);
    r
}

// ---------------------------------------------------------------------------
// Quoting, as `{:?}` quotes a string
// ---------------------------------------------------------------------------

pub open spec fn hex_digit(d: int) -> char {
    if d < 10 {
        digit_char(d)
    } else {
        ((d - 10 + 97) as u8) as char
    }
}

/// How `{:?}` writes one character of a string: the named escapes, an ASCII
/// control character as `\u{..}` in lower-case hex, anything else as itself.
pub open spec fn escape_debug_char(c: char) -> Seq<char> {
    if c == '"' {
        seq!['\\', '"']
    } else if c == '\\' {
        seq!['\\', '\\']
    } else if c == '\n' {
        seq!['\\', 'n']
    } else if c == '\r' {
        seq!['\\', 'r']
    } else if c == '\t' {
        seq!['\\', 't']
    } else if c == '\0' {
        seq!['\\', '0']
    } else if (c as u32) < 0x20 || c as u32 == 0x7f {
        let u = c as u32 as int;
        if u < 16 {
            seq!['\\', 'u', '{', hex_digit(u), '}']
        } else {
            seq!['\\', 'u', '{', hex_digit(u / 16), hex_digit(u % 16), '}']
        }
    } else {
        seq![c]
    }
}

pub open spec fn escaped_debug(s: Seq<char>) -> Seq<char>
    decreases s.len(),
{
    if s.len() == 0 {
        Seq::empty()
    } else {
        escaped_debug(s.drop_last()) + escape_debug_char(s.last())
    }
}

/// `s` as `{:?}` prints it, within double quotes.
pub open spec fn debug_quoted(s: Seq<char>) -> Seq<char> {
    seq!['"'] + escaped_debug(s) + seq!['"']
}

fn hex_char(d: u32) -> (c: char)
    requires
        d < 16,
    ensures
        c == hex_digit(d as int),
{
    if d < 10 {
        ((d as u8) + 48u8) as char
    } else {
        ((d as u8) - 10u8 + 97u8) as char
    }
}

fn push_escape_debug(out: &mut Vec<char>, c: char)
    ensures
        final(out)@ == old(out)@ + escape_debug_char(c),
{
    let ghost before = out@;
    let u = c as u32;
    if c == '"' {
        out.push('\\');
        out.push('"');
    } else if c == '\\' {
        out.push('\\');
        out.push('\\');
    } else if c == '\n' {
        out.push('\\');
        out.push('n');
    } else if c == '\r' {
        out.push('\\');
        out.push('r');
    } else if c == '\t' {
        out.push('\\');
        out.push('t');
    } else if c == '\0' {
        out.push('\\');
        out.push('0');
    } else if u < 0x20 || u == 0x7f {
        out.push('\\');
        out.push('u');
        out.push('{');
        if u >= 16 {
            out.push(hex_char(u / 16));
        }
        out.push(hex_char(u % 16));
        out.push('}');
    } else {
        out.push(c);
    }
    assert(out@ =~= before + escape_debug_char(c));
}

/// `s` quoted as `{:?}` quotes it.
pub fn quote_debug(s: &[char]) -> (r: Vec<char>)
    ensures
        r@ == debug_quoted(s@),
{
    let mut r: Vec<char> = Vec::new();
    r.push('"');
    let mut i: usize = 0;
    while i < s.len()
        invariant
            i <= s@.len(),
            r@ == seq!['"'] + escaped_debug(s@.take(i as int)),
        decreases s@.len() - i,
    {
        assert(s@.take(i + 1).drop_last() =~= s@.take(i as int));
        push_escape_debug(&mut r, s[i]);
        i = i + 1;
    }
    assert(s@.take(s@.len() as int) =~= s@);
    r.push('"');
    assert(r@ =~= debug_quoted(s@));
    r
}

} // verus!

verus! {

/// Appends the characters of `s`.
pub fn push_str(out: &mut Vec<char>, s: &str)
    ensures
        final(out)@ == old(out)@ + s@,
{
    let c = chars_of(s);
    out.extend_from_slice(c.as_slice());
}

/// The parts, one after another.
pub open spec fn concat(parts: Seq<Seq<char>>) -> Seq<char>
    decreases parts.len(),
{
    if parts.len() == 0 {
        Seq::empty()
    } else {
        concat(parts.drop_last()) + parts.last()
    }
}

/// `s` with every leading `c` removed (`str::trim_start_matches` with a
/// `char`).
pub open spec fn strip_leading(s: Seq<char>, c: char) -> Seq<char>
    decreases s.len(),
{
    if s.len() > 0 && s[0] == c {
        strip_leading(s.drop_first(), c)
    } else {
        s
    }
}

pub fn strip_leading_chars(s: &[char], c: char) -> (r: Vec<char>)
    ensures
        r@ == strip_leading(s@, c),
{
    let mut i: usize = 0;
    assert(s@.skip(0) =~= s@);
    while i < s.len() && s[i] == c
        invariant
            i <= s@.len(),
            strip_leading(s@, c) == strip_leading(s@.skip(i as int), c),
        decreases s@.len() - i,
    {
        assert(s@.skip(i as int).drop_first() =~= s@.skip(i + 1));
        i = i + 1;
    }
    let mut r: Vec<char> = Vec::new();
    let mut k = i;
    while k < s.len()
        invariant
            i <= k <= s@.len(),
            r@ == s@.subrange(i as int, k as int),
        decreases s@.len() - k,
    {
        r.push(s[k]);
        assert(r@ =~= s@.subrange(i as int, k + 1));
        k = k + 1;
    }
    assert(r@ =~= s@.skip(i as int));
    r
}

} // verus!

verus! {

pub proof fn lemma_concat_step(f: spec_fn(int) -> Seq<char>, k: nat)
    ensures
        concat(Seq::new(k + 1, f)) == concat(Seq::new(k, f)) + f(k as int),
{
    assert(Seq::new(k + 1, f).drop_last() =~= Seq::new(k, f));
}

} // verus!

verus! {

// ---------------------------------------------------------------------------
// Splitting
// ---------------------------------------------------------------------------

/// The pieces of `s` between occurrences of `sep`, as `str::split` with a
/// character yields them: one more piece than there are separators.
pub open spec fn split_on(s: Seq<char>, sep: char) -> Seq<Seq<char>>
    decreases s.len(),
{
    if s.len() == 0 {
        seq![Seq::empty()]
    } else {
        let r = split_on(s.drop_last(), sep);
        if s.last() == sep {
            r.push(Seq::empty())
        } else {
            r.update(r.len() - 1, r.last().push(s.last()))
        }
    }
}

pub proof fn lemma_split_on_nonempty(s: Seq<char>, sep: char)
    ensures
        split_on(s, sep).len() >= 1,
    decreases s.len(),
{
    if s.len() > 0 {
        lemma_split_on_nonempty(s.drop_last(), sep);
    }
}

/// `s` split at every `sep`.
pub fn split_chars(s: &[char], sep: char) -> (r: Vec<Vec<char>>)
    ensures
        views_of(r@) == split_on(s@, sep),
{
    let mut r: Vec<Vec<char>> = Vec::new();
    r.push(Vec::new());
    let mut i: usize = 0;
    assert(s@.take(0) =~= Seq::<char>::empty());
    assert(views_of(r@) =~= split_on(s@.take(0), sep));
    while i < s.len()
        invariant
            i <= s@.len(),
            r@.len() >= 1,
            views_of(r@) == split_on(s@.take(i as int), sep),
        decreases s@.len() - i,
    {
        let ghost before = views_of(r@);
        assert(s@.take(i + 1).drop_last() =~= s@.take(i as int));
        assert(s@.take(i + 1).last() == s@[i as int]);
        if s[i] == sep {
            r.push(Vec::new());
            assert(views_of(r@) =~= before.push(Seq::empty()));
        } else {
            let last = r.len() - 1;
            let mut piece = r.pop().unwrap();
            piece.push(s[i]);
            r.push(piece);
            assert(views_of(r@) =~= before.update(last as int, before.last().push(s@[i as int])));
        }
        i = i + 1;
    }
    assert(s@.take(s@.len() as int) =~= s@);
    r
}

} // verus!

verus! {

/// The characters of `s` from position `k` on.
pub fn slice_from(s: &[char], k: usize) -> (r: Vec<char>)
    requires
        k <= s@.len(),
    ensures
        r@ == s@.skip(k as int),
{
    let mut r: Vec<char> = Vec::new();
    let mut i: usize = k;
    while i < s.len()
        invariant
            k <= i <= s@.len(),
            r@ == s@.subrange(k as int, i as int),
        decreases s@.len() - i,
    {
        r.push(s[i]);
        assert(s@.subrange(k as int, i + 1) =~= s@.subrange(k as int, i as int).push(s@[i as int]));
        i = i + 1;
    }
    assert(s@.subrange(k as int, s@.len() as int) =~= s@.skip(k as int));
    r
}

/// The characters of `s` before position `k`.
pub fn slice_to(s: &[char], k: usize) -> (r: Vec<char>)
    requires
        k <= s@.len(),
    ensures
        r@ == s@.take(k as int),
{
    let mut r: Vec<char> = Vec::new();
    let mut i: usize = 0;
    while i < k
        invariant
            i <= k <= s@.len(),
            r@ == s@.take(i as int),
        decreases k - i,
    {
        r.push(s[i]);
        assert(s@.take(i + 1) =~= s@.take(i as int).push(s@[i as int]));
        i = i + 1;
    }
    r
}

} // verus!

//! Character-level helpers shared by the parsers and formatters.
//!
//! Strings are handled as sequences of `char` (the view of `str` and
//! `String`); each helper states its result over that view.

use vstd::prelude::*;
use vstd::string::*;

verus! {

/// `char::is_whitespace`: the Unicode `White_Space` property.
pub open spec fn is_ws(c: char) -> bool {
    ||| ('\u{9}' <= c && c <= '\u{d}')
    ||| c == ' '
    ||| c == '\u{85}'
    ||| c == '\u{a0}'
    ||| c == '\u{1680}'
    ||| ('\u{2000}' <= c && c <= '\u{200a}')
    ||| c == '\u{2028}'
    ||| c == '\u{2029}'
    ||| c == '\u{202f}'
    ||| c == '\u{205f}'
    ||| c == '\u{3000}'
}

/// `char::is_ascii_whitespace`: space, tab, line feed, form feed, carriage return.
pub open spec fn is_ascii_ws(c: char) -> bool {
    c == ' ' || c == '\t' || c == '\n' || c == '\u{c}' || c == '\r'
}

pub open spec fn is_ascii_digit(c: char) -> bool {
    '0' <= c && c <= '9'
}

pub open spec fn is_ascii_upper(c: char) -> bool {
    'A' <= c && c <= 'Z'
}

pub open spec fn is_ascii_lower(c: char) -> bool {
    'a' <= c && c <= 'z'
}

pub open spec fn is_ascii_alnum(c: char) -> bool {
    is_ascii_digit(c) || is_ascii_upper(c) || is_ascii_lower(c)
}

/// `char::to_ascii_lowercase`.
pub open spec fn lower_char(c: char) -> char {
    if is_ascii_upper(c) {
        ((c as u32) + 32) as char
    } else {
        c
    }
}

/// `str::to_ascii_lowercase` (and `str::to_lowercase` on ASCII text).
pub open spec fn lower_seq(s: Seq<char>) -> Seq<char> {
    s.map_values(|c: char| lower_char(c))
}

/// `str::eq_ignore_ascii_case`.
pub open spec fn eq_ignore_case(a: Seq<char>, b: Seq<char>) -> bool {
    lower_seq(a) == lower_seq(b)
}

/// Number of leading characters of `s` that satisfy `is_ws`.
pub open spec fn lead_ws(s: Seq<char>) -> nat
    decreases s.len(),
{
    if s.len() > 0 && is_ws(s[0]) {
        1 + lead_ws(s.drop_first())
    } else {
        0
    }
}

/// `str::trim_start`.
pub open spec fn trim_start(s: Seq<char>) -> Seq<char> {
    s.skip(lead_ws(s) as int)
}

/// `str::trim_end`.
pub open spec fn trim_end(s: Seq<char>) -> Seq<char>
    decreases s.len(),
{
    if s.len() > 0 && is_ws(s.last()) {
        trim_end(s.drop_last())
    } else {
        s
    }
}

/// `str::trim`.
pub open spec fn trim(s: Seq<char>) -> Seq<char> {
    trim_end(trim_start(s))
}

/// `str::starts_with` for a string pattern.
pub open spec fn starts_with(s: Seq<char>, p: Seq<char>) -> bool {
    p.len() <= s.len() && s.take(p.len() as int) == p
}

/// `str::ends_with` for a string pattern.
pub open spec fn ends_with(s: Seq<char>, p: Seq<char>) -> bool {
    p.len() <= s.len() && s.skip(s.len() - p.len()) == p
}

/// `str::contains` for a string pattern.
pub open spec fn contains_seq(s: Seq<char>, p: Seq<char>) -> bool {
    exists|i: int| 0 <= i <= s.len() - p.len() && #[trigger] s.subrange(i, i + p.len()) == p
}

/// The characters of `s`.
pub fn chars_of(s: &str) -> (v: Vec<char>)
    ensures
        v@ == s@,
{
    let n = s.unicode_len();
    let mut v: Vec<char> = Vec::new();
    for i in 0..n
        invariant
            n == s@.len(),
            v@ == s@.take(i as int),
    {
        let c = s.get_char(i);
        v.push(c);
        assert(s@.take(i + 1) =~= s@.take(i as int).push(c));
    }
    assert(s@.take(n as int) =~= s@);
    v
}

/// Appends one character to a `String` (`String::push`).
#[verifier::external_body]
pub(crate) fn push_char(s: &mut String, c: char)
    ensures
        final(s)@ == old(s)@.push(c),
{
    s.push(c);
}

/// A `String` holding the characters of `v` in order.
pub fn string_of(v: &[char]) -> (s: String)
    ensures
        s@ == v@,
{
    let mut s = String::new();
    let n = v.len();
    for i in 0..n
        invariant
            n == v@.len(),
            s@ == v@.take(i as int),
    {
        push_char(&mut s, v[i]);
        assert(v@.take(i + 1) =~= v@.take(i as int).push(v@[i as int]));
    }
    assert(v@.take(n as int) =~= v@);
    s
}

/// A `String` holding the characters of `s`.
pub fn owned(s: &str) -> (r: String)
    ensures
        r@ == s@,
{
    s.to_owned()
}

pub fn char_is_ws(c: char) -> (b: bool)
    ensures
        b == is_ws(c),
{
    ('\u{9}' <= c && c <= '\u{d}') || c == ' ' || c == '\u{85}' || c == '\u{a0}'
        || c == '\u{1680}' || ('\u{2000}' <= c && c <= '\u{200a}') || c == '\u{2028}'
        || c == '\u{2029}' || c == '\u{202f}' || c == '\u{205f}' || c == '\u{3000}'
}

pub fn char_is_ascii_ws(c: char) -> (b: bool)
    ensures
        b == is_ascii_ws(c),
{
    c == ' ' || c == '\t' || c == '\n' || c == '\u{c}' || c == '\r'
}

pub fn char_is_digit(c: char) -> (b: bool)
    ensures
        b == is_ascii_digit(c),
{
    '0' <= c && c <= '9'
}

pub fn char_is_alnum(c: char) -> (b: bool)
    ensures
        b == is_ascii_alnum(c),
{
    ('0' <= c && c <= '9') || ('A' <= c && c <= 'Z') || ('a' <= c && c <= 'z')
}

pub fn char_lower(c: char) -> (r: char)
    ensures
        r == lower_char(c),
{
    if 'A' <= c && c <= 'Z' {
        let u: u32 = c as u32;
        let l: u8 = (u + 32) as u8;
        assert((u + 32) as u8 == (u + 32)) by {
            assert(u + 32 <= 122);
        }
        l as char
    } else {
        c
    }
}


/// Index of the first character of `s` that satisfies `sep`, or `s.len()`.
pub open spec fn find_first(s: Seq<char>, sep: spec_fn(char) -> bool) -> int
    decreases s.len(),
{
    if s.len() == 0 {
        0
    } else if sep(s[0]) {
        0
    } else {
        1 + find_first(s.drop_first(), sep)
    }
}

/// `s` cut at every character that satisfies `sep` (`str::split` with a
/// character predicate; empty pieces are kept).
pub open spec fn split_by(s: Seq<char>, sep: spec_fn(char) -> bool) -> Seq<Seq<char>>
    decreases s.len(),
{
    let e = find_first(s, sep);
    if 0 <= e < s.len() {
        seq![s.take(e)] + split_by(s.skip(e + 1), sep)
    } else {
        seq![s]
    }
}

/// The non-empty pieces of `ts`, in order.
pub open spec fn non_empty(ts: Seq<Seq<char>>) -> Seq<Seq<char>>
    decreases ts.len(),
{
    if ts.len() == 0 {
        ts
    } else if ts[0].len() > 0 {
        seq![ts[0]] + non_empty(ts.skip(1))
    } else {
        non_empty(ts.skip(1))
    }
}

/// `str::split_whitespace`.
pub open spec fn words(s: Seq<char>) -> Seq<Seq<char>> {
    non_empty(split_by(s, class_fn(CharClass::Whitespace)))
}

/// `str::lines` without the line ends (a last empty line may stay).
pub open spec fn lines(s: Seq<char>) -> Seq<Seq<char>> {
    split_by(s, class_fn(CharClass::Newline))
}

/// Characters that the parsers look for.
#[derive(Clone, Copy, PartialEq, Eq, Structural)]
pub enum CharClass {
    Newline,
    Whitespace,
    AsciiWsOrComma,
    At,
    LowerX,
    Colon,
    Dot,
    OpenBracket,
    CloseBracket,
    CarriageReturn,
    Slash,
}

pub open spec fn class_fn(k: CharClass) -> spec_fn(char) -> bool {
    match k {
        CharClass::Newline => |c: char| c == '\n',
        CharClass::Whitespace => |c: char| is_ws(c),
        CharClass::AsciiWsOrComma => |c: char| is_ascii_ws(c) || c == ',',
        CharClass::At => |c: char| c == '@',
        CharClass::LowerX => |c: char| c == 'x',
        CharClass::Colon => |c: char| c == ':',
        CharClass::Dot => |c: char| c == '.',
        CharClass::OpenBracket => |c: char| c == '[',
        CharClass::CloseBracket => |c: char| c == ']',
        CharClass::CarriageReturn => |c: char| c == '\r',
        CharClass::Slash => |c: char| c == '/',
    }
}

pub fn in_class(k: &CharClass, c: char) -> (b: bool)
    ensures
        b == class_fn(*k)(c),
{
    match k {
        CharClass::Newline => c == '\n',
        CharClass::Whitespace => char_is_ws(c),
        CharClass::AsciiWsOrComma => char_is_ascii_ws(c) || c == ',',
        CharClass::At => c == '@',
        CharClass::LowerX => c == 'x',
        CharClass::Colon => c == ':',
        CharClass::Dot => c == '.',
        CharClass::OpenBracket => c == '[',
        CharClass::CloseBracket => c == ']',
        CharClass::CarriageReturn => c == '\r',
        CharClass::Slash => c == '/',
    }
}

pub proof fn lemma_find_first_bounds(s: Seq<char>, sep: spec_fn(char) -> bool)
    ensures
        0 <= find_first(s, sep) <= s.len(),
        find_first(s, sep) < s.len() ==> sep(s[find_first(s, sep)]),
        forall|j: int| 0 <= j < find_first(s, sep) ==> !sep(#[trigger] s[j]),
    decreases s.len(),
{
    if s.len() > 0 && !sep(s[0]) {
        lemma_find_first_bounds(s.drop_first(), sep);
        assert forall|j: int| 0 <= j < find_first(s, sep) implies !sep(#[trigger] s[j]) by {
            if j > 0 {
                assert(s[j] == s.drop_first()[j - 1]);
            }
        }
    }
}

pub proof fn lemma_find_first_is(s: Seq<char>, sep: spec_fn(char) -> bool, e: int)
    requires
        0 <= e <= s.len(),
        forall|j: int| 0 <= j < e ==> !sep(#[trigger] s[j]),
        e < s.len() ==> sep(s[e]),
    ensures
        find_first(s, sep) == e,
    decreases e,
{
    if e > 0 {
        assert(!sep(s[0]));
        assert forall|j: int| 0 <= j < e - 1 implies !sep(#[trigger] s.drop_first()[j]) by {
            assert(s.drop_first()[j] == s[j + 1]);
        }
        lemma_find_first_is(s.drop_first(), sep, e - 1);
    }
}

/// The first index in `start..end` whose character is in class `k`, or `end`.
pub fn find_char(v: &Vec<char>, start: usize, end: usize, k: CharClass) -> (e: usize)
    requires
        start <= end <= v@.len(),
    ensures
        start <= e <= end,
        e - start == find_first(v@.subrange(start as int, end as int), class_fn(k)),
        e < end ==> class_fn(k)(v@[e as int]),
{
    let mut e = start;
    while e < end && !in_class(&k, v[e])
        invariant
            start <= e <= end <= v@.len(),
            forall|j: int| start <= j < e ==> !class_fn(k)(#[trigger] v@[j]),
        decreases end - e,
    {
        e = e + 1;
    }
    proof {
        let s = v@.subrange(start as int, end as int);
        assert forall|j: int| 0 <= j < e - start implies !class_fn(k)(#[trigger] s[j]) by {
            assert(s[j] == v@[start + j]);
        }
        lemma_find_first_is(s, class_fn(k), e - start);
    }
    e
}

/// One step of `split_by` on a range: the piece up to the first separator
/// `e` and the rest after it.
pub proof fn lemma_split_step(v: Seq<char>, start: int, e: int, end: int, sep: spec_fn(char) -> bool)
    requires
        0 <= start <= e <= end <= v.len(),
        e - start == find_first(v.subrange(start, end), sep),
    ensures
        e < end ==> split_by(v.subrange(start, end), sep) == seq![v.subrange(start, e)] + split_by(
            v.subrange(e + 1, end),
            sep,
        ),
        e == end ==> split_by(v.subrange(start, end), sep) == seq![v.subrange(start, end)],
{
    let s = v.subrange(start, end);
    assert(s.take(e - start) =~= v.subrange(start, e));
    if e < end {
        assert(s.skip(e - start + 1) =~= v.subrange(e + 1, end));
    }
}

/// The positions of `trim` of the range `start..end`.
pub fn trim_range(v: &Vec<char>, start: usize, end: usize) -> (r: (usize, usize))
    requires
        start <= end <= v@.len(),
    ensures
        start <= r.0 <= r.1 <= end,
        v@.subrange(r.0 as int, r.1 as int) == trim(v@.subrange(start as int, end as int)),
{
    let mut a = start;
    while a < end && char_is_ws(v[a])
        invariant
            start <= a <= end <= v@.len(),
            forall|j: int| start <= j < a ==> is_ws(#[trigger] v@[j]),
        decreases end - a,
    {
        a = a + 1;
    }
    let mut b = end;
    while b > a && char_is_ws(v[b - 1])
        invariant
            start <= a <= b <= end <= v@.len(),
            forall|j: int| b <= j < end ==> is_ws(#[trigger] v@[j]),
        decreases b - a,
    {
        b = b - 1;
    }
    proof {
        let s = v@.subrange(start as int, end as int);
        lemma_lead_ws(s, a - start);
        let u = s.skip(a - start);
        assert(u =~= v@.subrange(a as int, end as int));
        lemma_trim_end(u, b - a);
        assert(u.take(b - a) =~= v@.subrange(a as int, b as int));
    }
    (a, b)
}

proof fn lemma_lead_ws(s: Seq<char>, k: int)
    requires
        0 <= k <= s.len(),
        forall|j: int| 0 <= j < k ==> is_ws(#[trigger] s[j]),
        k == s.len() || !is_ws(s[k]),
    ensures
        lead_ws(s) == k,
    decreases k,
{
    if k > 0 {
        assert(is_ws(s[0]));
        assert forall|j: int| 0 <= j < k - 1 implies is_ws(#[trigger] s.drop_first()[j]) by {
            assert(s.drop_first()[j] == s[j + 1]);
        }
        lemma_lead_ws(s.drop_first(), k - 1);
    }
}

proof fn lemma_trim_end(s: Seq<char>, m: int)
    requires
        0 <= m <= s.len(),
        forall|j: int| m <= j < s.len() ==> is_ws(#[trigger] s[j]),
        m == 0 || !is_ws(s[m - 1]),
    ensures
        trim_end(s) == s.take(m),
    decreases s.len(),
{
    if s.len() > m {
        assert(is_ws(s[s.len() - 1]));
        lemma_trim_end(s.drop_last(), m);
        assert(s.drop_last().take(m) =~= s.take(m));
    } else {
        assert(s.take(m) =~= s);
        if s.len() > 0 {
            assert(s.last() == s[m - 1]);
        }
    }
}

/// `starts_with` on the range `start..end`.
pub fn range_starts_with(v: &Vec<char>, start: usize, end: usize, p: &Vec<char>) -> (b: bool)
    requires
        start <= end <= v@.len(),
    ensures
        b == starts_with(v@.subrange(start as int, end as int), p@),
{
    let ghost s = v@.subrange(start as int, end as int);
    if p.len() > end - start {
        return false;
    }
    let m = p.len();
    let mut i: usize = 0;
    while i < m
        invariant
            i <= m == p@.len(),
            start + m <= end <= v@.len(),
            s == v@.subrange(start as int, end as int),
            forall|j: int| 0 <= j < i ==> v@[start + j] == p@[j],
        decreases m - i,
    {
        if v[start + i] != p[i] {
            assert(s.take(m as int)[i as int] != p@[i as int]);
            return false;
        }
        i = i + 1;
    }
    assert(s.take(m as int) =~= p@);
    true
}

/// `p` occurs in `v` at position `i`.
pub open spec fn occurs_at(v: Seq<char>, i: int, p: Seq<char>) -> bool {
    forall|j: int| 0 <= j < p.len() ==> v[i + j] == #[trigger] p[j]
}

/// `contains_seq` on the range `start..end`.
pub fn range_contains(v: &Vec<char>, start: usize, end: usize, p: &Vec<char>) -> (b: bool)
    requires
        start <= end <= v@.len(),
    ensures
        b == contains_seq(v@.subrange(start as int, end as int), p@),
{
    let ghost s = v@.subrange(start as int, end as int);
    let m = p.len();
    if m > end - start {
        return false;
    }
    let last = end - m;
    let mut i = start;
    while i <= last
        invariant
            start <= i <= last + 1,
            last + m == end <= v@.len(),
            m == p@.len(),
            s == v@.subrange(start as int, end as int),
            forall|k: int| start <= k < i ==> !occurs_at(v@, k, p@),
        decreases last + 1 - i,
    {
        let mut j: usize = 0;
        let mut ok = true;
        while j < m
            invariant
                j <= m == p@.len(),
                i + m <= v.len(),
                ok ==> forall|t: int| 0 <= t < j ==> v@[i + t] == p@[t],
                !ok ==> !occurs_at(v@, i as int, p@),
            decreases m - j,
        {
            if v[i + j] != p[j] {
                ok = false;
            }
            j = j + 1;
        }
        if ok {
            proof {
                let k = i - start;
                assert(s.subrange(k, k + m) =~= p@);
            }
            return true;
        }
        i = i + 1;
    }
    proof {
        assert forall|k: int| 0 <= k <= s.len() - p@.len() implies #[trigger] s.subrange(k, k + p@.len()) != p@ by {
            assert(!occurs_at(v@, start + k, p@));
            let t = choose|t: int| 0 <= t < p@.len() && v@[start + k + t] != #[trigger] p@[t];
            assert(s.subrange(k, k + p@.len())[t] == v@[start + k + t]);
        }
    }
    false
}


/// Value of a string of ASCII digits, in base ten.
pub open spec fn digits_value(s: Seq<char>) -> nat
    decreases s.len(),
{
    if s.len() == 0 {
        0
    } else {
        digits_value(s.drop_last()) * 10 + ((s.last() as nat) - ('0' as nat)) as nat
    }
}

pub open spec fn all_digits(s: Seq<char>) -> bool {
    forall|i: int| 0 <= i < s.len() ==> is_ascii_digit(#[trigger] s[i])
}

/// `<u32 as FromStr>::from_str`: an optional `+`, then one or more ASCII
/// digits whose value fits in a `u32`.
pub open spec fn parse_u32(s: Seq<char>) -> Option<u32> {
    let d = if s.len() > 0 && s[0] == '+' {
        s.drop_first()
    } else {
        s
    };
    if d.len() > 0 && all_digits(d) && digits_value(d) <= u32::MAX {
        Some(digits_value(d) as u32)
    } else {
        None
    }
}

/// `parse_u32` on the range `start..end`.
pub fn parse_u32_range(v: &Vec<char>, start: usize, end: usize) -> (r: Option<u32>)
    requires
        start <= end <= v@.len(),
    ensures
        r == parse_u32(v@.subrange(start as int, end as int)),
{
    let ghost s = v@.subrange(start as int, end as int);
    let mut a = start;
    if a < end && v[a] == '+' {
        a = a + 1;
    }
    let ghost d = v@.subrange(a as int, end as int);
    assert(d =~= (if s.len() > 0 && s[0] == '+' { s.drop_first() } else { s }));
    if a == end {
        return None;
    }
    let mut val: u64 = 0;
    let mut over = false;
    let mut i = a;
    while i < end
        invariant
            a <= i <= end <= v@.len(),
            d == v@.subrange(a as int, end as int),
            s == v@.subrange(start as int, end as int),
            d == (if s.len() > 0 && s[0] == '+' { s.drop_first() } else { s }),
            d.len() > 0,
            all_digits(v@.subrange(a as int, i as int)),
            !over ==> val == digits_value(v@.subrange(a as int, i as int)) && val <= u32::MAX,
            over ==> digits_value(v@.subrange(a as int, i as int)) > u32::MAX,
        decreases end - i,
    {
        let c = v[i];
        if !char_is_digit(c) {
            proof {
                assert(d[i - a] == c);
                assert(!is_ascii_digit(d[i - a]));
                assert(!all_digits(d));
            }
            return None;
        }
        proof {
            let p = v@.subrange(a as int, i as int);
            let q = v@.subrange(a as int, i + 1);
            assert(q.drop_last() =~= p);
            assert(q.last() == c);
        }
        if !over {
            let digit: u64 = (c as u32 - '0' as u32) as u64;
            val = val * 10 + digit;
            if val > 4294967295u64 {
                over = true;
            }
        }
        i = i + 1;
    }
    assert(v@.subrange(a as int, i as int) =~= d);
    if over {
        None
    } else {
        Some(val as u32)
    }
}


/// The ranges `rs` of `v`, as texts.
pub open spec fn range_texts(v: Seq<char>, rs: Seq<(usize, usize)>) -> Seq<Seq<char>> {
    rs.map_values(|r: (usize, usize)| v.subrange(r.0 as int, r.1 as int))
}

pub open spec fn ranges_within(rs: Seq<(usize, usize)>, start: int, end: int) -> bool {
    forall|i: int| 0 <= i < rs.len() ==> start <= (#[trigger] rs[i]).0 <= rs[i].1 <= end
}

/// The pieces of the range `start..end` cut at characters of class `k`
/// (`split_by`), as ranges.
pub fn pieces(v: &Vec<char>, start: usize, end: usize, k: CharClass) -> (rs: Vec<(usize, usize)>)
    requires
        start <= end <= v@.len(),
    ensures
        range_texts(v@, rs@) == split_by(v@.subrange(start as int, end as int), class_fn(k)),
        ranges_within(rs@, start as int, end as int),
        rs@.len() >= 1,
{
    let ghost sep = class_fn(k);
    let mut rs: Vec<(usize, usize)> = Vec::new();
    let mut pos = start;
    loop
        invariant
            start <= pos <= end <= v@.len(),
            sep == class_fn(k),
            split_by(v@.subrange(start as int, end as int), sep) == range_texts(v@, rs@) + split_by(
                v@.subrange(pos as int, end as int),
                sep,
            ),
            ranges_within(rs@, start as int, end as int),
        decreases end - pos,
    {
        let e = find_char(v, pos, end, k);
        proof {
            lemma_split_step(v@, pos as int, e as int, end as int, sep);
        }
        let ghost before = range_texts(v@, rs@);
        rs.push((pos, e));
        assert(range_texts(v@, rs@) =~= before.push(v@.subrange(pos as int, e as int)));
        if e == end {
            assert(range_texts(v@, rs@) =~= before + seq![v@.subrange(pos as int, end as int)]);
            return rs;
        }
        assert(before + (seq![v@.subrange(pos as int, e as int)] + split_by(v@.subrange(e + 1, end as int), sep))
            =~= range_texts(v@, rs@) + split_by(v@.subrange(e + 1, end as int), sep));
        pos = e + 1;
    }
}

/// Length of the run of characters of class `k` at the front of `s`.
pub open spec fn lead_len(s: Seq<char>, k: CharClass) -> nat
    decreases s.len(),
{
    if s.len() > 0 && class_fn(k)(s[0]) {
        1 + lead_len(s.drop_first(), k)
    } else {
        0
    }
}

/// Length of the run of characters of class `k` at the back of `s`.
pub open spec fn trail_len(s: Seq<char>, k: CharClass) -> nat
    decreases s.len(),
{
    if s.len() > 0 && class_fn(k)(s.last()) {
        1 + trail_len(s.drop_last(), k)
    } else {
        0
    }
}

pub proof fn lemma_lead_len(s: Seq<char>, k: CharClass, n: int)
    requires
        0 <= n <= s.len(),
        forall|j: int| 0 <= j < n ==> class_fn(k)(#[trigger] s[j]),
        n == s.len() || !class_fn(k)(s[n]),
    ensures
        lead_len(s, k) == n,
    decreases n,
{
    if n > 0 {
        assert(class_fn(k)(s[0]));
        assert forall|j: int| 0 <= j < n - 1 implies class_fn(k)(#[trigger] s.drop_first()[j]) by {
            assert(s.drop_first()[j] == s[j + 1]);
        }
        lemma_lead_len(s.drop_first(), k, n - 1);
    }
}

pub proof fn lemma_trail_len(s: Seq<char>, k: CharClass, m: int)
    requires
        0 <= m <= s.len(),
        forall|j: int| m <= j < s.len() ==> class_fn(k)(#[trigger] s[j]),
        m == 0 || !class_fn(k)(s[m - 1]),
    ensures
        trail_len(s, k) == s.len() - m,
    decreases s.len(),
{
    if s.len() > m {
        assert(class_fn(k)(s[s.len() - 1]));
        assert forall|j: int| m <= j < s.drop_last().len() implies class_fn(k)(#[trigger] s.drop_last()[j]) by {
            assert(s.drop_last()[j] == s[j]);
        }
        lemma_trail_len(s.drop_last(), k, m);
    } else if s.len() > 0 {
        assert(s.last() == s[m - 1]);
    }
}

/// `str::trim_start_matches` then `str::trim_end_matches` with the
/// characters of classes `front` and `back`, on the range `start..end`.
pub fn strip_range(v: &Vec<char>, start: usize, end: usize, front: CharClass, back: CharClass) -> (r: (usize, usize))
    requires
        start <= end <= v@.len(),
    ensures
        start <= r.0 <= r.1 <= end,
        ({
            let s = v@.subrange(start as int, end as int);
            let t = s.skip(lead_len(s, front) as int);
            v@.subrange(r.0 as int, r.1 as int) == t.take(t.len() - trail_len(t, back))
        }),
{
    let mut a = start;
    while a < end && in_class(&front, v[a])
        invariant
            start <= a <= end <= v@.len(),
            forall|j: int| start <= j < a ==> class_fn(front)(#[trigger] v@[j]),
        decreases end - a,
    {
        a = a + 1;
    }
    let mut b = end;
    while b > a && in_class(&back, v[b - 1])
        invariant
            start <= a <= b <= end <= v@.len(),
            forall|j: int| b <= j < end ==> class_fn(back)(#[trigger] v@[j]),
        decreases b - a,
    {
        b = b - 1;
    }
    proof {
        let s = v@.subrange(start as int, end as int);
        assert forall|j: int| 0 <= j < a - start implies class_fn(front)(#[trigger] s[j]) by {
            assert(s[j] == v@[start + j]);
        }
        if a < end {
            assert(s[a - start] == v@[a as int]);
        }
        lemma_lead_len(s, front, a - start);
        let t = s.skip(a - start);
        assert(t =~= v@.subrange(a as int, end as int));
        assert forall|j: int| b - a <= j < t.len() implies class_fn(back)(#[trigger] t[j]) by {
            assert(t[j] == v@[a + j]);
        }
        if b > a {
            assert(t[b - a - 1] == v@[b - 1]);
        }
        lemma_trail_len(t, back, b - a);
        assert(t.take(b - a) =~= v@.subrange(a as int, b as int));
    }
    (a, b)
}

/// `eq_ignore_case` between the range `start..end` and `p`.
pub fn range_eq_ignore_case(v: &Vec<char>, start: usize, end: usize, p: &Vec<char>) -> (b: bool)
    requires
        start <= end <= v@.len(),
    ensures
        b == eq_ignore_case(v@.subrange(start as int, end as int), p@),
{
    let ghost s = v@.subrange(start as int, end as int);
    if end - start != p.len() {
        assert(lower_seq(s).len() != lower_seq(p@).len());
        return false;
    }
    let n = p.len();
    let mut i: usize = 0;
    while i < n
        invariant
            i <= n == p@.len(),
            start + n == end <= v@.len(),
            s == v@.subrange(start as int, end as int),
            forall|j: int| 0 <= j < i ==> lower_char(s[j]) == lower_char(p@[j]),
        decreases n - i,
    {
        if char_lower(v[start + i]) != char_lower(p[i]) {
            assert(lower_seq(s)[i as int] != lower_seq(p@)[i as int]);
            return false;
        }
        i = i + 1;
    }
    assert(lower_seq(s) =~= lower_seq(p@));
    true
}


/// `Path::join` on Unix paths: an absolute `b` replaces `a`; otherwise `b`
/// is appended, with a `/` between unless `a` is empty or already ends
/// with one.
pub open spec fn path_join(a: Seq<char>, b: Seq<char>) -> Seq<char> {
    if b.len() > 0 && b[0] == '/' {
        b
    } else if a.len() == 0 || a.last() == '/' {
        a + b
    } else {
        a + seq!['/'] + b
    }
}

/// Appends the characters of `b` to `s` (`String::push_str`).
pub fn push_str(s: &mut String, b: &str)
    ensures
        final(s)@ == old(s)@ + b@,
{
    let v = chars_of(b);
    let n = v.len();
    let ghost s0 = s@;
    let mut i: usize = 0;
    while i < n
        invariant
            i <= n == v@.len(),
            v@ == b@,
            s@ == s0 + v@.take(i as int),
        decreases n - i,
    {
        push_char(s, v[i]);
        assert(v@.take(i + 1) =~= v@.take(i as int).push(v@[i as int]));
        assert(s0 + v@.take(i + 1) =~= (s0 + v@.take(i as int)).push(v@[i as int]));
        i = i + 1;
    }
    assert(v@.take(n as int) =~= v@);
}

/// `a` joined with `b` as paths (`path_join`).
pub fn join_path(a: &str, b: &str) -> (r: String)
    ensures
        r@ == path_join(a@, b@),
{
    let bv = chars_of(b);
    if bv.len() > 0 && bv[0] == '/' {
        return owned(b);
    }
    let av = chars_of(a);
    let mut r = owned(a);
    if !(av.len() == 0 || av[av.len() - 1] == '/') {
        push_char(&mut r, '/');
    }
    push_str(&mut r, b);
    r
}

/// `s` without its first `k` characters.
pub fn suffix_from(s: &str, k: usize) -> (r: String)
    requires
        k <= s@.len(),
    ensures
        r@ == s@.skip(k as int),
{
    let v = chars_of(s);
    let n = v.len();
    let mut r = String::new();
    let mut i = k;
    while i < n
        invariant
            k <= i <= n == v@.len(),
            v@ == s@,
            r@ == s@.subrange(k as int, i as int),
        decreases n - i,
    {
        push_char(&mut r, v[i]);
        assert(s@.subrange(k as int, i + 1) =~= s@.subrange(k as int, i as int).push(v@[i as int]));
        i = i + 1;
    }
    assert(s@.subrange(k as int, n as int) =~= s@.skip(k as int));
    r
}

/// Whether `s` starts with `p`.
pub fn str_starts_with(s: &str, p: &str) -> (b: bool)
    ensures
        b == starts_with(s@, p@),
{
    let v = chars_of(s);
    let pv = chars_of(p);
    assert(v@.subrange(0, v@.len() as int) =~= v@);
    range_starts_with(&v, 0, v.len(), &pv)
}

/// Whether `s` ends with `p`.
pub fn str_ends_with(s: &str, p: &str) -> (b: bool)
    ensures
        b == ends_with(s@, p@),
{
    let v = chars_of(s);
    let pv = chars_of(p);
    if pv.len() > v.len() {
        return false;
    }
    let k = v.len() - pv.len();
    let m = pv.len();
    let mut i: usize = 0;
    while i < m
        invariant
            i <= m == pv@.len(),
            k + m == v.len(),
            v@ == s@,
            pv@ == p@,
            forall|j: int| 0 <= j < i ==> v@[k + j] == pv@[j],
        decreases m - i,
    {
        if v[k + i] != pv[i] {
            assert(s@.skip(k as int)[i as int] == v@[k + i]);
            return false;
        }
        i = i + 1;
    }
    assert(s@.skip(k as int) =~= p@);
    true
}

/// Whether `a` and `b` hold the same characters.
pub fn str_eq(a: &str, b: &str) -> (r: bool)
    ensures
        r == (a@ == b@),
{
    let av = chars_of(a);
    let bv = chars_of(b);
    if av.len() != bv.len() {
        return false;
    }
    let n = av.len();
    let mut i: usize = 0;
    while i < n
        invariant
            i <= n == av@.len() == bv@.len(),
            av@ == a@,
            bv@ == b@,
            forall|j: int| 0 <= j < i ==> av@[j] == bv@[j],
        decreases n - i,
    {
        if av[i] != bv[i] {
            return false;
        }
        i = i + 1;
    }
    assert(av@ =~= bv@);
    true
}


/// A copy of `v`.
pub fn clone_strings(v: &Vec<String>) -> (r: Vec<String>)
    ensures
        r@ == v@,
{
    let mut r: Vec<String> = Vec::new();
    let n = v.len();
    for i in 0..n
        invariant
            n == v@.len(),
            r@ == v@.take(i as int),
    {
        r.push(v[i].clone());
        assert(v@.take(i + 1) =~= v@.take(i as int).push(v@[i as int]));
    }
    assert(v@.take(n as int) =~= v@);
    r
}


/// The characters `start..end` of `v`.
pub fn slice_of(v: &Vec<char>, start: usize, end: usize) -> (r: Vec<char>)
    requires
        start <= end <= v@.len(),
    ensures
        r@ == v@.subrange(start as int, end as int),
{
    let mut r: Vec<char> = Vec::new();
    let mut i = start;
    while i < end
        invariant
            start <= i <= end <= v@.len(),
            r@ == v@.subrange(start as int, i as int),
        decreases end - i,
    {
        r.push(v[i]);
        assert(v@.subrange(start as int, i + 1) =~= v@.subrange(start as int, i as int).push(v@[i as int]));
        i = i + 1;
    }
    r
}


/// The decimal digits of `n`.
pub open spec fn dec(n: nat) -> Seq<char>
    decreases n,
{
    if n < 10 {
        seq![(('0' as nat) + n) as char]
    } else {
        dec(n / 10) + seq![(('0' as nat) + n % 10) as char]
    }
}

/// `n` in decimal, as `format!("{}", n)` writes it.
pub fn decimal(n: u64) -> (s: String)
    ensures
        s@ == dec(n as nat),
{
    let mut digits: Vec<char> = Vec::new();
    let mut m = n;
    let mut first = true;
    while first || m > 0
        invariant
            !first ==> dec(n as nat) == (if m > 0 { dec(m as nat) } else { Seq::empty() }) + digits@.reverse(),
            first ==> m == n && digits@.len() == 0,
        decreases m + (if first { 1int } else { 0int }),
    {
        let d: u64 = m % 10;
        let c: char = ((48u64 + d) as u8) as char;
        proof {
            assert(c == (('0' as nat) + (m % 10) as nat) as char) by {
                assert(48 + d < 58);
            }
            if m >= 10 {
                assert(dec(m as nat) == dec((m / 10) as nat) + seq![c]);
            } else {
                assert(dec(m as nat) == seq![c]);
            }
        }
        let ghost old_digits = digits@;
        digits.push(c);
        proof {
            assert(digits@.reverse() =~= seq![c] + old_digits.reverse());
            if first {
                assert(old_digits.reverse() =~= Seq::<char>::empty());
            }
        }
        m = m / 10;
        first = false;
        proof {
            if m > 0 {
                assert((if m > 0 { dec(m as nat) } else { Seq::empty() }) + digits@.reverse() =~= dec(m as nat) + seq![c]
                    + old_digits.reverse());
            }
        }
    }
    let mut s = String::new();
    let mut i = digits.len();
    assert(digits@.reverse().take(0) =~= Seq::<char>::empty());
    while i > 0
        invariant
            i <= digits@.len(),
            s@ == digits@.reverse().take((digits@.len() - i) as int),
        decreases i,
    {
        i = i - 1;
        push_char(&mut s, digits[i]);
        assert(digits@.reverse().take((digits@.len() - i) as int) =~= digits@.reverse().take(
            (digits@.len() - i - 1) as int,
        ).push(digits@[i as int]));
    }
    assert(digits@.reverse().take(digits@.len() as int) =~= digits@.reverse());
    assert(Seq::<char>::empty() + digits@.reverse() =~= digits@.reverse());
    s
}


/// `str::to_ascii_lowercase`.
pub fn ascii_lower(s: &str) -> (r: String)
    ensures
        r@ == lower_seq(s@),
{
    let v = chars_of(s);
    let n = v.len();
    let mut r = String::new();
    let mut i: usize = 0;
    while i < n
        invariant
            i <= n == v@.len(),
            v@ == s@,
            r@ == lower_seq(s@.take(i as int)),
        decreases n - i,
    {
        push_char(&mut r, char_lower(v[i]));
        assert(lower_seq(s@.take(i + 1)) =~= lower_seq(s@.take(i as int)).push(lower_char(v@[i as int])));
        i = i + 1;
    }
    assert(s@.take(n as int) =~= s@);
    r
}

} // verus!

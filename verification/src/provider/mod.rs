//! Online wallpaper providers: what is fetched, where it is stored, when a
//! provider is due, and the guard that keeps downloads away from internal
//! hosts.
//!
//! | provider | API key  | what                                   |
//! |----------|----------|----------------------------------------|
//! | Bing     | no       | the daily Bing wallpapers (up to 8)    |
//! | Unsplash | required | free photos, optionally by query       |
//! | Wallhaven| optional | toplist wallpapers                     |
//! | Reddit   | no       | image posts of a subreddit             |
//!
//! The HTTP client, the DNS resolver, the file system and the timers are
//! the daemon's; it hands this module what it read and acts on what comes
//! back.

use vstd::prelude::*;

pub mod bing;
pub mod reddit;
pub mod unsplash;
pub mod wallhaven;

use crate::config::{spec_effective_interval_hours, spec_provider_name, OnlineSourceConfig, ProviderKind};
use crate::text::{
    all_digits, chars_of, class_fn, digits_value, eq_ignore_case, is_ascii_digit, lead_len,
    pieces, range_eq_ignore_case, range_texts, ranges_within, split_by, strip_range, trail_len,
    CharClass,
};

verus! {

// ---- IPv4 ----------------------------------------------------------------

/// One decimal octet as `Ipv4Addr`'s parser reads it: one to three ASCII
/// digits, no leading zero, at most 255.
pub open spec fn parse_octet(s: Seq<char>) -> Option<u8> {
    if 1 <= s.len() <= 3 && all_digits(s) && (s.len() == 1 || s[0] != '0') && digits_value(s) <= 255 {
        Some(digits_value(s) as u8)
    } else {
        None
    }
}

pub open spec fn parse_octets(ps: Seq<Seq<char>>) -> Option<Seq<u8>>
    decreases ps.len(),
{
    if ps.len() == 0 {
        Some(Seq::empty())
    } else {
        match (parse_octet(ps[0]), parse_octets(ps.skip(1))) {
            (Some(o), Some(rest)) => Some(seq![o] + rest),
            _ => None,
        }
    }
}

/// `<Ipv4Addr as FromStr>::from_str`: exactly four octets separated by dots.
pub open spec fn parse_ipv4(s: Seq<char>) -> Option<Seq<u8>> {
    match parse_octets(split_by(s, class_fn(CharClass::Dot))) {
        Some(os) => if os.len() == 4 {
            Some(os)
        } else {
            None
        },
        None => None,
    }
}

/// Loopback (127/8), private (10/8, 172.16/12, 192.168/16), link-local
/// (169.254/16), unspecified, broadcast or multicast (224/4).
pub open spec fn internal_ipv4(o: Seq<u8>) -> bool {
    ||| o[0] == 127
    ||| o[0] == 10
    ||| (o[0] == 172 && 16 <= o[1] <= 31)
    ||| (o[0] == 192 && o[1] == 168)
    ||| (o[0] == 169 && o[1] == 254)
    ||| (o[0] == 0 && o[1] == 0 && o[2] == 0 && o[3] == 0)
    ||| (o[0] == 255 && o[1] == 255 && o[2] == 255 && o[3] == 255)
    ||| (224 <= o[0] <= 239)
}

pub open spec fn prefixed<T>(acc: Seq<T>, r: Option<Seq<T>>) -> Option<Seq<T>> {
    match r {
        Some(x) => Some(acc + x),
        None => None,
    }
}

fn octet_in(v: &Vec<char>, a: usize, b: usize) -> (r: Option<u8>)
    requires
        a <= b <= v@.len(),
    ensures
        r == parse_octet(v@.subrange(a as int, b as int)),
{
    let ghost s = v@.subrange(a as int, b as int);
    if b - a < 1 || b - a > 3 {
        return None;
    }
    if b - a > 1 && v[a] == '0' {
        assert(s[0] == v@[a as int]);
        return None;
    }
    let mut val: u32 = 0;
    let mut i = a;
    while i < b
        invariant
            a <= i <= b <= v@.len(),
            b - a <= 3,
            s == v@.subrange(a as int, b as int),
            all_digits(v@.subrange(a as int, i as int)),
            val == digits_value(v@.subrange(a as int, i as int)),
            i - a == 0 ==> val == 0,
            i - a == 1 ==> val <= 9,
            i - a == 2 ==> val <= 99,
            val <= 999,
        decreases b - i,
    {
        let c = v[i];
        if !('0' <= c && c <= '9') {
            assert(s[i - a] == c);
            assert(!all_digits(s));
            return None;
        }
        proof {
            let q = v@.subrange(a as int, i + 1);
            assert(q.drop_last() =~= v@.subrange(a as int, i as int));
            assert(q.last() == c);
        }
        val = val * 10 + (c as u32 - '0' as u32);
        i = i + 1;
    }
    assert(v@.subrange(a as int, i as int) =~= s);
    if val > 255 {
        None
    } else {
        Some(val as u8)
    }
}

fn octets_of(v: &Vec<char>, rs: &Vec<(usize, usize)>) -> (r: Option<Vec<u8>>)
    requires
        ranges_within(rs@, 0, v@.len() as int),
    ensures
        match r {
            Some(x) => parse_octets(range_texts(v@, rs@)) == Some(x@),
            None => parse_octets(range_texts(v@, rs@)) is None,
        },
{
    let ghost all = range_texts(v@, rs@);
    let mut acc: Vec<u8> = Vec::new();
    let n = rs.len();
    let mut i: usize = 0;
    assert(all.skip(0) =~= all);
    while i < n
        invariant
            i <= n == rs@.len(),
            all == range_texts(v@, rs@),
            ranges_within(rs@, 0, v@.len() as int),
            parse_octets(all) == prefixed(acc@, parse_octets(all.skip(i as int))),
        decreases n - i,
    {
        let (a, b) = rs[i];
        assert(rs@[i as int] == (a, b));
        let ghost rest = all.skip(i as int);
        assert(rest[0] == v@.subrange(a as int, b as int));
        assert(rest.skip(1) =~= all.skip(i + 1));
        match octet_in(v, a, b) {
            None => {
                return None;
            },
            Some(o) => {
                proof {
                    let old_acc = acc@;
                    match parse_octets(all.skip(i + 1)) {
                        Some(x) => {
                            assert(old_acc + (seq![o] + x) =~= old_acc.push(o) + x);
                        },
                        None => {},
                    }
                }
                acc.push(o);
            },
        }
        i = i + 1;
    }
    assert(parse_octets(all.skip(n as int)) == Some(Seq::<u8>::empty()));
    assert(acc@ + Seq::<u8>::empty() =~= acc@);
    Some(acc)
}

fn ipv4_in(v: &Vec<char>, a: usize, b: usize) -> (r: Option<Vec<u8>>)
    requires
        a <= b <= v@.len(),
    ensures
        match r {
            Some(x) => parse_ipv4(v@.subrange(a as int, b as int)) == Some(x@),
            None => parse_ipv4(v@.subrange(a as int, b as int)) is None,
        },
{
    let rs = pieces(v, a, b, CharClass::Dot);
    match octets_of(v, &rs) {
        Some(os) => {
            if os.len() == 4 {
                Some(os)
            } else {
                None
            }
        },
        None => None,
    }
}

fn private_ipv4(o: &Vec<u8>) -> (b: bool)
    requires
        o@.len() == 4,
    ensures
        b == internal_ipv4(o@),
{
    let a = o[0];
    let b = o[1];
    let c = o[2];
    let d = o[3];
    a == 127 || a == 10 || (a == 172 && 16 <= b && b <= 31) || (a == 192 && b == 168) || (a == 169
        && b == 254) || (a == 0 && b == 0 && c == 0 && d == 0) || (a == 255 && b == 255 && c == 255
        && d == 255) || (224 <= a && a <= 239)
}

// ---- IPv6 ----------------------------------------------------------------

pub open spec fn is_hex(c: char) -> bool {
    is_ascii_digit(c) || ('a' <= c && c <= 'f') || ('A' <= c && c <= 'F')
}

pub open spec fn hex_digit(c: char) -> nat {
    if is_ascii_digit(c) {
        ((c as nat) - ('0' as nat)) as nat
    } else if 'a' <= c && c <= 'f' {
        ((c as nat) - ('a' as nat) + 10) as nat
    } else {
        ((c as nat) - ('A' as nat) + 10) as nat
    }
}

pub open spec fn hex_value(s: Seq<char>) -> nat
    decreases s.len(),
{
    if s.len() == 0 {
        0
    } else {
        hex_value(s.drop_last()) * 16 + hex_digit(s.last())
    }
}

/// One group of an IPv6 address: one to four hexadecimal digits.
pub open spec fn parse_h16(s: Seq<char>) -> Option<u16> {
    if 1 <= s.len() <= 4 && (forall|i: int| 0 <= i < s.len() ==> is_hex(#[trigger] s[i])) {
        Some(hex_value(s) as u16)
    } else {
        None
    }
}

pub open spec fn parse_h16s(ps: Seq<Seq<char>>) -> Option<Seq<u16>>
    decreases ps.len(),
{
    if ps.len() == 0 {
        Some(Seq::empty())
    } else {
        match (parse_h16(ps[0]), parse_h16s(ps.skip(1))) {
            (Some(g), Some(rest)) => Some(seq![g] + rest),
            _ => None,
        }
    }
}

/// The two groups that an embedded IPv4 address stands for.
pub open spec fn v4_groups(o: Seq<u8>) -> Seq<u16> {
    seq![(o[0] * 256 + o[1]) as u16, (o[2] * 256 + o[3]) as u16]
}

/// Groups of a colon-separated list whose last piece may be an IPv4
/// address.
pub open spec fn tail_groups(s: Seq<char>) -> Option<Seq<u16>> {
    let ps = split_by(s, class_fn(CharClass::Colon));
    match parse_ipv4(ps.last()) {
        Some(o) => prefixed_after(parse_h16s(ps.drop_last()), v4_groups(o)),
        None => parse_h16s(ps),
    }
}

pub open spec fn prefixed_after(r: Option<Seq<u16>>, tail: Seq<u16>) -> Option<Seq<u16>> {
    match r {
        Some(x) => Some(x + tail),
        None => None,
    }
}

pub open spec fn double_colon_at(s: Seq<char>, i: int) -> bool {
    0 <= i && i + 1 < s.len() && s[i] == ':' && s[i + 1] == ':'
}

pub open spec fn first_double_colon(s: Seq<char>, i: int) -> bool {
    double_colon_at(s, i) && forall|j: int| 0 <= j < i ==> !double_colon_at(s, j)
}

/// `<Ipv6Addr as FromStr>::from_str`, as eight 16-bit groups: either eight
/// groups separated by colons (the last two may be written as an IPv4
/// address), or groups before and after the first `::`, which stands for
/// one or more zero groups.
pub open spec fn parse_ipv6(s: Seq<char>) -> Option<Seq<u16>> {
    if exists|i: int| first_double_colon(s, i) {
        let i = choose|i: int| first_double_colon(s, i);
        let head = s.take(i);
        let tail = s.skip(i + 2);
        let hg = if head.len() == 0 {
            Some(Seq::<u16>::empty())
        } else {
            parse_h16s(split_by(head, class_fn(CharClass::Colon)))
        };
        let tg = if tail.len() == 0 {
            Some(Seq::<u16>::empty())
        } else {
            tail_groups(tail)
        };
        match (hg, tg) {
            (Some(h), Some(t)) => if h.len() <= 7 && t.len() <= 7 - h.len() {
                Some(h + Seq::new((8 - h.len() - t.len()) as nat, |k: int| 0u16) + t)
            } else {
                None
            },
            _ => None,
        }
    } else {
        match tail_groups(s) {
            Some(g) => if g.len() == 8 {
                Some(g)
            } else {
                None
            },
            None => None,
        }
    }
}

/// An IPv4-mapped address `::ffff:a.b.c.d`.
pub open spec fn is_v4_mapped(g: Seq<u16>) -> bool {
    g[0] == 0 && g[1] == 0 && g[2] == 0 && g[3] == 0 && g[4] == 0 && g[5] == 0xffff
}

pub open spec fn mapped_v4(g: Seq<u16>) -> Seq<u8> {
    seq![(g[6] / 256) as u8, (g[6] % 256) as u8, (g[7] / 256) as u8, (g[7] % 256) as u8]
}

/// An IPv4-mapped address is judged by its IPv4 address; otherwise
/// loopback (`::1`), unspecified (`::`), multicast (`ff00::/8`), unique
/// local (`fc00::/7`) and link-local (`fe80::/10`) addresses are internal.
pub open spec fn internal_ipv6(g: Seq<u16>) -> bool {
    if is_v4_mapped(g) {
        internal_ipv4(mapped_v4(g))
    } else {
        ||| (g[0] == 0 && g[1] == 0 && g[2] == 0 && g[3] == 0 && g[4] == 0 && g[5] == 0 && g[6] == 0
            && g[7] == 1)
        ||| (g[0] == 0 && g[1] == 0 && g[2] == 0 && g[3] == 0 && g[4] == 0 && g[5] == 0 && g[6] == 0
            && g[7] == 0)
        ||| g[0] >= 0xff00
        ||| (0xfc00 <= g[0] <= 0xfdff)
        ||| (0xfe80 <= g[0] <= 0xfebf)
    }
}

fn h16_in(v: &Vec<char>, a: usize, b: usize) -> (r: Option<u16>)
    requires
        a <= b <= v@.len(),
    ensures
        r == parse_h16(v@.subrange(a as int, b as int)),
{
    let ghost s = v@.subrange(a as int, b as int);
    if b - a < 1 || b - a > 4 {
        return None;
    }
    let mut val: u32 = 0;
    let mut i = a;
    while i < b
        invariant
            a <= i <= b <= v@.len(),
            b - a <= 4,
            s == v@.subrange(a as int, b as int),
            forall|j: int| 0 <= j < i - a ==> is_hex(#[trigger] s[j]),
            val == hex_value(v@.subrange(a as int, i as int)),
            i - a == 0 ==> val == 0,
            i - a == 1 ==> val < 16,
            i - a == 2 ==> val < 256,
            i - a == 3 ==> val < 4096,
            val < 65536,
        decreases b - i,
    {
        let c = v[i];
        let d: u32 = if '0' <= c && c <= '9' {
            c as u32 - '0' as u32
        } else if 'a' <= c && c <= 'f' {
            c as u32 - 'a' as u32 + 10
        } else if 'A' <= c && c <= 'F' {
            c as u32 - 'A' as u32 + 10
        } else {
            assert(s[i - a] == c);
            return None;
        };
        proof {
            let q = v@.subrange(a as int, i + 1);
            assert(q.drop_last() =~= v@.subrange(a as int, i as int));
            assert(q.last() == c);
            assert(s[i - a] == c);
        }
        val = val * 16 + d;
        i = i + 1;
    }
    assert(v@.subrange(a as int, i as int) =~= s);
    Some(val as u16)
}

/// Groups of the ranges `lo..hi` of `rs`.
fn h16s_of(v: &Vec<char>, rs: &Vec<(usize, usize)>, hi: usize) -> (r: Option<Vec<u16>>)
    requires
        hi <= rs@.len(),
        ranges_within(rs@, 0, v@.len() as int),
    ensures
        match r {
            Some(x) => parse_h16s(range_texts(v@, rs@).take(hi as int)) == Some(x@),
            None => parse_h16s(range_texts(v@, rs@).take(hi as int)) is None,
        },
{
    let ghost all = range_texts(v@, rs@).take(hi as int);
    let mut acc: Vec<u16> = Vec::new();
    let mut i: usize = 0;
    assert(all.skip(0) =~= all);
    while i < hi
        invariant
            i <= hi <= rs@.len(),
            all == range_texts(v@, rs@).take(hi as int),
            ranges_within(rs@, 0, v@.len() as int),
            parse_h16s(all) == prefixed(acc@, parse_h16s(all.skip(i as int))),
        decreases hi - i,
    {
        let (a, b) = rs[i];
        assert(rs@[i as int] == (a, b));
        let ghost rest = all.skip(i as int);
        assert(rest[0] == v@.subrange(a as int, b as int));
        assert(rest.skip(1) =~= all.skip(i + 1));
        match h16_in(v, a, b) {
            None => {
                return None;
            },
            Some(g) => {
                proof {
                    let old_acc = acc@;
                    match parse_h16s(all.skip(i + 1)) {
                        Some(x) => {
                            assert(old_acc + (seq![g] + x) =~= old_acc.push(g) + x);
                        },
                        None => {},
                    }
                }
                acc.push(g);
            },
        }
        i = i + 1;
    }
    assert(parse_h16s(all.skip(hi as int)) == Some(Seq::<u16>::empty()));
    assert(acc@ + Seq::<u16>::empty() =~= acc@);
    Some(acc)
}

fn tail_in(v: &Vec<char>, a: usize, b: usize) -> (r: Option<Vec<u16>>)
    requires
        a <= b <= v@.len(),
    ensures
        match r {
            Some(x) => tail_groups(v@.subrange(a as int, b as int)) == Some(x@),
            None => tail_groups(v@.subrange(a as int, b as int)) is None,
        },
{
    let rs = pieces(v, a, b, CharClass::Colon);
    let ghost ps = range_texts(v@, rs@);
    let n = rs.len();
    let (la, lb) = rs[n - 1];
    assert(rs@[n - 1] == (la, lb));
    assert(ps.last() == v@.subrange(la as int, lb as int));
    assert(ps.take(n as int) =~= ps);
    assert(ps.take(n - 1) =~= ps.drop_last());
    assert(ranges_within(rs@, 0, v@.len() as int));
    match ipv4_in(v, la, lb) {
        Some(o) => {
            match h16s_of(v, &rs, n - 1) {
                Some(mut g) => {
                    let ghost g0 = g@;
                    let hi: u16 = (o[0] as u16) * 256 + (o[1] as u16);
                    let lo: u16 = (o[2] as u16) * 256 + (o[3] as u16);
                    g.push(hi);
                    g.push(lo);
                    assert(g@ =~= g0 + v4_groups(o@));
                    Some(g)
                },
                None => None,
            }
        },
        None => h16s_of(v, &rs, n),
    }
}

fn zeros(n: usize) -> (r: Vec<u16>)
    ensures
        r@ == Seq::new(n as nat, |k: int| 0u16),
{
    let mut r: Vec<u16> = Vec::new();
    let mut i: usize = 0;
    while i < n
        invariant
            i <= n,
            r@ == Seq::new(i as nat, |k: int| 0u16),
        decreases n - i,
    {
        r.push(0);
        assert(r@ =~= Seq::new((i + 1) as nat, |k: int| 0u16));
        i = i + 1;
    }
    r
}

fn ipv6_in(v: &Vec<char>, a: usize, b: usize) -> (r: Option<Vec<u16>>)
    requires
        a <= b <= v@.len(),
    ensures
        match r {
            Some(x) => parse_ipv6(v@.subrange(a as int, b as int)) == Some(x@),
            None => parse_ipv6(v@.subrange(a as int, b as int)) is None,
        },
{
    let ghost s = v@.subrange(a as int, b as int);
    let mut p = a;
    let mut found = false;
    while b - p > 1 && !found
        invariant
            a <= p <= b <= v@.len(),
            s == v@.subrange(a as int, b as int),
            forall|j: int| 0 <= j < p - a ==> !double_colon_at(s, j),
            found ==> double_colon_at(s, p - a),
        decreases b - p + (if found { 0int } else { 1int }),
    {
        if v[p] == ':' && v[p + 1] == ':' {
            assert(s[p - a] == v@[p as int] && s[p - a + 1] == v@[p + 1]);
            found = true;
        } else {
            assert(s[p - a] == v@[p as int] && s[p - a + 1] == v@[p + 1]);
            p = p + 1;
        }
    }
    if found {
        let ghost i = p - a;
        assert(first_double_colon(s, i));
        assert(exists|k: int| first_double_colon(s, k));
        assert((choose|k: int| first_double_colon(s, k)) == i) by {
            let k = choose|k: int| first_double_colon(s, k);
            if k < i {
                assert(!double_colon_at(s, k));
            }
            if i < k {
                assert(!double_colon_at(s, i));
            }
        }
        assert(s.take(i) =~= v@.subrange(a as int, p as int));
        assert(s.skip(i + 2) =~= v@.subrange(p + 2, b as int));
        let h = if p == a {
            Some(Vec::new())
        } else {
            let rs = pieces(v, a, p, CharClass::Colon);
            assert(range_texts(v@, rs@).take(rs@.len() as int) =~= range_texts(v@, rs@));
            assert(ranges_within(rs@, 0, v@.len() as int));
            h16s_of(v, &rs, rs.len())
        };
        let t = if p + 2 == b {
            Some(Vec::new())
        } else {
            tail_in(v, p + 2, b)
        };
        match (h, t) {
            (Some(mut h), Some(t)) => {
                if h.len() <= 7 && t.len() <= 7 - h.len() {
                    let ghost hg = h@;
                    let mut z = zeros(8 - h.len() - t.len());
                    h.append(&mut z);
                    let mut t2 = t;
                    h.append(&mut t2);
                    assert(h@ =~= hg + Seq::new((8 - hg.len() - t@.len()) as nat, |k: int| 0u16) + t@);
                    Some(h)
                } else {
                    None
                }
            },
            _ => None,
        }
    } else {
        assert(!exists|k: int| first_double_colon(s, k)) by {
            if exists|k: int| first_double_colon(s, k) {
                let k = choose|k: int| first_double_colon(s, k);
                assert(double_colon_at(s, k));
            }
        }
        match tail_in(v, a, b) {
            Some(g) => {
                if g.len() == 8 {
                    Some(g)
                } else {
                    None
                }
            },
            None => None,
        }
    }
}

fn private_ipv6(g: &Vec<u16>) -> (b: bool)
    requires
        g@.len() == 8,
    ensures
        b == internal_ipv6(g@),
{
    if g[0] == 0 && g[1] == 0 && g[2] == 0 && g[3] == 0 && g[4] == 0 && g[5] == 0xffff {
        let mut o: Vec<u8> = Vec::new();
        o.push((g[6] / 256) as u8);
        o.push((g[6] % 256) as u8);
        o.push((g[7] / 256) as u8);
        o.push((g[7] % 256) as u8);
        assert(o@ =~= mapped_v4(g@));
        return private_ipv4(&o);
    }
    let zero6 = g[0] == 0 && g[1] == 0 && g[2] == 0 && g[3] == 0 && g[4] == 0 && g[5] == 0 && g[6] == 0;
    (zero6 && g[7] == 1) || (zero6 && g[7] == 0) || g[0] >= 0xff00 || (0xfc00 <= g[0] && g[0] <= 0xfdff)
        || (0xfe80 <= g[0] && g[0] <= 0xfebf)
}

// ---- hosts ---------------------------------------------------------------

/// The host without the brackets of an IPv6 literal: every leading `[` and
/// every trailing `]` is dropped.
pub open spec fn bare_host(host: Seq<char>) -> Seq<char> {
    let t = host.skip(lead_len(host, CharClass::OpenBracket) as int);
    t.take(t.len() - trail_len(t, CharClass::CloseBracket))
}

/// A host that downloads must not reach: `localhost` in any case, an
/// internal IPv4 address, or an internal IPv6 address.
pub open spec fn spec_is_private_host(host: Seq<char>) -> bool {
    let bare = bare_host(host);
    if eq_ignore_case(bare, "localhost"@) {
        true
    } else {
        match parse_ipv4(bare) {
            Some(o) => internal_ipv4(o),
            None => match parse_ipv6(bare) {
                Some(g) => internal_ipv6(g),
                None => false,
            },
        }
    }
}

/// Whether `host` (a host name or an IP literal, IPv6 possibly in brackets)
/// is internal: loopback, private, link-local, unspecified, broadcast,
/// multicast, or `localhost`.
pub fn is_private_host(host: &str) -> (b: bool)
    ensures
        b == spec_is_private_host(host@),
{
    let v = chars_of(host);
    let n = v.len();
    assert(v@.subrange(0, n as int) =~= host@);
    let (a, e) = strip_range(&v, 0, n, CharClass::OpenBracket, CharClass::CloseBracket);
    let localhost = chars_of("localhost");
    if range_eq_ignore_case(&v, a, e, &localhost) {
        return true;
    }
    match ipv4_in(&v, a, e) {
        Some(o) => private_ipv4(&o),
        None => match ipv6_in(&v, a, e) {
            Some(g) => private_ipv6(&g),
            None => false,
        },
    }
}


/// `is_private_ipv4` on the four octets of an address.
pub fn is_private_ipv4(o: &[u8; 4]) -> (b: bool)
    ensures
        b == internal_ipv4(o@),
{
    let mut v: Vec<u8> = Vec::new();
    v.push(o[0]);
    v.push(o[1]);
    v.push(o[2]);
    v.push(o[3]);
    assert(v@ =~= o@);
    private_ipv4(&v)
}

/// `is_private_ipv6` on the eight groups of an address.
pub fn is_private_ipv6(g: &[u16; 8]) -> (b: bool)
    ensures
        b == internal_ipv6(g@),
{
    let mut v: Vec<u16> = Vec::new();
    let mut i: usize = 0;
    while i < 8
        invariant
            i <= 8,
            v@ == g@.take(i as int),
        decreases 8 - i,
    {
        v.push(g[i]);
        assert(g@.take(i + 1) =~= g@.take(i as int).push(g@[i as int]));
        i = i + 1;
    }
    assert(g@.take(8) =~= g@);
    private_ipv6(&v)
}

/// Reads an IPv4 address as `Ipv4Addr`'s parser does.
pub fn parse_ipv4_addr(s: &str) -> (r: Option<[u8; 4]>)
    ensures
        match r {
            Some(o) => parse_ipv4(s@) == Some(o@),
            None => parse_ipv4(s@) is None,
        },
{
    let v = chars_of(s);
    assert(v@.subrange(0, v@.len() as int) =~= s@);
    match ipv4_in(&v, 0, v.len()) {
        Some(o) => {
            let a = [o[0], o[1], o[2], o[3]];
            assert(a@ =~= o@);
            Some(a)
        },
        None => None,
    }
}

/// Reads an IPv6 address, as its eight groups, as `Ipv6Addr`'s parser does.
pub fn parse_ipv6_addr(s: &str) -> (r: Option<[u16; 8]>)
    ensures
        match r {
            Some(g) => parse_ipv6(s@) == Some(g@),
            None => parse_ipv6(s@) is None,
        },
{
    let v = chars_of(s);
    assert(v@.subrange(0, v@.len() as int) =~= s@);
    match ipv6_in(&v, 0, v.len()) {
        Some(g) => {
            let a = [g[0], g[1], g[2], g[3], g[4], g[5], g[6], g[7]];
            assert(a@ =~= g@);
            Some(a)
        },
        None => None,
    }
}


// ---- Fetch planning ------------------------------------------------------

/// The screen size in pixels, for providers that pick a resolution.
#[derive(Debug, Clone, Copy)]
pub struct FetchContext {
    pub screen_w: u32,
    pub screen_h: u32,
}

/// What one provider fetch brought: the provider's name and the images now
/// available in its directory.
#[derive(Debug)]
pub struct FetchResult {
    pub provider: String,
    pub new_paths: Vec<String>,
}

/// A provider is due when its `.last_fetch` stamp is missing
/// (`elapsed` is `None`) or at least its interval has passed since the
/// stamp was written.
pub open spec fn spec_is_fetch_due(cfg: OnlineSourceConfig, elapsed: Option<u64>) -> bool {
    match elapsed {
        None => true,
        Some(e) => e >= spec_effective_interval_hours(cfg) * 3600,
    }
}

/// Whether `cfg` is due for a fetch, given the seconds since its stamp was
/// written (`None` when there is no stamp; a stamp whose time cannot be
/// read counts as written at the epoch).
pub fn is_fetch_due(cfg: &OnlineSourceConfig, elapsed: Option<u64>) -> (b: bool)
    requires
        spec_effective_interval_hours(*cfg) * 3600 <= u64::MAX,
    ensures
        b == spec_is_fetch_due(*cfg, elapsed),
{
    match elapsed {
        None => true,
        Some(e) => e >= cfg.effective_interval_hours() * 3600,
    }
}

/// Whether the provider of `cfg` is fetched in this round: it is enabled,
/// and it is forced or due.
pub open spec fn spec_should_fetch(cfg: OnlineSourceConfig, elapsed: Option<u64>, force: bool) -> bool {
    cfg.enabled && (force || spec_is_fetch_due(cfg, elapsed))
}

/// The providers fetched in this round, by index into `configs`, in order.
/// `elapsed[i]` is what the stamp of `configs[i]` says (see
/// [`is_fetch_due`]); with `force` the stamps are not looked at.
pub fn fetch_plan(configs: &Vec<OnlineSourceConfig>, elapsed: &Vec<Option<u64>>, force: bool) -> (r: Vec<usize>)
    requires
        elapsed.len() == configs.len(),
        !force ==> forall|i: int| 0 <= i < configs.len() ==> #[trigger] spec_effective_interval_hours(configs[i]) * 3600 <= u64::MAX,
    ensures
        forall|k: int| 0 <= k < r.len() ==> r[k] < configs.len(),
        forall|k: int, l: int| 0 <= k < l < r.len() ==> r[k] < r[l],
        forall|i: int| 0 <= i < configs.len() ==> (r@.contains(i as usize) <==> spec_should_fetch(configs[i], elapsed[i], force)),
{
    let mut r: Vec<usize> = Vec::new();
    let n = configs.len();
    let mut i: usize = 0;
    while i < n
        invariant
            i <= n == configs.len() == elapsed.len(),
            !force ==> forall|j: int| 0 <= j < configs.len() ==> #[trigger] spec_effective_interval_hours(configs[j]) * 3600 <= u64::MAX,
            forall|k: int| 0 <= k < r.len() ==> r[k] < i,
            forall|k: int, l: int| 0 <= k < l < r.len() ==> r[k] < r[l],
            forall|j: int| 0 <= j < i ==> (r@.contains(j as usize) <==> spec_should_fetch(configs[j], elapsed[j], force)),
        decreases n - i,
    {
        let c = &configs[i];
        let take = c.enabled && (force || {
            assert(spec_effective_interval_hours(configs[i as int]) * 3600 <= u64::MAX || force);
            is_fetch_due(c, elapsed[i])
        });
        let ghost before = r@;
        if take {
            r.push(i);
        }
        assert forall|j: int| 0 <= j <= i implies (r@.contains(j as usize) <==> spec_should_fetch(configs[j], elapsed[j], force)) by {
            if j < i {
                if r@.contains(j as usize) {
                    let k = choose|k: int| 0 <= k < r@.len() && r@[k] == j as usize;
                    if take && k == before.len() {
                    } else {
                        assert(before[k] == j as usize);
                    }
                }
                if before.contains(j as usize) {
                    let k = choose|k: int| 0 <= k < before.len() && before[k] == j as usize;
                    assert(r@[k] == j as usize);
                }
            } else {
                if take {
                    assert(r@[before.len() as int] == i);
                } else {
                    if r@.contains(j as usize) {
                        let k = choose|k: int| 0 <= k < r@.len() && r@[k] == j as usize;
                        assert(before[k] < i);
                    }
                }
            }
        }
        i = i + 1;
    }
    r
}

/// The result of a fetch that brought `paths`: none when nothing was
/// brought (the stamp is then left alone, so the provider stays due).
pub fn fetch_result(provider: ProviderKind, paths: Vec<String>) -> (r: Option<FetchResult>)
    ensures
        match r {
            Some(f) => paths@.len() > 0 && f.provider@ == spec_provider_name(provider) && f.new_paths@ == paths@,
            None => paths@.len() == 0,
        },
{
    if paths.len() == 0 {
        None
    } else {
        Some(FetchResult { provider: crate::text::owned(provider.name()), new_paths: paths })
    }
}

/// The file name of a directory entry as a string (empty without one).
pub open spec fn entry_name(p: Seq<char>) -> Seq<char> {
    match crate::daemon::spec_file_name(p) {
        Some(f) => f,
        None => Seq::empty(),
    }
}

/// An entry of a download directory that a prune removes: it is neither
/// the `.last_fetch` stamp nor a `.tmp` file in progress, and no path
/// of `keep` names it.
pub open spec fn spec_pruned(p: Seq<char>, keep: Seq<Seq<char>>) -> bool {
    &&& entry_name(p) != ".last_fetch"@
    &&& !crate::text::ends_with(entry_name(p), ".tmp"@)
    &&& forall|k: int| 0 <= k < keep.len() ==> !crate::scanner::path_eq(p, #[trigger] keep[k])
}

pub open spec fn strings_view(v: Seq<String>) -> Seq<Seq<char>> {
    v.map_values(|s: String| s@)
}

/// The entries of a download directory to delete after a fetch that
/// brought `keep`, in the order listed.
pub fn prune_targets(entries: &Vec<String>, keep: &Vec<String>) -> (r: Vec<String>)
    ensures
        strings_view(r@) == strings_view(entries@).filter(|p: Seq<char>| spec_pruned(p, strings_view(keep@))),
{
    let ghost kv = strings_view(keep@);
    let mut keep_comps: Vec<Vec<(u8, String)>> = Vec::new();
    let mut j: usize = 0;
    while j < keep.len()
        invariant
            j <= keep.len(),
            kv == strings_view(keep@),
            keep_comps.len() == j,
            forall|k: int| 0 <= k < j ==> crate::scanner::comps_view(#[trigger] keep_comps[k]@) == crate::scanner::components(kv[k]),
        decreases keep.len() - j,
    {
        keep_comps.push(crate::scanner::path_components(keep[j].as_str()));
        j = j + 1;
    }
    let mut r: Vec<String> = Vec::new();
    let n = entries.len();
    let mut i: usize = 0;
    let ghost ev = strings_view(entries@);
    let ghost pred = |p: Seq<char>| spec_pruned(p, kv);
    while i < n
        invariant
            i <= n == entries.len(),
            ev == strings_view(entries@),
            kv == strings_view(keep@),
            pred == (|p: Seq<char>| spec_pruned(p, kv)),
            keep_comps.len() == keep.len(),
            forall|k: int| 0 <= k < keep.len() ==> crate::scanner::comps_view(#[trigger] keep_comps[k]@) == crate::scanner::components(kv[k]),
            strings_view(r@) == ev.take(i as int).filter(pred),
        decreases n - i,
    {
        let p = &entries[i];
        let c = crate::scanner::path_components(p.as_str());
        let k = c.len();
        let name = if k > 0 && c[k - 1].0 == 3 {
            assert(crate::scanner::comps_view(c@).last() == (c@[k - 1].0 as int, c@[k - 1].1@));
            c[k - 1].1.clone()
        } else {
            String::new()
        };
        assert(name@ == entry_name(p@));
        let special = crate::text::str_eq(name.as_str(), ".last_fetch") || crate::text::str_ends_with(name.as_str(), ".tmp");
        let mut kept = false;
        let mut m: usize = 0;
        while m < keep_comps.len()
            invariant
                m <= keep_comps.len() == keep.len(),
                kv == strings_view(keep@),
                forall|q: int| 0 <= q < keep.len() ==> crate::scanner::comps_view(#[trigger] keep_comps[q]@) == crate::scanner::components(kv[q]),
                crate::scanner::comps_view(c@) == crate::scanner::components(p@),
                kept <==> exists|q: int| 0 <= q < m && crate::scanner::path_eq(p@, #[trigger] kv[q]),
            decreases keep_comps.len() - m,
        {
            if crate::scanner::same_components(&c, &keep_comps[m]) {
                assert(crate::scanner::path_eq(p@, kv[m as int]));
                kept = true;
            }
            m = m + 1;
        }
        proof {
            if !kept {
                assert forall|q: int| 0 <= q < kv.len() implies !crate::scanner::path_eq(p@, #[trigger] kv[q]) by {
                    assert(q < m);
                }
            }
            reveal(Seq::filter);
            assert(ev.take(i + 1).drop_last() =~= ev.take(i as int));
            assert(ev.take(i + 1).last() == p@);
        }
        if !special && !kept {
            r.push(p.clone());
            assert(strings_view(r@) =~= strings_view(r@.drop_last()).push(p@));
        }
        i = i + 1;
    }
    assert(ev.take(n as int) =~= ev);
    r
}

// ---- Downloads -----------------------------------------------------------

/// The largest download accepted, in bytes, whatever the server claims.
pub const MAX_BYTES: u64 = 50 * 1024 * 1024;

/// The most redirects followed for one request.
pub const MAX_REDIRECTS: usize = 5;

/// What `url::Url::parse` followed by `host_str` gives for a string:
/// `None` when it does not parse as an absolute URL, `Some(None)` when the
/// URL has no host, `Some(Some(h))` with the host as written in the URL
/// (an IPv6 literal in brackets).
pub uninterp spec fn url_host(url: Seq<char>) -> Option<Option<Seq<char>>>;

pub open spec fn opt_string_view(o: Option<String>) -> Option<Seq<char>> {
    match o {
        Some(s) => Some(s@),
        None => None,
    }
}

/// `url::Url::parse(url)`, then `host_str()` of the parsed URL. The
/// contract names the result (`url_host`) and claims nothing more.
#[verifier::external_body]
fn parsed_url_host(url: &str) -> (r: Option<Option<String>>)
    ensures
        match r {
            Some(h) => url_host(url@) == Some(opt_string_view(h)),
            None => url_host(url@) is None,
        },
{
    match url::Url::parse(url) {
        Ok(u) => Some(u.host_str().map(|h| h.to_string())),
        Err(_) => None,
    }
}

/// Why a download was refused or failed in this library's checks.
#[derive(Debug, Clone, PartialEq, Eq)]
pub enum DownloadError {
    /// The URL does not parse.
    InvalidUrl,
    /// The URL's host is internal; no connection is made.
    PrivateHost(String),
    /// The server answered with a status outside 200..=299.
    HttpStatus(u16),
    /// After redirects, the response came from an internal host.
    PrivateFinalHost(String),
    /// An HTML or JSON error page instead of an image (the lower-cased
    /// Content-Type).
    UnexpectedContentType(String),
    /// Content-Length claims more than [`MAX_BYTES`].
    TooLargeClaimed(u64),
    /// More than [`MAX_BYTES`] arrived.
    TooLarge,
}

/// The refusal before connecting, on what parsing the URL gave: `None`
/// to go on, `Some(None)` for a URL that does not parse, `Some(Some(h))`
/// for an internal host `h`.
pub open spec fn request_refusal(parsed: Option<Option<Seq<char>>>) -> Option<Option<Seq<char>>> {
    match parsed {
        None => Some(None),
        Some(Some(h)) => if spec_is_private_host(h) {
            Some(Some(h))
        } else {
            None
        },
        Some(None) => None,
    }
}

pub open spec fn request_check_matches(r: Result<(), DownloadError>, parsed: Option<Option<Seq<char>>>) -> bool {
    match r {
        Ok(()) => request_refusal(parsed) is None,
        Err(DownloadError::InvalidUrl) => request_refusal(parsed) == Some(None::<Seq<char>>),
        Err(DownloadError::PrivateHost(h)) => request_refusal(parsed) == Some(Some(h@)),
        Err(_) => false,
    }
}

/// The check before connecting, on the parsed URL: a URL that does not
/// parse is refused, and so is one whose host is internal.
pub fn judge_request_host(parsed: Option<Option<String>>) -> (r: Result<(), DownloadError>)
    ensures
        request_check_matches(r, match parsed {
            Some(h) => Some(opt_string_view(h)),
            None => None,
        }),
{
    match parsed {
        None => Err(DownloadError::InvalidUrl),
        Some(Some(h)) => if is_private_host(h.as_str()) {
            Err(DownloadError::PrivateHost(h))
        } else {
            Ok(())
        },
        Some(None) => Ok(()),
    }
}

/// The check before connecting to `url`.
pub fn check_request_url(url: &str) -> (r: Result<(), DownloadError>)
    ensures
        request_check_matches(r, url_host(url@)),
{
    judge_request_host(parsed_url_host(url))
}

/// `StatusCode::is_success`: 200..=299.
pub open spec fn spec_status_ok(status: u16) -> bool {
    200 <= status < 300
}

/// The Content-Types that mark an error page rather than an image.
pub open spec fn spec_error_page_type(ct: Seq<char>) -> bool {
    crate::text::starts_with(ct, "text/html"@) || crate::text::starts_with(ct, "application/json"@)
}

pub open spec fn lowered_type(content_type: Option<Seq<char>>) -> Seq<char> {
    crate::text::lower_seq(match content_type {
        Some(c) => c,
        None => Seq::empty(),
    })
}

/// The checks on a response, before its body is read, in this order: the
/// status, the host it finally came from, the Content-Type (missing reads
/// as empty, compared lower-cased), the claimed length.
pub open spec fn response_check_matches(
    r: Result<(), DownloadError>,
    status: u16,
    final_host: Option<Seq<char>>,
    content_type: Option<Seq<char>>,
    content_length: Option<u64>,
) -> bool {
    if !spec_status_ok(status) {
        r == Err::<(), DownloadError>(DownloadError::HttpStatus(status))
    } else if final_host is Some && spec_is_private_host(final_host->0) {
        r matches Err(DownloadError::PrivateFinalHost(h)) && h@ == final_host->0
    } else if spec_error_page_type(lowered_type(content_type)) {
        r matches Err(DownloadError::UnexpectedContentType(t)) && t@ == lowered_type(content_type)
    } else if content_length is Some && content_length->0 > MAX_BYTES {
        r == Err::<(), DownloadError>(DownloadError::TooLargeClaimed(content_length->0))
    } else {
        r is Ok
    }
}

/// Checks a response before its body is read: `status` its status code,
/// `final_host` the host of its URL after redirects, `content_type` its
/// Content-Type header as text, `content_length` what it claims.
pub fn check_response(
    status: u16,
    final_host: Option<String>,
    content_type: Option<String>,
    content_length: Option<u64>,
) -> (r: Result<(), DownloadError>)
    ensures
        response_check_matches(r, status, opt_string_view(final_host), opt_string_view(content_type), content_length),
{
    if !(200 <= status && status < 300) {
        return Err(DownloadError::HttpStatus(status));
    }
    if let Some(h) = final_host {
        if is_private_host(h.as_str()) {
            return Err(DownloadError::PrivateFinalHost(h));
        }
    }
    let ct = match &content_type {
        Some(c) => crate::text::ascii_lower(c.as_str()),
        None => String::new(),
    };
    assert(ct@ == lowered_type(opt_string_view(content_type))) by {
        if content_type is None {
            assert(crate::text::lower_seq(Seq::<char>::empty()) =~= Seq::<char>::empty());
        }
    }
    if crate::text::str_starts_with(ct.as_str(), "text/html") || crate::text::str_starts_with(ct.as_str(), "application/json") {
        return Err(DownloadError::UnexpectedContentType(ct));
    }
    if let Some(len) = content_length {
        if len > MAX_BYTES {
            return Err(DownloadError::TooLargeClaimed(len));
        }
    }
    Ok(())
}

/// Counts a chunk of the body: the new total (saturating), or
/// `TooLarge` once the total passes [`MAX_BYTES`].
pub fn add_received(received: u64, chunk_len: u64) -> (r: Result<u64, DownloadError>)
    ensures
        ({
            let total = if received + chunk_len > u64::MAX {
                u64::MAX as int
            } else {
                received + chunk_len
            };
            match r {
                Ok(t) => t == total && total <= MAX_BYTES,
                Err(e) => e == DownloadError::TooLarge && total > MAX_BYTES,
            }
        }),
{
    let total = if received > u64::MAX - chunk_len {
        u64::MAX
    } else {
        received + chunk_len
    };
    if total > MAX_BYTES {
        Err(DownloadError::TooLarge)
    } else {
        Ok(total)
    }
}

/// How long to wait after failed attempt `attempt` (counted from 0) before
/// the next one: 2 s, then 4 s; after the third attempt there is none.
pub fn retry_delay_secs(attempt: u32) -> (r: Option<u64>)
    ensures
        r == (if attempt == 0 {
            Some(2u64)
        } else if attempt == 1 {
            Some(4u64)
        } else {
            None::<u64>
        }),
{
    if attempt == 0 {
        Some(2)
    } else if attempt == 1 {
        Some(4)
    } else {
        None
    }
}

/// What the redirect policy does with one redirect.
#[derive(Debug, Clone, PartialEq, Eq)]
pub enum RedirectDecision {
    Follow,
    TooMany,
    /// The target's host is internal.
    PrivateHost(String),
}

/// The redirect policy: after `previous` redirects, one to a URL with
/// host `host` is followed unless there were already
/// [`MAX_REDIRECTS`] or the host is internal.
pub fn redirect_decision(previous: usize, host: Option<String>) -> (d: RedirectDecision)
    ensures
        if previous >= MAX_REDIRECTS {
            d == RedirectDecision::TooMany
        } else if host is Some && spec_is_private_host(host->0@) {
            d matches RedirectDecision::PrivateHost(h) && h@ == host->0@
        } else {
            d == RedirectDecision::Follow
        },
{
    if previous >= MAX_REDIRECTS {
        return RedirectDecision::TooMany;
    }
    match host {
        Some(h) => if is_private_host(h.as_str()) {
            RedirectDecision::PrivateHost(h)
        } else {
            RedirectDecision::Follow
        },
        None => RedirectDecision::Follow,
    }
}

/// An address that a host name resolved to.
#[derive(Debug, Clone, Copy, PartialEq, Eq)]
pub enum IpAddress {
    V4([u8; 4]),
    V6([u16; 8]),
}

pub open spec fn spec_is_private_ip(a: IpAddress) -> bool {
    match a {
        IpAddress::V4(o) => internal_ipv4(o@),
        IpAddress::V6(g) => internal_ipv6(g@),
    }
}

/// The refusal of the resolver before any lookup: a host that is internal
/// by its text (`localhost`, an internal IP literal) is not looked up.
pub fn resolver_refusal(host: &str) -> (r: Option<String>)
    ensures
        match r {
            Some(m) => spec_is_private_host(host@) && m@ == "refusing private host "@ + host@,
            None => !spec_is_private_host(host@),
        },
{
    if is_private_host(host) {
        let mut m = crate::text::owned("refusing private host ");
        crate::text::push_str(&mut m, host);
        Some(m)
    } else {
        None
    }
}

/// The first internal address among those a host resolved to; the
/// resolver refuses the host if there is one, so that a public name
/// cannot lead to an internal address.
pub fn first_private_address(addrs: &Vec<IpAddress>) -> (r: Option<usize>)
    ensures
        match r {
            Some(i) => i < addrs.len() && spec_is_private_ip(addrs[i as int]) && forall|j: int|
                0 <= j < i ==> !spec_is_private_ip(#[trigger] addrs[j]),
            None => forall|j: int| 0 <= j < addrs.len() ==> !spec_is_private_ip(#[trigger] addrs[j]),
        },
{
    let mut i: usize = 0;
    while i < addrs.len()
        invariant
            i <= addrs.len(),
            forall|j: int| 0 <= j < i ==> !spec_is_private_ip(#[trigger] addrs[j]),
        decreases addrs.len() - i,
    {
        let private = match &addrs[i] {
            IpAddress::V4(o) => is_private_ipv4(o),
            IpAddress::V6(g) => is_private_ipv6(g),
        };
        if private {
            return Some(i);
        }
        i = i + 1;
    }
    None
}


// ---- One provider's downloads --------------------------------------------

/// The downloads of one fetch, taken in order: an image whose file is
/// already there counts as obtained without a download; one whose
/// download fails is skipped; with a target, the run stops once that many
/// images are available.
pub struct DownloadQueue {
    /// `(url, destination path)` of each candidate.
    items: Vec<(String, String)>,
    next: usize,
    available: Vec<String>,
    target: Option<usize>,
}

impl DownloadQueue {
    pub closed spec fn items_view(self) -> Seq<(Seq<char>, Seq<char>)> {
        self.items@.map_values(|x: (String, String)| (x.0@, x.1@))
    }

    /// How many candidates have been dealt with.
    pub closed spec fn position(self) -> nat {
        self.next as nat
    }

    /// The destination paths obtained so far, in order.
    pub closed spec fn obtained(self) -> Seq<Seq<char>> {
        self.available@.map_values(|s: String| s@)
    }

    pub closed spec fn target_count(self) -> Option<usize> {
        self.target
    }

    pub closed spec fn wf(self) -> bool {
        &&& self.next <= self.items@.len()
        &&& self.available@.len() <= self.next
        &&& (self.target matches Some(t) ==> self.available@.len() <= t)
    }

    /// Whether another candidate is to be tried.
    pub open spec fn spec_pending(self) -> bool {
        &&& self.position() < self.items_view().len()
        &&& (self.target_count() matches Some(t) ==> self.obtained().len() < t)
    }

    /// A queue over `candidates`, `(url, file name)` pairs, whose files go
    /// to `dir`; `target` is the number of images wanted, if any.
    pub fn new(candidates: &Vec<(String, String)>, dir: &str, target: Option<usize>) -> (q: Self)
        ensures
            q.wf(),
            q.position() == 0,
            q.obtained() == Seq::<Seq<char>>::empty(),
            q.target_count() == target,
            q.items_view().len() == candidates@.len(),
            forall|i: int| 0 <= i < candidates@.len() ==> #[trigger] q.items_view()[i] == (
                candidates@[i].0@,
                crate::text::path_join(dir@, candidates@[i].1@),
            ),
    {
        let mut items: Vec<(String, String)> = Vec::new();
        let mut i: usize = 0;
        while i < candidates.len()
            invariant
                i <= candidates.len(),
                items.len() == i,
                forall|k: int| 0 <= k < i ==> (#[trigger] items@[k]).0@ == candidates@[k].0@ && items@[k].1@
                    == crate::text::path_join(dir@, candidates@[k].1@),
            decreases candidates.len() - i,
        {
            let (u, f) = &candidates[i];
            items.push((u.clone(), crate::text::join_path(dir, f.as_str())));
            i = i + 1;
        }
        let q = DownloadQueue { items, next: 0, available: Vec::new(), target };
        assert(q.obtained() =~= Seq::<Seq<char>>::empty());
        q
    }

    /// The next candidate to try, `(url, destination)`, or `None` when the
    /// run is over.
    pub fn next_download(&self) -> (r: Option<(String, String)>)
        requires
            self.wf(),
        ensures
            match r {
                Some((u, d)) => self.spec_pending() && (u@, d@) == self.items_view()[self.position() as int],
                None => !self.spec_pending(),
            },
    {
        if self.next >= self.items.len() {
            return None;
        }
        if let Some(t) = self.target {
            if self.available.len() >= t {
                return None;
            }
        }
        let (u, d) = &self.items[self.next];
        Some((u.clone(), d.clone()))
    }

    /// Records the outcome for the candidate [`next_download`] gave:
    /// `obtained` when its file was already there or its download
    /// succeeded.
    pub fn record(&mut self, obtained: bool)
        requires
            old(self).wf(),
            old(self).spec_pending(),
        ensures
            final(self).wf(),
            final(self).items_view() == old(self).items_view(),
            final(self).target_count() == old(self).target_count(),
            final(self).position() == old(self).position() + 1,
            final(self).obtained() == if obtained {
                old(self).obtained().push(old(self).items_view()[old(self).position() as int].1)
            } else {
                old(self).obtained()
            },
    {
        assert(self.items_view().len() == self.items@.len());
        assert(self.next < self.items.len());
        let n = self.next;
        if obtained {
            let d = self.items[self.next].1.clone();
            self.available.push(d);
            assert(self.available@.map_values(|s: String| s@) =~= old(self).available@.map_values(|s: String| s@).push(d@));
        }
        self.next = n + 1;
    }

    /// The images available at the end of the run.
    pub fn into_available(self) -> (v: Vec<String>)
        ensures
            v@.map_values(|s: String| s@) == self.obtained(),
    {
        self.available
    }
}

/// A queue never holds more obtained images than candidates it has dealt
/// with, nor more than its target.
pub proof fn lemma_queue_bounded(q: DownloadQueue)
    requires
        q.wf(),
    ensures
        q.obtained().len() <= q.position() <= q.items_view().len(),
        q.target_count() matches Some(t) ==> q.obtained().len() <= t,
{
}

/// A forced round fetches every enabled provider, due or not.
pub proof fn lemma_forced_round_takes_every_enabled(cfg: OnlineSourceConfig, elapsed: Option<u64>)
    ensures
        spec_should_fetch(cfg, elapsed, true) == cfg.enabled,
{
}

/// A prune never deletes the stamp, a file in progress, or a file the
/// fetch brought.
pub proof fn lemma_prune_spares_kept(entries: Seq<Seq<char>>, keep: Seq<Seq<char>>, i: int)
    requires
        0 <= i < entries.filter(|p: Seq<char>| spec_pruned(p, keep)).len(),
    ensures
        ({
            let p = entries.filter(|p: Seq<char>| spec_pruned(p, keep))[i];
            &&& entry_name(p) != ".last_fetch"@
            &&& !crate::text::ends_with(entry_name(p), ".tmp"@)
            &&& forall|k: int| 0 <= k < keep.len() ==> !crate::scanner::path_eq(p, #[trigger] keep[k])
        }),
{
    entries.lemma_filter_pred(|p: Seq<char>| spec_pruned(p, keep), i);
}

} // verus!

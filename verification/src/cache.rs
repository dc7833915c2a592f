//! The cache of processed wallpapers.
//!
//! A processed image is stored as `<hex>.jpg` in the cache directory,
//! `<hex>` the lowercase SHA-256 of the key: the source path, the screen
//! width and height, the display mode and the two display settings. When
//! the files of the cache exceed its size limit, the oldest are removed
//! first.
//!
//! Reading and writing files and encoding images are the daemon's; this
//! module names the files and decides what to evict.

use vstd::prelude::*;

use sha2::Digest;

use crate::config::DisplayMode;
use crate::text::{owned, path_join, push_str};

verus! {

/// The cache of processed images.
pub struct Cache {
    /// The cache directory, such as `~/.cache/kabekami`.
    pub directory: String,
    /// The size limit in bytes; 0 for none.
    max_size_bytes: u64,
}

/// What a processed image depends on. The two display settings are
/// floating-point numbers; the key holds their bit patterns, which is
/// what the hash is computed over.
#[derive(Debug, Clone)]
pub struct CacheKey {
    pub src: String,
    pub screen_w: u32,
    pub screen_h: u32,
    pub mode: DisplayMode,
    /// `f32::to_bits` of the blur sigma.
    pub blur_sigma_bits: u32,
    /// `f32::to_bits` of the background darkening.
    pub bg_darken_bits: u32,
}

impl CacheKey {
    pub fn new(src: &str, screen_w: u32, screen_h: u32, mode: DisplayMode, blur_sigma_bits: u32, bg_darken_bits: u32) -> (k: Self)
        ensures
            k.src@ == src@,
            k.screen_w == screen_w,
            k.screen_h == screen_h,
            k.mode == mode,
            k.blur_sigma_bits == blur_sigma_bits,
            k.bg_darken_bits == bg_darken_bits,
    {
        CacheKey { src: owned(src), screen_w, screen_h, mode, blur_sigma_bits, bg_darken_bits }
    }
}

/// `u32::to_le_bytes`.
pub open spec fn le_bytes(x: u32) -> Seq<u8> {
    seq![(x % 256) as u8, (x / 256 % 256) as u8, (x / 65536 % 256) as u8, (x / 16777216) as u8]
}

/// The name that `Debug` prints for a display mode.
pub open spec fn mode_name(m: DisplayMode) -> Seq<char> {
    match m {
        DisplayMode::Fill => "Fill"@,
        DisplayMode::Fit => "Fit"@,
        DisplayMode::Stretch => "Stretch"@,
        DisplayMode::BlurPad => "BlurPad"@,
        DisplayMode::Smart => "Smart"@,
    }
}

/// The bytes the key's hash is computed over: the source path in UTF-8,
/// a zero byte, width and height little-endian, the mode's name, a zero
/// byte, the bits of the two settings little-endian.
pub open spec fn key_message(k: CacheKey) -> Seq<u8> {
    vstd::utf8::encode_utf8(k.src@) + seq![0u8] + le_bytes(k.screen_w) + le_bytes(k.screen_h)
        + vstd::utf8::encode_utf8(mode_name(k.mode)) + seq![0u8] + le_bytes(k.blur_sigma_bits)
        + le_bytes(k.bg_darken_bits)
}

fn mode_str(m: DisplayMode) -> (s: &'static str)
    ensures
        s@ == mode_name(m),
{
    match m {
        DisplayMode::Fill => "Fill",
        DisplayMode::Fit => "Fit",
        DisplayMode::Stretch => "Stretch",
        DisplayMode::BlurPad => "BlurPad",
        DisplayMode::Smart => "Smart",
    }
}

fn push_bytes(v: &mut Vec<u8>, b: &[u8])
    ensures
        final(v)@ == old(v)@ + b@,
{
    let ghost v0 = v@;
    let mut i: usize = 0;
    while i < b.len()
        invariant
            i <= b@.len(),
            v@ == v0 + b@.take(i as int),
        decreases b.len() - i,
    {
        v.push(b[i]);
        assert(b@.take(i + 1) =~= b@.take(i as int).push(b@[i as int]));
        i = i + 1;
    }
    assert(b@.take(b@.len() as int) =~= b@);
}

fn push_le(v: &mut Vec<u8>, x: u32)
    ensures
        final(v)@ == old(v)@ + le_bytes(x),
{
    let ghost v0 = v@;
    v.push((x % 256) as u8);
    v.push((x / 256 % 256) as u8);
    v.push((x / 65536 % 256) as u8);
    v.push((x / 16777216) as u8);
    assert(v@ =~= v0 + le_bytes(x));
}

/// The bytes the hash of `key` is computed over.
pub fn key_bytes(key: &CacheKey) -> (m: Vec<u8>)
    ensures
        m@ == key_message(*key),
{
    let mut m: Vec<u8> = Vec::new();
    push_bytes(&mut m, key.src.as_str().as_bytes());
    m.push(0u8);
    push_le(&mut m, key.screen_w);
    push_le(&mut m, key.screen_h);
    push_bytes(&mut m, mode_str(key.mode).as_bytes());
    m.push(0u8);
    push_le(&mut m, key.blur_sigma_bits);
    push_le(&mut m, key.bg_darken_bits);
    assert(m@ =~= key_message(*key));
    m
}

/// The SHA-256 digest of a message.
pub uninterp spec fn sha256_digest(msg: Seq<u8>) -> Seq<u8>;

/// `<Sha256 as Digest>::digest`: the contract names the digest
/// (`sha256_digest`) and states its length, 32 bytes (the output size of
/// `Sha256`); it claims nothing more of its value.
#[verifier::external_body]
fn sha256(msg: &Vec<u8>) -> (d: Vec<u8>)
    ensures
        d@ == sha256_digest(msg@),
        d@.len() == 32,
{
    sha2::Sha256::digest(msg.as_slice()).to_vec()
}

/// The lowercase hex digit of `n` (below 16).
pub open spec fn hex_digit(n: int) -> char {
    "0123456789abcdef"@[n]
}

/// Each byte as two lowercase hex digits, high first.
pub open spec fn hex_lower(b: Seq<u8>) -> Seq<char>
    decreases b.len(),
{
    if b.len() == 0 {
        Seq::empty()
    } else {
        hex_lower(b.drop_last()) + seq![hex_digit(b.last() as int / 16), hex_digit(b.last() as int % 16)]
    }
}

/// Two hex digits per byte.
pub proof fn lemma_hex_lower_len(b: Seq<u8>)
    ensures
        hex_lower(b).len() == 2 * b.len(),
    decreases b.len(),
{
    if b.len() > 0 {
        lemma_hex_lower_len(b.drop_last());
    }
}

/// Different digits for different values below 16.
proof fn lemma_hex_digit_injective(a: int, b: int)
    requires
        0 <= a < 16,
        0 <= b < 16,
        hex_digit(a) == hex_digit(b),
    ensures
        a == b,
{
    reveal_strlit("0123456789abcdef");
}

/// Two digests of one length with the same hex text are the same digest.
pub proof fn lemma_hex_lower_injective(a: Seq<u8>, b: Seq<u8>)
    requires
        a.len() == b.len(),
        hex_lower(a) == hex_lower(b),
    ensures
        a == b,
    decreases a.len(),
{
    if a.len() > 0 {
        lemma_hex_lower_len(a.drop_last());
        lemma_hex_lower_len(b.drop_last());
        let ha = hex_lower(a);
        let n = ha.len();
        assert(ha[n - 2] == hex_digit(a.last() as int / 16));
        assert(ha[n - 1] == hex_digit(a.last() as int % 16));
        assert(hex_lower(b)[n - 2] == hex_digit(b.last() as int / 16));
        assert(hex_lower(b)[n - 1] == hex_digit(b.last() as int % 16));
        lemma_hex_digit_injective(a.last() as int / 16, b.last() as int / 16);
        lemma_hex_digit_injective(a.last() as int % 16, b.last() as int % 16);
        assert(hex_lower(a.drop_last()) =~= ha.take(n - 2));
        assert(hex_lower(b.drop_last()) =~= hex_lower(b).take(n - 2));
        lemma_hex_lower_injective(a.drop_last(), b.drop_last());
        assert(a =~= a.drop_last().push(a.last()));
        assert(b =~= b.drop_last().push(b.last()));
    }
}

/// In one cache directory, different digests of one length name different
/// files. (That different keys give different digests is what SHA-256 is
/// built for; nothing here can state it.)
pub proof fn lemma_distinct_digests_distinct_files(dir: Seq<char>, a: Seq<u8>, b: Seq<u8>)
    requires
        a.len() == b.len(),
        a != b,
    ensures
        spec_path_for_digest(dir, a) != spec_path_for_digest(dir, b),
{
    reveal_strlit("0123456789abcdef");
    reveal_strlit(".jpg");
    let na = hex_lower(a) + ".jpg"@;
    let nb = hex_lower(b) + ".jpg"@;
    lemma_hex_lower_len(a);
    lemma_hex_lower_len(b);
    if spec_path_for_digest(dir, a) == spec_path_for_digest(dir, b) {
        assert(na[na.len() - 4] == '.');
        if a.len() > 0 {
            assert(na[0] == hex_lower(a)[0]);
            lemma_hex_first_digit(a);
        }
        if b.len() > 0 {
            assert(nb[0] == hex_lower(b)[0]);
            lemma_hex_first_digit(b);
        }
        let pa = spec_path_for_digest(dir, a);
        if dir.len() == 0 || dir.last() == '/' {
            assert(pa.skip(dir.len() as int) =~= na);
            assert(pa.skip(dir.len() as int) =~= nb);
        } else {
            assert(pa.skip(dir.len() as int + 1) =~= na);
            assert(pa.skip(dir.len() as int + 1) =~= nb);
        }
        assert(hex_lower(a) =~= na.take(na.len() - 4));
        assert(hex_lower(b) =~= nb.take(nb.len() - 4));
        lemma_hex_lower_injective(a, b);
    }
}

/// The first character of a non-empty hex text is a hex digit, not `/`.
proof fn lemma_hex_first_digit(a: Seq<u8>)
    requires
        a.len() > 0,
    ensures
        hex_lower(a)[0] != '/',
    decreases a.len(),
{
    reveal_strlit("0123456789abcdef");
    if a.len() == 1 {
        assert(hex_lower(a.drop_last()) =~= Seq::<char>::empty());
        assert(hex_lower(a)[0] == hex_digit(a.last() as int / 16));
    } else {
        lemma_hex_first_digit(a.drop_last());
        lemma_hex_lower_len(a.drop_last());
        assert(hex_lower(a)[0] == hex_lower(a.drop_last())[0]);
    }
}

/// `hex::encode`, which writes each byte as two lowercase hex digits.
#[verifier::external_body]
fn hex_encode(b: &Vec<u8>) -> (s: String)
    ensures
        s@ == hex_lower(b@),
{
    hex::encode(b)
}

/// The cache file of a key whose digest is `digest`.
pub open spec fn spec_path_for_digest(dir: Seq<char>, digest: Seq<u8>) -> Seq<char> {
    path_join(dir, hex_lower(digest) + ".jpg"@)
}

/// `max_size_mb` megabytes in bytes, saturating.
pub open spec fn spec_limit(max_size_mb: u64) -> u64 {
    if max_size_mb * 1048576 > u64::MAX {
        u64::MAX
    } else {
        (max_size_mb * 1048576) as u64
    }
}

impl Cache {
    /// The size limit in bytes (0: none).
    pub closed spec fn limit(self) -> u64 {
        self.max_size_bytes
    }

    /// The cache directory.
    pub closed spec fn dir(self) -> Seq<char> {
        self.directory@
    }

    pub fn new(directory: String, max_size_mb: u64) -> (c: Self)
        ensures
            c.dir() == directory@,
            c.limit() == spec_limit(max_size_mb),
    {
        let max_size_bytes = if max_size_mb > u64::MAX / 1048576 {
            u64::MAX
        } else {
            max_size_mb * 1048576
        };
        Cache { directory, max_size_bytes }
    }

    pub fn max_size_bytes(&self) -> (b: u64)
        ensures
            b == self.limit(),
    {
        self.max_size_bytes
    }

    /// The cache file of the key whose digest is `digest`.
    pub fn path_for_digest(&self, digest: &Vec<u8>) -> (p: String)
        ensures
            p@ == spec_path_for_digest(self.dir(), digest@),
    {
        let mut name = hex_encode(digest);
        push_str(&mut name, ".jpg");
        crate::text::join_path(self.directory.as_str(), name.as_str())
    }

    /// The cache file of `key` (whether it exists is not looked at).
    pub fn path_for(&self, key: &CacheKey) -> (p: String)
        ensures
            p@ == spec_path_for_digest(self.dir(), sha256_digest(key_message(*key))),
            hex_lower(sha256_digest(key_message(*key))).len() == 64,
    {
        let m = key_bytes(key);
        let d = sha256(&m);
        proof {
            lemma_hex_lower_len(d@);
        }
        self.path_for_digest(&d)
    }
}

// ---- Eviction ------------------------------------------------------------

/// Whether a file of the cache directory is a cache file: its extension is
/// `jpg`.
pub fn is_cache_file(path: &str) -> (b: bool)
    ensures
        b == (crate::scanner::extension(path@) == Some("jpg"@)),
{
    match crate::scanner::extension_of(path) {
        Some(e) => crate::text::str_eq(e.as_str(), "jpg"),
        None => false,
    }
}

/// A cache file as the eviction sees it.
#[derive(Debug, Clone)]
pub struct CacheEntry {
    pub path: String,
    pub size: u64,
    /// Modification time, in nanoseconds since the epoch (0 when it cannot
    /// be read).
    pub mtime: u128,
}

/// Entry `i` is older than entry `j`: modified earlier, or at the same
/// time and listed first (the order is a stable sort by time).
pub open spec fn older(es: Seq<CacheEntry>, i: int, j: int) -> bool {
    es[i].mtime < es[j].mtime || (es[i].mtime == es[j].mtime && i < j)
}

/// `order` lists every entry once, oldest first.
pub open spec fn age_order(es: Seq<CacheEntry>, order: Seq<usize>) -> bool {
    &&& order.len() == es.len()
    &&& forall|k: int| 0 <= k < order.len() ==> #[trigger] order[k] < es.len()
    &&& forall|k: int, l: int| 0 <= k < l < order.len() ==> older(es, order[k] as int, order[l] as int)
}

/// The entries by age, oldest first, as indices into `es`.
pub fn order_by_age(es: &Vec<CacheEntry>) -> (order: Vec<usize>)
    ensures
        age_order(es@, order@),
{
    let n = es.len();
    let mut order: Vec<usize> = Vec::new();
    let mut k: usize = 0;
    while k < n
        invariant
            k <= n == es@.len(),
            order@.len() == k,
            forall|a: int| 0 <= a < order@.len() ==> #[trigger] order@[a] < k,
            forall|a: int, b: int| 0 <= a < b < order@.len() ==> older(es@, order@[a] as int, order@[b] as int),
        decreases n - k,
    {
        let t = es[k].mtime;
        let mut j = order.len();
        while j > 0 && es[order[j - 1]].mtime > t
            invariant
                j <= order@.len() == k,
                k < n == es@.len(),
                t == es@[k as int].mtime,
                forall|a: int| 0 <= a < order@.len() ==> #[trigger] order@[a] < k,
                forall|a: int| j <= a < order@.len() ==> es@[#[trigger] order@[a] as int].mtime > t,
            decreases j,
        {
            j = j - 1;
        }
        let ghost before = order@;
        order.insert(j, k);
        proof {
            assert forall|a: int, b: int| 0 <= a < b < order@.len() implies older(es@, order@[a] as int, order@[b] as int) by {
                if b < j {
                    assert(order@[a] == before[a] && order@[b] == before[b]);
                } else if b == j {
                    assert(order@[a] == before[a]);
                    assert(older(es@, before[j - 1] as int, before[a] as int) || a == j - 1 || older(es@, before[a] as int, before[j - 1] as int));
                    if a < j - 1 {
                        assert(older(es@, before[a] as int, before[j - 1] as int));
                    }
                    assert(es@[before[j - 1] as int].mtime <= t);
                } else if a == j {
                    assert(order@[b] == before[b - 1]);
                    assert(es@[before[b - 1] as int].mtime > t);
                } else if a < j {
                    assert(order@[a] == before[a] && order@[b] == before[b - 1]);
                } else {
                    assert(order@[a] == before[a - 1] && order@[b] == before[b - 1]);
                }
            }
        }
        k = k + 1;
    }
    order
}

/// The total size of the entries from position `from` on, in `order`.
pub open spec fn size_from(es: Seq<CacheEntry>, order: Seq<usize>, from: int) -> int
    decreases order.len() - from,
{
    if from >= order.len() || from < 0 {
        0
    } else {
        es[order[from] as int].size + size_from(es, order, from + 1)
    }
}

proof fn lemma_size_from_bound(es: Seq<CacheEntry>, order: Seq<usize>, from: int)
    requires
        0 <= from <= order.len(),
    ensures
        0 <= size_from(es, order, from) <= (order.len() - from) * 0xffff_ffff_ffff_ffffint,
    decreases order.len() - from,
{
    if from < order.len() {
        lemma_size_from_bound(es, order, from + 1);
    }
}

/// The total size of the entries.
pub open spec fn total_size(es: Seq<CacheEntry>) -> int
    decreases es.len(),
{
    if es.len() == 0 {
        0
    } else {
        total_size(es.drop_last()) + es.last().size
    }
}

/// The total size of the entries that `s` lists (by index).
spec fn seq_size(es: Seq<CacheEntry>, s: Seq<usize>) -> int
    decreases s.len(),
{
    if s.len() == 0 {
        0
    } else {
        es[s[0] as int].size + seq_size(es, s.drop_first())
    }
}

proof fn lemma_size_from_seq(es: Seq<CacheEntry>, s: Seq<usize>, f: int)
    requires
        0 <= f <= s.len(),
    ensures
        size_from(es, s, f) == seq_size(es, s.skip(f)),
    decreases s.len() - f,
{
    if f < s.len() {
        lemma_size_from_seq(es, s, f + 1);
        assert(s.skip(f).drop_first() =~= s.skip(f + 1));
    } else {
        assert(s.skip(f) =~= Seq::<usize>::empty());
    }
}

proof fn lemma_seq_size_remove(es: Seq<CacheEntry>, s: Seq<usize>, q: int)
    requires
        0 <= q < s.len(),
    ensures
        seq_size(es, s) == es[s[q] as int].size + seq_size(es, s.remove(q)),
    decreases q,
{
    if q == 0 {
        assert(s.remove(0) =~= s.drop_first());
    } else {
        lemma_seq_size_remove(es, s.drop_first(), q - 1);
        assert(s.drop_first().remove(q - 1) =~= s.remove(q).drop_first());
        assert(s.remove(q)[0] == s[0]);
    }
}

proof fn lemma_seq_size_prefix(es: Seq<CacheEntry>, s: Seq<usize>)
    requires
        es.len() > 0,
        forall|k: int| 0 <= k < s.len() ==> s[k] < es.len() - 1,
    ensures
        seq_size(es, s) == seq_size(es.drop_last(), s),
    decreases s.len(),
{
    if s.len() > 0 {
        lemma_seq_size_prefix(es, s.drop_first());
        assert(es.drop_last()[s[0] as int] == es[s[0] as int]);
    }
}

/// `s` lists each index below `n` once.
spec fn is_perm(s: Seq<usize>, n: int) -> bool {
    &&& s.len() == n
    &&& forall|k: int| 0 <= k < s.len() ==> #[trigger] s[k] < n
    &&& forall|k: int, l: int| 0 <= k < l < s.len() ==> s[k] != s[l]
}

proof fn lemma_perm_onto(s: Seq<usize>, n: int, j: int)
    requires
        is_perm(s, n),
        0 <= j < n,
    ensures
        exists|k: int| 0 <= k < s.len() && s[k] == j,
{
    let si = s.map_values(|v: usize| v as int);
    assert(si.no_duplicates()) by {
        assert forall|k: int, l: int| 0 <= k < si.len() && 0 <= l < si.len() && k != l implies si[k] != si[l] by {
            if k < l {
                assert(s[k] != s[l]);
            } else {
                assert(s[l] != s[k]);
            }
        }
    }
    si.unique_seq_to_set();
    vstd::set_lib::lemma_int_range(0, n);
    let range = vstd::set_lib::set_int_range(0, n);
    assert(si.to_set().subset_of(range)) by {
        assert forall|x: int| si.to_set().contains(x) implies range.contains(x) by {
            let k = choose|k: int| 0 <= k < si.len() && si[k] == x;
            assert(s[k] < n);
        }
    }
    vstd::seq_lib::seq_to_set_is_finite(si);
    vstd::set_lib::lemma_subset_equality(si.to_set(), range);
    assert(range.contains(j));
    assert(si.to_set().contains(j));
    let k = choose|k: int| 0 <= k < si.len() && si[k] == j;
    assert(s[k] == j);
}

proof fn lemma_perm_size(es: Seq<CacheEntry>, s: Seq<usize>)
    requires
        is_perm(s, es.len() as int),
    ensures
        seq_size(es, s) == total_size(es),
    decreases es.len(),
{
    if es.len() == 0 {
        assert(s.len() == 0);
    } else {
        let m = es.len() - 1;
        lemma_perm_onto(s, es.len() as int, m);
        let q = choose|k: int| 0 <= k < s.len() && s[k] == m;
        let r = s.remove(q);
        assert forall|k: int| 0 <= k < r.len() implies #[trigger] r[k] < m by {
            if k < q {
                assert(r[k] == s[k] && s[k] != s[q]);
            } else {
                assert(r[k] == s[k + 1] && s[q] != s[k + 1]);
            }
        }
        assert(is_perm(r, m)) by {
            assert forall|k: int, l: int| 0 <= k < l < r.len() implies r[k] != r[l] by {
                if l < q {
                    assert(r[k] == s[k] && r[l] == s[l]);
                } else if k < q {
                    assert(r[k] == s[k] && r[l] == s[l + 1]);
                } else {
                    assert(r[k] == s[k + 1] && r[l] == s[l + 1]);
                }
            }
        }
        lemma_seq_size_remove(es, s, q);
        lemma_seq_size_prefix(es, r);
        lemma_perm_size(es.drop_last(), r);
    }
}

/// Listing the entries oldest first lists all of them: the sizes offered
/// add up to the size of the cache.
proof fn lemma_age_order_total(es: Seq<CacheEntry>, order: Seq<usize>)
    requires
        age_order(es, order),
    ensures
        size_from(es, order, 0) == total_size(es),
{
    assert(is_perm(order, es.len() as int)) by {
        assert forall|k: int, l: int| 0 <= k < l < order.len() implies order[k] != order[l] by {
            assert(older(es, order[k] as int, order[l] as int));
        }
    }
    lemma_size_from_seq(es, order, 0);
    assert(order.skip(0) =~= order);
    lemma_perm_size(es, order);
}

/// An ordering by age offers every entry.
proof fn lemma_age_order_onto(es: Seq<CacheEntry>, order: Seq<usize>)
    requires
        age_order(es, order),
    ensures
        forall|j: usize| j < es.len() ==> #[trigger] order.contains(j),
{
    assert(is_perm(order, es.len() as int)) by {
        assert forall|k: int, l: int| 0 <= k < l < order.len() implies order[k] != order[l] by {
            assert(older(es, order[k] as int, order[l] as int));
        }
    }
    assert forall|j: usize| j < es.len() implies #[trigger] order.contains(j) by {
        lemma_perm_onto(order, es.len() as int, j as int);
        let k = choose|k: int| 0 <= k < order.len() && order[k] == j;
        assert(order[k] == j);
    }
}

/// One eviction run over the cache files: when they exceed the limit,
/// they are offered for removal oldest first until what remains fits; a
/// removal that fails leaves the total as it was.
pub struct Eviction {
    entries: Vec<CacheEntry>,
    order: Vec<usize>,
    next: usize,
    remaining: u128,
    limit: u64,
    active: bool,
}

impl Eviction {
    pub closed spec fn entries_view(self) -> Seq<CacheEntry> {
        self.entries@
    }

    /// The entries, oldest first, as indices.
    pub closed spec fn order_view(self) -> Seq<usize> {
        self.order@
    }

    /// How many entries have been offered.
    pub closed spec fn position(self) -> int {
        self.next as int
    }

    /// The size of the cache as far as the run knows.
    pub closed spec fn remaining(self) -> u128 {
        self.remaining
    }

    pub closed spec fn limit(self) -> u64 {
        self.limit
    }

    /// Whether the run evicts at all: there is a limit and the files
    /// exceed it.
    pub closed spec fn active(self) -> bool {
        self.active
    }

    pub closed spec fn wf(self) -> bool {
        &&& age_order(self.entries@, self.order@)
        &&& self.next <= self.order@.len()
        &&& self.remaining >= size_from(self.entries@, self.order@, self.next as int)
    }

    pub open spec fn spec_pending(self) -> bool {
        self.active() && self.position() < self.order_view().len() && self.remaining() > self.limit()
    }

    /// The run over `entries`, the cache files, with the size limit
    /// `limit` (0: none).
    pub fn new(limit: u64, entries: Vec<CacheEntry>) -> (e: Self)
        ensures
            e.wf(),
            e.entries_view() == entries@,
            age_order(e.entries_view(), e.order_view()),
            forall|j: usize| j < entries@.len() ==> #[trigger] e.order_view().contains(j),
            e.position() == 0,
            e.remaining() == total_size(entries@),
            e.limit() == limit,
            e.active() == (limit > 0 && total_size(entries@) > limit),
    {
        let order = order_by_age(&entries);
        let n = order.len();
        let mut total: u128 = 0;
        let mut k: usize = n;
        while k > 0
            invariant
                k <= n == order@.len() == entries@.len(),
                age_order(entries@, order@),
                total == size_from(entries@, order@, k as int),
            decreases k,
        {
            proof {
                lemma_size_from_bound(entries@, order@, k as int);
                assert((n - k) * 0xffff_ffff_ffff_ffffint + 0xffff_ffff_ffff_ffffint <= 0xffff_ffff_ffff_ffff_ffff_ffff_ffff_ffffint) by (nonlinear_arith)
                    requires
                        k >= 1,
                        n <= 0xffff_ffff_ffff_ffffint,
                        k <= n,
                ;
            }
            total = total + entries[order[k - 1]].size as u128;
            k = k - 1;
        }
        proof {
            lemma_age_order_total(entries@, order@);
            lemma_age_order_onto(entries@, order@);
        }
        let active = limit > 0 && total > limit as u128;
        Eviction { entries, order, next: 0, remaining: total, limit, active }
    }

    /// The next file to remove, or `None` when the run is over.
    pub fn next_victim(&self) -> (r: Option<String>)
        requires
            self.wf(),
        ensures
            match r {
                Some(p) => self.spec_pending() && p@ == self.entries_view()[self.order_view()[self.position()] as int].path@,
                None => !self.spec_pending(),
            },
    {
        if self.active && self.next < self.order.len() && self.remaining > self.limit as u128 {
            Some(self.entries[self.order[self.next]].path.clone())
        } else {
            None
        }
    }

    /// Records whether removing the file [`next_victim`] gave succeeded.
    pub fn removed(&mut self, ok: bool)
        requires
            old(self).wf(),
            old(self).spec_pending(),
        ensures
            final(self).wf(),
            final(self).entries_view() == old(self).entries_view(),
            final(self).order_view() == old(self).order_view(),
            final(self).limit() == old(self).limit(),
            final(self).active() == old(self).active(),
            final(self).position() == old(self).position() + 1,
            final(self).remaining() == (if ok {
                old(self).remaining() - old(self).entries_view()[old(self).order_view()[old(self).position()] as int].size
            } else {
                old(self).remaining() as int
            }),
    {
        let k = self.next;
        assert(k < self.order.len());
        assert(self.order@[k as int] < self.entries@.len());
        let size = self.entries[self.order[k]].size;
        proof {
            assert(size_from(self.entries@, self.order@, k as int) == size + size_from(self.entries@, self.order@, k + 1));
            lemma_size_from_bound(self.entries@, self.order@, k + 1);
        }
        if ok {
            self.remaining = self.remaining - size as u128;
        }
        self.next = k + 1;
    }
}

/// A run that is over, with a limit that was exceeded, has either brought
/// the cache within the limit or offered every file.
pub proof fn lemma_finished_run_fits(e: Eviction)
    requires
        e.wf(),
        e.active(),
        !e.spec_pending(),
    ensures
        e.remaining() <= e.limit() || e.position() == e.order_view().len(),
{
}

/// The files are offered for eviction oldest first: each file offered
/// later is younger than every one offered before it.
pub proof fn lemma_victims_oldest_first(e: Eviction, k: int, l: int)
    requires
        e.wf(),
        0 <= k < l < e.order_view().len(),
    ensures
        older(e.entries_view(), e.order_view()[k] as int, e.order_view()[l] as int),
{
}


// ---- Single flight -------------------------------------------------------

/// Some element of `s` has the view `p`.
pub open spec fn has_view(s: Seq<String>, p: Seq<char>) -> bool {
    exists|i: int| 0 <= i < s.len() && #[trigger] s[i]@ == p
}

/// `s` without the elements whose view is `p` (the order of the rest is kept).
pub open spec fn drop_view(s: Seq<String>, p: Seq<char>) -> Seq<String>
    decreases s.len(),
{
    if s.len() == 0 {
        s
    } else {
        let rest = drop_view(s.drop_last(), p);
        if s.last()@ == p {
            rest
        } else {
            rest.push(s.last())
        }
    }
}

/// A copy of `v` without the elements whose view equals that of `p`.
fn vec_without(v: &Vec<String>, p: &String) -> (r: Vec<String>)
    ensures
        r@ == drop_view(v@, p@),
{
    let mut r: Vec<String> = Vec::new();
    let n = v.len();
    for i in 0..n
        invariant
            n == v@.len(),
            r@ == drop_view(v@.take(i as int), p@),
    {
        assert(v@.take(i + 1).drop_last() =~= v@.take(i as int));
        if v[i] != *p {
            r.push(v[i].clone());
        }
    }
    assert(v@.take(n as int) =~= v@);
    r
}

/// Every element of `drop_view(s, p)` is an element of `s` whose view is not `p`.
proof fn lemma_drop_view_member(s: Seq<String>, p: Seq<char>, i: int)
    requires
        0 <= i < drop_view(s, p).len(),
    ensures
        drop_view(s, p)[i]@ != p,
        exists|j: int| 0 <= j < s.len() && s[j] == drop_view(s, p)[i],
    decreases s.len(),
{
    let rest = drop_view(s.drop_last(), p);
    if s.last()@ == p {
        lemma_drop_view_member(s.drop_last(), p, i);
        let j = choose|j: int| 0 <= j < s.drop_last().len() && s.drop_last()[j] == rest[i];
        assert(s[j] == s.drop_last()[j]);
    } else {
        if i < rest.len() {
            lemma_drop_view_member(s.drop_last(), p, i);
            let j = choose|j: int| 0 <= j < s.drop_last().len() && s.drop_last()[j] == rest[i];
            assert(s[j] == s.drop_last()[j]);
        } else {
            assert(s[s.len() - 1] == drop_view(s, p)[i]);
        }
    }
}

/// A view other than `p` that occurs in `s` still occurs in `drop_view(s, p)`.
proof fn lemma_drop_view_keeps(s: Seq<String>, p: Seq<char>, x: Seq<char>)
    requires
        has_view(s, x),
        x != p,
    ensures
        has_view(drop_view(s, p), x),
    decreases s.len(),
{
    let rest = drop_view(s.drop_last(), p);
    let i = choose|i: int| 0 <= i < s.len() && #[trigger] s[i]@ == x;
    if i < s.len() - 1 {
        assert(s.drop_last()[i] == s[i]);
        lemma_drop_view_keeps(s.drop_last(), p, x);
        let k = choose|k: int| 0 <= k < rest.len() && #[trigger] rest[k]@ == x;
        if s.last()@ != p {
            assert(drop_view(s, p)[k] == rest[k]);
        }
    } else {
        assert(drop_view(s, p) == rest.push(s.last()));
        assert(drop_view(s, p)[rest.len() as int]@ == x);
    }
}


/// The cache files being made right now. Applying a wallpaper and
/// prefetching share the cache, and one output is made by one of them at a
/// time: the first to claim it makes it, the others wait for its release
/// and then look in the cache again.
pub struct Claims {
    held: Vec<String>,
}

impl Claims {
    /// The outputs claimed and not released.
    pub closed spec fn held(self) -> Set<Seq<char>> {
        Set::new(|x: Seq<char>| has_view(self.held@, x))
    }

    pub fn new() -> (c: Self)
        ensures
            c.held() == Set::<Seq<char>>::empty(),
    {
        let c = Claims { held: Vec::new() };
        assert(c.held() =~= Set::<Seq<char>>::empty());
        c
    }

    /// Claims `out`: `true` when the caller is to make it, `false` when
    /// someone else holds it.
    pub fn claim(&mut self, out: &str) -> (owned: bool)
        ensures
            owned == !old(self).held().contains(out@),
            final(self).held() == old(self).held().insert(out@),
    {
        let o = owned(out);
        let mut i: usize = 0;
        while i < self.held.len()
            invariant
                i <= self.held@.len(),
                o@ == out@,
                forall|k: int| 0 <= k < i ==> (#[trigger] self.held@[k])@ != out@,
            decreases self.held.len() - i,
        {
            if crate::text::str_eq(self.held[i].as_str(), out) {
                assert(self.held().contains(out@));
                assert(self.held() =~= self.held().insert(out@));
                return false;
            }
            i = i + 1;
        }
        let ghost before = self.held@;
        self.held.push(o);
        assert(self.held() =~= old(self).held().insert(out@)) by {
            assert forall|x: Seq<char>| #[trigger] self.held().contains(x) <==> old(self).held().insert(out@).contains(x) by {
                if has_view(self.held@, x) && x != out@ {
                    let k = choose|k: int| 0 <= k < self.held@.len() && #[trigger] self.held@[k]@ == x;
                    assert(before[k]@ == x);
                }
                if has_view(before, x) {
                    let k = choose|k: int| 0 <= k < before.len() && #[trigger] before[k]@ == x;
                    assert(self.held@[k]@ == x);
                }
                if x == out@ {
                    assert(self.held@[before.len() as int]@ == x);
                }
            }
        }
        true
    }

    /// Releases `out` once its maker is done (or failed, or was
    /// cancelled): waiting callers look in the cache again.
    pub fn release(&mut self, out: &str)
        ensures
            final(self).held() == old(self).held().remove(out@),
    {
        let o = owned(out);
        let ghost before = self.held@;
        self.held = vec_without(&self.held, &o);
        assert(self.held() =~= old(self).held().remove(out@)) by {
            assert forall|x: Seq<char>| #[trigger] self.held().contains(x) <==> old(self).held().remove(out@).contains(x) by {
                if has_view(self.held@, x) {
                    let k = choose|k: int| 0 <= k < self.held@.len() && #[trigger] self.held@[k]@ == x;
                    lemma_drop_view_member(before, out@, k);
                    let j = choose|j: int| 0 <= j < before.len() && before[j] == self.held@[k];
                    assert(before[j]@ == x);
                }
                if has_view(before, x) && x != out@ {
                    lemma_drop_view_keeps(before, out@, x);
                }
            }
        }
    }
}

/// One output has one maker at a time: once claimed, a claim of the same
/// output is refused until it is released, and after the release the next
/// claim succeeds.
pub proof fn lemma_one_maker_per_output(c0: Claims, c1: Claims, c2: Claims, out: Seq<char>)
    requires
        c1.held() == c0.held().insert(out),
        c2.held() == c1.held().remove(out),
    ensures
        c1.held().contains(out),
        !c2.held().contains(out),
{
}

} // verus!

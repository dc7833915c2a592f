//! The list of local wallpapers: image files found under the configured
//! directories, in path order and without repeats.
//!
//! The daemon walks the directories (descending into subdirectories when
//! `recursive` is set; missing directories are skipped with a warning) and
//! hands the file paths it met to `scan`.

use vstd::prelude::*;

use crate::text::{
    chars_of, class_fn, eq_ignore_case, lower_seq, pieces, range_eq_ignore_case, range_texts,
    ranges_within, split_by, CharClass,
};
use crate::i18n::text_less;

verus! {

/// Index of the last `/` of `s`, or -1.
pub open spec fn last_slash(s: Seq<char>) -> int
    decreases s.len(),
{
    if s.len() == 0 {
        -1
    } else if s.last() == '/' {
        s.len() - 1
    } else {
        last_slash(s.drop_last())
    }
}

/// Index of the last `.` of `s`, or -1.
pub open spec fn last_dot_of(s: Seq<char>) -> int
    decreases s.len(),
{
    if s.len() == 0 {
        -1
    } else if s.last() == '.' {
        s.len() - 1
    } else {
        last_dot_of(s.drop_last())
    }
}

/// `Path::extension` of a path that does not end with `/`: what follows
/// the last `.` of the file name, unless that dot starts the name.
pub open spec fn extension(p: Seq<char>) -> Option<Seq<char>> {
    let name = p.skip(last_slash(p) + 1);
    let d = last_dot_of(name);
    if d > 0 {
        Some(name.skip(d + 1))
    } else {
        None
    }
}

/// Extensions of the supported image formats (compared without regard
/// to ASCII case); bmp, tiff and gif are not supported.
pub open spec fn image_extensions() -> Seq<Seq<char>> {
    seq!["jpg"@, "jpeg"@, "png"@, "webp"@, "avif"@]
}

pub open spec fn spec_is_image(p: Seq<char>) -> bool {
    match extension(p) {
        Some(e) => exists|i: int| 0 <= i < image_extensions().len() && eq_ignore_case(
            #[trigger] image_extensions()[i],
            e,
        ),
        None => false,
    }
}

fn last_index_of(v: &Vec<char>, start: usize, end: usize, c: char) -> (r: usize)
    requires
        start <= end <= v@.len(),
    ensures
        start <= r <= end,
        r > start ==> v@[r - 1] == c,
        forall|j: int| r <= j < end ==> v@[j] != c,
{
    let mut i = end;
    while i > start && v[i - 1] != c
        invariant
            start <= i <= end <= v@.len(),
            forall|j: int| i <= j < end ==> v@[j] != c,
        decreases i - start,
    {
        i = i - 1;
    }
    i
}

proof fn lemma_last_of(s: Seq<char>, c: char, k: int)
    requires
        0 <= k <= s.len(),
        k > 0 ==> s[k - 1] == c,
        forall|j: int| k <= j < s.len() ==> s[j] != c,
    ensures
        c == '/' ==> last_slash(s) == k - 1,
        c == '.' ==> last_dot_of(s) == k - 1,
    decreases s.len(),
{
    if s.len() > k {
        assert(s.last() != c);
        assert forall|j: int| k <= j < s.drop_last().len() implies s.drop_last()[j] != c by {
            assert(s.drop_last()[j] == s[j]);
        }
        if k > 0 {
            assert(s.drop_last()[k - 1] == s[k - 1]);
        }
        lemma_last_of(s.drop_last(), c, k);
    } else if s.len() > 0 {
        assert(s.last() == s[k - 1]);
    }
}

/// `Path::extension` of `path` (a path that does not end with `/`).
pub fn extension_of(path: &str) -> (r: Option<String>)
    ensures
        match r {
            Some(e) => extension(path@) == Some(e@),
            None => extension(path@) is None,
        },
{
    let v = chars_of(path);
    let n = v.len();
    let s = last_index_of(&v, 0, n, '/');
    proof {
        lemma_last_of(path@, '/', s as int);
    }
    let ghost name = path@.skip(s as int);
    let d = last_index_of(&v, s, n, '.');
    proof {
        assert forall|j: int| d - s <= j < name.len() implies name[j] != '.' by {
            assert(name[j] == v@[s + j]);
        }
        if d > s {
            assert(name[d - s - 1] == v@[d - 1]);
        }
        lemma_last_of(name, '.', d - s);
    }
    if d - s <= 1 {
        return None;
    }
    assert(name.skip(d - s) =~= path@.skip(d as int));
    Some(crate::text::suffix_from(path, d))
}

/// Whether the file `path` is an image, by its extension.
pub fn is_image(path: &str) -> (b: bool)
    ensures
        b == spec_is_image(path@),
{
    let v = chars_of(path);
    let n = v.len();
    let s = last_index_of(&v, 0, n, '/');
    proof {
        lemma_last_of(path@, '/', s as int);
    }
    let ghost name = path@.skip(s as int);
    let d = last_index_of(&v, s, n, '.');
    proof {
        assert forall|j: int| d - s <= j < name.len() implies name[j] != '.' by {
            assert(name[j] == v@[s + j]);
        }
        if d > s {
            assert(name[d - s - 1] == v@[d - 1]);
        }
        lemma_last_of(name, '.', d - s);
    }
    if d - s <= 1 {
        return false;
    }
    let ghost ext = name.skip(d - s);
    assert(ext =~= v@.subrange(d as int, n as int));
    assert(extension(path@) == Some(ext));
    let exts = ["jpg", "jpeg", "png", "webp", "avif"];
    let mut i: usize = 0;
    while i < 5
        invariant
            i <= 5,
            ext == v@.subrange(d as int, n as int),
            extension(path@) == Some(ext),
            d <= n == v@.len(),
            forall|k: int| 0 <= k < 5 ==> (#[trigger] exts@[k])@ == image_extensions()[k],
            forall|k: int| 0 <= k < i ==> !eq_ignore_case(#[trigger] image_extensions()[k], ext),
        decreases 5 - i,
    {
        let e = chars_of(exts[i]);
        if range_eq_ignore_case(&v, d, n, &e) {
            assert(eq_ignore_case(image_extensions()[i as int], ext));
            return true;
        }
        i = i + 1;
    }
    false
}

// ---- path order --------------------------------------------------------------

/// A path component as `(rank, text)`: the root (0), a leading `.` (1),
/// `..` (2) or a name (3, with its text); `Path`'s components compare in
/// this order, names by their characters.
pub open spec fn component(seg: Seq<char>) -> (int, Seq<char>) {
    if seg == ".."@ {
        (2, Seq::empty())
    } else {
        (3, seg)
    }
}

/// The named components of `segs`: empty pieces and `.` are dropped.
pub open spec fn named(segs: Seq<Seq<char>>) -> Seq<(int, Seq<char>)>
    decreases segs.len(),
{
    if segs.len() == 0 {
        Seq::empty()
    } else if segs[0].len() == 0 || segs[0] == "."@ {
        named(segs.skip(1))
    } else {
        seq![component(segs[0])] + named(segs.skip(1))
    }
}

/// `Path::components`: the root when the path starts with `/`, a leading
/// `.` when it starts with one, then its named components; repeated and
/// trailing separators and inner `.` do not count.
pub open spec fn components(p: Seq<char>) -> Seq<(int, Seq<char>)> {
    let segs = split_by(p, class_fn(CharClass::Slash));
    let head: Seq<(int, Seq<char>)> = if p.len() > 0 && p[0] == '/' {
        seq![(0int, Seq::<char>::empty())]
    } else if segs[0] == "."@ {
        seq![(1int, Seq::<char>::empty())]
    } else {
        Seq::empty()
    };
    head + named(segs)
}

pub open spec fn component_less(a: (int, Seq<char>), b: (int, Seq<char>)) -> bool {
    a.0 < b.0 || (a.0 == b.0 && text_less(a.1, b.1))
}

/// Lexicographic order of component sequences.
pub open spec fn components_less(a: Seq<(int, Seq<char>)>, b: Seq<(int, Seq<char>)>) -> bool
    decreases a.len(),
{
    if a.len() == 0 {
        b.len() > 0
    } else if b.len() == 0 {
        false
    } else if a[0] != b[0] {
        component_less(a[0], b[0])
    } else {
        components_less(a.drop_first(), b.drop_first())
    }
}

/// `PathBuf`'s order.
pub open spec fn path_less(a: Seq<char>, b: Seq<char>) -> bool {
    components_less(components(a), components(b))
}

/// `PathBuf`'s equality.
pub open spec fn path_eq(a: Seq<char>, b: Seq<char>) -> bool {
    components(a) == components(b)
}


proof fn lemma_components_less_total(a: Seq<(int, Seq<char>)>, b: Seq<(int, Seq<char>)>)
    ensures
        a != b ==> components_less(a, b) || components_less(b, a),
        !(components_less(a, b) && components_less(b, a)),
        !components_less(a, a),
    decreases a.len(),
{
    if a.len() > 0 {
        lemma_components_less_total(a.drop_first(), a.drop_first());
    }
    if a.len() > 0 && b.len() > 0 {
        lemma_components_less_total(a.drop_first(), b.drop_first());
        crate::i18n::lemma_text_less_total(a[0].1, b[0].1);
        if a[0] == b[0] && a.drop_first() == b.drop_first() {
            assert forall|i: int| 0 <= i < a.len() implies a[i] == b[i] by {
                if i > 0 {
                    assert(a[i] == a.drop_first()[i - 1]);
                    assert(b[i] == b.drop_first()[i - 1]);
                }
            }
            assert(a =~= b);
        }
        if a[0] != b[0] && a[0].0 == b[0].0 {
            assert(a[0].1 != b[0].1);
        }
    } else if a.len() == 0 && b.len() == 0 {
        assert(a =~= b);
    }
}

proof fn lemma_components_less_trans(a: Seq<(int, Seq<char>)>, b: Seq<(int, Seq<char>)>, c: Seq<(int, Seq<char>)>)
    requires
        components_less(a, b),
        components_less(b, c),
    ensures
        components_less(a, c),
    decreases a.len(),
{
    if a.len() > 0 && b.len() > 0 && c.len() > 0 {
        if a[0] == b[0] && b[0] == c[0] {
            lemma_components_less_trans(a.drop_first(), b.drop_first(), c.drop_first());
        } else {
            if a[0] != b[0] && b[0] != c[0] && a[0].0 == b[0].0 && b[0].0 == c[0].0 {
                crate::i18n::lemma_text_less_trans(a[0].1, b[0].1, c[0].1);
            }
            if a[0] == c[0] {
                crate::i18n::lemma_text_less_total(a[0].1, b[0].1);
            }
        }
    }
}

/// The components of a path, as exec values.
pub fn path_components(p: &str) -> (r: Vec<(u8, String)>)
    ensures
        r@.map_values(|c: (u8, String)| (c.0 as int, c.1@)) == components(p@),
{
    let v = chars_of(p);
    let n = v.len();
    assert(v@.subrange(0, n as int) =~= p@);
    let rs = pieces(&v, 0, n, CharClass::Slash);
    let ghost segs = range_texts(v@, rs@);
    let dot = chars_of(".");
    let dotdot = chars_of("..");
    proof {
        reveal_strlit(".");
        reveal_strlit("..");
    }
    let mut out: Vec<(u8, String)> = Vec::new();
    let (a0, b0) = rs[0];
    assert(rs@[0] == (a0, b0));
    if n > 0 && v[0] == '/' {
        out.push((0, String::new()));
    } else if b0 - a0 == 1 && v[a0] == '.' {
        assert(segs[0] =~= "."@);
        out.push((1, String::new()));
    } else {
        proof {
            if segs[0] == "."@ {
                assert(segs[0][0] == v@[a0 as int]);
            }
        }
    }
    let ghost head = out@.map_values(|c: (u8, String)| (c.0 as int, c.1@));
    let m = rs.len();
    let mut i: usize = 0;
    assert(segs.skip(0) =~= segs);
    assert(head + Seq::<(int, Seq<char>)>::empty() =~= head);
    while i < m
        invariant
            i <= m == rs@.len(),
            segs == range_texts(v@, rs@),
            ranges_within(rs@, 0, v@.len() as int),
            dot@ == "."@,
            dotdot@ == ".."@,
            components(p@) == head + named(segs),
            out@.map_values(|c: (u8, String)| (c.0 as int, c.1@)) + named(segs.skip(i as int)) == head + named(
                segs,
            ),
        decreases m - i,
    {
        let (a, b) = rs[i];
        assert(rs@[i as int] == (a, b));
        let ghost seg = v@.subrange(a as int, b as int);
        let ghost rest = segs.skip(i as int);
        assert(rest[0] == seg);
        assert(rest.skip(1) =~= segs.skip(i + 1));
        let ghost before = out@.map_values(|c: (u8, String)| (c.0 as int, c.1@));
        let is_dot = crate::text::range_starts_with(&v, a, b, &dot) && b - a == 1;
        proof {
            reveal_strlit(".");
            reveal_strlit("..");
            if is_dot {
                assert(seg =~= "."@);
            } else if seg == "."@ {
                assert(seg.take(1) =~= seg);
            }
        }
        if b > a && !is_dot {
            let is_dotdot = crate::text::range_starts_with(&v, a, b, &dotdot) && b - a == 2;
            proof {
                reveal_strlit("..");
                if is_dotdot {
                    assert(seg =~= ".."@);
                } else if seg == ".."@ {
                    assert(seg.take(2) =~= seg);
                }
            }
            if is_dotdot {
                out.push((2, String::new()));
            } else {
                let t = crate::text::string_of(crate::text::slice_of(&v, a, b).as_slice());
                out.push((3, t));
            }
            assert(out@.map_values(|c: (u8, String)| (c.0 as int, c.1@)) =~= before.push(component(seg)));
            assert(named(rest) == seq![component(seg)] + named(rest.skip(1)));
            assert(before.push(component(seg)) + named(rest.skip(1)) =~= before + (seq![component(seg)] + named(
                rest.skip(1),
            )));
        } else {
            assert(named(rest) == named(rest.skip(1)));
        }
        i = i + 1;
    }
    assert(named(segs.skip(m as int)) == Seq::<(int, Seq<char>)>::empty());
    let ghost fin = out@.map_values(|c: (u8, String)| (c.0 as int, c.1@));
    assert(fin + Seq::<(int, Seq<char>)>::empty() =~= fin);
    out
}

pub open spec fn comps_view(c: Seq<(u8, String)>) -> Seq<(int, Seq<char>)> {
    c.map_values(|x: (u8, String)| (x.0 as int, x.1@))
}

fn components_before(a: &Vec<(u8, String)>, b: &Vec<(u8, String)>) -> (r: bool)
    ensures
        r == components_less(comps_view(a@), comps_view(b@)),
{
    let ghost av = comps_view(a@);
    let ghost bv = comps_view(b@);
    let mut i: usize = 0;
    assert(av.skip(0) =~= av);
    assert(bv.skip(0) =~= bv);
    while i < a.len() && i < b.len() && a[i].0 == b[i].0 && crate::text::str_eq(a[i].1.as_str(), b[i].1.as_str())
        invariant
            i <= a@.len(),
            i <= b@.len(),
            av == comps_view(a@),
            bv == comps_view(b@),
            components_less(av, bv) == components_less(av.skip(i as int), bv.skip(i as int)),
        decreases a@.len() - i,
    {
        assert(av.skip(i as int)[0] == bv.skip(i as int)[0]);
        assert(av.skip(i as int).drop_first() =~= av.skip(i + 1));
        assert(bv.skip(i as int).drop_first() =~= bv.skip(i + 1));
        i = i + 1;
    }
    if i == a.len() {
        i < b.len()
    } else if i == b.len() {
        false
    } else {
        assert(av.skip(i as int)[0] == av[i as int]);
        assert(bv.skip(i as int)[0] == bv[i as int]);
        if a[i].0 != b[i].0 {
            a[i].0 < b[i].0
        } else {
            let an = crate::i18n::text_before(&a[i].1, &b[i].1);
            an
        }
    }
}

/// `ps` is strictly increasing in path order.
pub open spec fn path_sorted(ps: Seq<Seq<char>>) -> bool {
    forall|i: int, j: int| 0 <= i < j < ps.len() ==> path_less(ps[i], ps[j])
}

/// The image files of `found` in path order, each path once (paths that
/// name the same file by `Path`'s equality count once).
pub open spec fn scanned(found: Seq<Seq<char>>, r: Seq<Seq<char>>) -> bool {
    &&& path_sorted(r)
    &&& forall|i: int| 0 <= i < r.len() ==> found.contains(#[trigger] r[i]) && spec_is_image(r[i])
    &&& forall|k: int|
        0 <= k < found.len() && spec_is_image(#[trigger] found[k]) ==> exists|i: int|
            0 <= i < r.len() && path_eq(#[trigger] r[i], found[k])
}

/// The local wallpapers among the files that the walk of the source
/// directories met: the images, in path order, without repeats.
pub fn scan(found: &Vec<String>) -> (r: Vec<String>)
    ensures
        scanned(found@.map_values(|s: String| s@), r@.map_values(|s: String| s@)),
{
    let ghost fv = found@.map_values(|s: String| s@);
    let mut out: Vec<String> = Vec::new();
    let mut keys: Vec<Vec<(u8, String)>> = Vec::new();
    let n = found.len();
    let mut i: usize = 0;
    while i < n
        invariant
            i <= n == found@.len(),
            fv == found@.map_values(|s: String| s@),
            keys@.len() == out@.len(),
            forall|k: int| 0 <= k < out@.len() ==> comps_view((#[trigger] keys@[k])@) == components(out@[k]@),
            path_sorted(out@.map_values(|s: String| s@)),
            forall|k: int| 0 <= k < out@.len() ==> fv.contains((#[trigger] out@[k])@) && spec_is_image(out@[k]@),
            forall|k: int|
                0 <= k < i && spec_is_image(#[trigger] fv[k]) ==> exists|q: int|
                    0 <= q < out@.len() && path_eq(#[trigger] out@[q]@, fv[k]),
        decreases n - i,
    {
        let p = &found[i];
        assert(fv[i as int] == p@);
        if is_image(p.as_str()) {
            let key = path_components(p.as_str());
            let mut q: usize = 0;
            while q < keys.len() && components_before(&keys[q], &key)
                invariant
                    q <= keys@.len(),
                    forall|j: int| 0 <= j < q ==> components_less(comps_view(keys@[j]@), comps_view(key@)),
                decreases keys@.len() - q,
            {
                q = q + 1;
            }
            let ghost old_out = out@;
            let ghost ov = out@.map_values(|s: String| s@);
            let same = q < keys.len() && !components_before(&key, &keys[q]);
            if same {
                proof {
                    lemma_components_less_total(comps_view(keys@[q as int]@), comps_view(key@));
                    assert(path_eq(out@[q as int]@, p@));
                }
            } else {
                proof {
                    if q < keys@.len() {
                        lemma_components_less_total(comps_view(keys@[q as int]@), comps_view(key@));
                    }
                }
                let ghost ok = keys@;
                keys.insert(q, key);
                out.insert(q, p.clone());
                proof {
                    let nv = out@.map_values(|s: String| s@);
                    assert forall|a: int, b: int| 0 <= a < b < nv.len() implies path_less(nv[a], nv[b]) by {
                        let pa = if a < q { a } else if a == q { -1 } else { a - 1 };
                        let pb = if b < q { b } else if b == q { -1 } else { b - 1 };
                        if a < q && b < q {
                            assert(nv[a] == ov[a] && nv[b] == ov[b]);
                        } else if a < q && b == q {
                            assert(nv[a] == ov[a]);
                            assert(comps_view(ok[a]@) == components(ov[a]));
                        } else if a < q && b > q {
                            assert(nv[a] == ov[a] && nv[b] == ov[b - 1]);
                            assert(comps_view(ok[a]@) == components(ov[a]));
                            assert(comps_view(ok[q as int]@) == components(ov[q as int]));
                            lemma_components_less_trans(components(ov[a]), components(p@), components(ov[q as int]));
                            if b - 1 > q {
                                assert(path_less(ov[q as int], ov[b - 1]));
                                lemma_components_less_trans(components(ov[a]), components(ov[q as int]), components(ov[b - 1]));
                            }
                        } else if a == q {
                            assert(nv[b] == ov[b - 1]);
                            assert(comps_view(ok[q as int]@) == components(ov[q as int]));
                            if b - 1 > q {
                                assert(path_less(ov[q as int], ov[b - 1]));
                                lemma_components_less_trans(components(p@), components(ov[q as int]), components(ov[b - 1]));
                            }
                        } else {
                            assert(nv[a] == ov[a - 1] && nv[b] == ov[b - 1]);
                        }
                    }
                    assert forall|k: int| 0 <= k < out@.len() implies comps_view((#[trigger] keys@[k])@) == components(out@[k]@) by {
                        if k < q {
                            assert(keys@[k] == ok[k] && out@[k] == old_out[k]);
                        } else if k > q {
                            assert(keys@[k] == ok[k - 1] && out@[k] == old_out[k - 1]);
                        }
                    }
                    assert forall|k: int| 0 <= k < out@.len() implies fv.contains((#[trigger] out@[k])@) && spec_is_image(out@[k]@) by {
                        if k < q {
                            assert(out@[k] == old_out[k]);
                        } else if k > q {
                            assert(out@[k] == old_out[k - 1]);
                        } else {
                            assert(fv[i as int] == p@);
                        }
                    }
                    assert forall|k: int|
                        0 <= k < i + 1 && spec_is_image(#[trigger] fv[k]) implies exists|w: int|
                            0 <= w < out@.len() && path_eq(#[trigger] out@[w]@, fv[k]) by {
                        if k < i {
                            let w = choose|w: int| 0 <= w < old_out.len() && path_eq(#[trigger] old_out[w]@, fv[k]);
                            if w < q {
                                assert(out@[w] == old_out[w]);
                            } else {
                                assert(out@[w + 1] == old_out[w]);
                            }
                        } else {
                            assert(out@[q as int]@ == fv[k]);
                        }
                    }
                }
            }
        }
        i = i + 1;
    }
    proof {
        let r = out@.map_values(|s: String| s@);
        assert forall|k: int| 0 <= k < r.len() implies fv.contains(#[trigger] r[k]) && spec_is_image(r[k]) by {
            assert(r[k] == out@[k]@);
        }
        assert forall|k: int|
            0 <= k < fv.len() && spec_is_image(#[trigger] fv[k]) implies exists|w: int|
                0 <= w < r.len() && path_eq(#[trigger] r[w], fv[k]) by {
            let w = choose|w: int| 0 <= w < out@.len() && path_eq(#[trigger] out@[w]@, fv[k]);
            assert(r[w] == out@[w]@);
        }
    }
    out
}


/// Whether two component lists are equal.
pub fn same_components(a: &Vec<(u8, String)>, b: &Vec<(u8, String)>) -> (r: bool)
    ensures
        r == (comps_view(a@) == comps_view(b@)),
{
    if a.len() != b.len() {
        assert(comps_view(a@).len() != comps_view(b@).len());
        return false;
    }
    let n = a.len();
    let mut i: usize = 0;
    while i < n
        invariant
            i <= n == a@.len() == b@.len(),
            forall|j: int| 0 <= j < i ==> comps_view(a@)[j] == comps_view(b@)[j],
        decreases n - i,
    {
        if a[i].0 != b[i].0 || !crate::text::str_eq(a[i].1.as_str(), b[i].1.as_str()) {
            assert(comps_view(a@)[i as int] != comps_view(b@)[i as int]);
            return false;
        }
        i = i + 1;
    }
    assert(comps_view(a@) =~= comps_view(b@));
    true
}

} // verus!

//! The "never show again" blacklist, kept in `blacklist.txt` in the
//! configuration directory, one path per line. A missing file is an empty
//! blacklist.
//!
//! The daemon reads and writes the file; this module parses its content,
//! decides what an addition writes, and renders the content.

use vstd::prelude::*;

use crate::scanner::{components, comps_view, path_components, same_components};
use crate::text::{
    chars_of, class_fn, lemma_trail_len, pieces, push_str, range_texts, ranges_within, split_by,
    string_of, trail_len, CharClass,
};

verus! {

/// A line without the carriage returns at its end.
pub open spec fn trim_cr(s: Seq<char>) -> Seq<char> {
    s.take(s.len() - trail_len(s, CharClass::CarriageReturn))
}

/// The entries that lines `ls` give: each without its trailing carriage
/// returns, empty ones left out.
pub open spec fn line_entries(ls: Seq<Seq<char>>) -> Seq<Seq<char>>
    decreases ls.len(),
{
    if ls.len() == 0 {
        Seq::empty()
    } else if trim_cr(ls[0]).len() > 0 {
        seq![trim_cr(ls[0])] + line_entries(ls.skip(1))
    } else {
        line_entries(ls.skip(1))
    }
}

/// The paths that the content of the file lists.
pub open spec fn listed(content: Seq<char>) -> Seq<Seq<char>> {
    line_entries(split_by(content, class_fn(CharClass::Newline)))
}

/// The content that lists `ps`: each path followed by a line feed.
pub open spec fn lines_of(ps: Seq<Seq<char>>) -> Seq<char>
    decreases ps.len(),
{
    if ps.len() == 0 {
        Seq::empty()
    } else {
        ps[0] + seq!['\n'] + lines_of(ps.skip(1))
    }
}

/// A path as `Path` sees it: its components.
pub type PathKey = Seq<(int, Seq<char>)>;

/// The paths `ps` as a set of `Path` values: two texts that name the same
/// components (`/a//b`, `/a/b/`, `/a/./b`) are one path.
pub open spec fn path_set(ps: Seq<Seq<char>>) -> Set<PathKey> {
    Set::new(|c: PathKey| exists|k: int| 0 <= k < ps.len() && components(#[trigger] ps[k]) == c)
}

/// Some path of `ps` has the components `c`.
pub open spec fn has_comps(ps: Seq<String>, c: PathKey) -> bool {
    exists|k: int| 0 <= k < ps.len() && components(#[trigger] ps[k]@) == c
}

/// Paths never to show again.
pub struct Blacklist {
    paths: Vec<String>,
    file_path: String,
}

impl Blacklist {
    /// The blacklisted paths, by their components.
    pub closed spec fn entries(&self) -> Set<PathKey> {
        Set::new(|c: PathKey| has_comps(self.paths@, c))
    }

    /// The paths in the order in which they are written.
    pub closed spec fn order(&self) -> Seq<Seq<char>> {
        self.paths@.map_values(|p: String| p@)
    }

    pub closed spec fn spec_file_path(&self) -> Seq<char> {
        self.file_path@
    }

    /// No path is listed twice.
    pub closed spec fn wf(&self) -> bool {
        forall|i: int, j: int|
            0 <= i < j < self.paths@.len() ==> components(self.paths@[i]@) != components(self.paths@[j]@)
    }

    /// The blacklist that the content of its file gives (the daemon passes
    /// an empty content when the file does not exist).
    pub fn parse(content: &str, file_path: String) -> (b: Self)
        ensures
            b.wf(),
            b.entries() == path_set(listed(content@)),
            b.spec_file_path() == file_path@,
    {
        let v = chars_of(content);
        let n = v.len();
        assert(v@.subrange(0, n as int) =~= content@);
        let rs = pieces(&v, 0, n, CharClass::Newline);
        let ghost ls = range_texts(v@, rs@);
        let mut b = Blacklist { paths: Vec::new(), file_path };
        let m = rs.len();
        let mut i: usize = 0;
        assert(ls.skip(0) =~= ls);
        while i < m
            invariant
                i <= m == rs@.len(),
                ls == range_texts(v@, rs@),
                ranges_within(rs@, 0, v@.len() as int),
                ls == split_by(content@, class_fn(CharClass::Newline)),
                b.wf(),
                b.file_path@ == file_path@,
                path_set(listed(content@)) == b.entries().union(path_set(line_entries(ls.skip(i as int)))),
            decreases m - i,
        {
            let (a, e) = rs[i];
            assert(rs@[i as int] == (a, e));
            let ghost line = v@.subrange(a as int, e as int);
            assert(ls.skip(i as int)[0] == line);
            assert(ls.skip(i as int).skip(1) =~= ls.skip(i + 1));
            let mut t = e;
            while t > a && v[t - 1] == '\r'
                invariant
                    a <= t <= e <= v@.len(),
                    forall|j: int| t <= j < e ==> v@[j] == '\r',
                decreases t - a,
            {
                t = t - 1;
            }
            proof {
                assert forall|j: int| t - a <= j < line.len() implies class_fn(CharClass::CarriageReturn)(#[trigger] line[j]) by {
                    assert(line[j] == v@[a + j]);
                }
                if t > a {
                    assert(line[t - a - 1] == v@[t - 1]);
                }
                lemma_trail_len(line, CharClass::CarriageReturn, t - a);
                assert(trim_cr(line) =~= v@.subrange(a as int, t as int));
            }
            let ghost before = b.entries();
            let ghost rest = path_set(line_entries(ls.skip(i + 1)));
            if t > a {
                let s = string_of(crate::text::slice_of(&v, a, t).as_slice());
                b.insert(s);
                proof {
                    assert(line_entries(ls.skip(i as int)) == seq![trim_cr(line)] + line_entries(ls.skip(i + 1)));
                    lemma_path_set_cons(trim_cr(line), line_entries(ls.skip(i + 1)));
                    assert(b.entries() == before.insert(components(trim_cr(line))));
                    assert(path_set(listed(content@)) =~= b.entries().union(rest));
                }
            } else {
                assert(line_entries(ls.skip(i as int)) == line_entries(ls.skip(i + 1)));
            }
            i = i + 1;
        }
        assert(line_entries(ls.skip(m as int)) == Seq::<Seq<char>>::empty());
        assert(path_set(Seq::<Seq<char>>::empty()) =~= Set::<PathKey>::empty());
        assert(b.entries().union(Set::<PathKey>::empty()) =~= b.entries());
        b
    }

    /// Whether `path` is blacklisted: some listed path has its components
    /// (`Path`'s equality).
    pub fn contains(&self, path: &str) -> (r: bool)
        ensures
            r == self.entries().contains(components(path@)),
    {
        let pc = path_components(path);
        let n = self.paths.len();
        let mut i: usize = 0;
        while i < n
            invariant
                i <= n == self.paths@.len(),
                comps_view(pc@) == components(path@),
                forall|j: int| 0 <= j < i ==> components((#[trigger] self.paths@[j])@) != components(path@),
            decreases n - i,
        {
            let c = path_components(self.paths[i].as_str());
            if same_components(&c, &pc) {
                assert(components(self.paths@[i as int]@) == components(path@));
                assert(has_comps(self.paths@, components(path@)));
                return true;
            }
            i = i + 1;
        }
        false
    }

    /// Adds `path` when no listed path has its components; whether it was
    /// added.
    fn insert(&mut self, path: String) -> (added: bool)
        requires
            old(self).wf(),
        ensures
            final(self).wf(),
            added == !old(self).entries().contains(components(path@)),
            final(self).entries() == old(self).entries().insert(components(path@)),
            final(self).file_path == old(self).file_path,
            added ==> final(self).order() == old(self).order().push(path@),
            !added ==> final(self).order() == old(self).order(),
    {
        if self.contains(path.as_str()) {
            assert(self.entries() =~= self.entries().insert(components(path@)));
            return false;
        }
        let ghost pre = self.paths@;
        let ghost pc = components(path@);
        self.paths.push(path);
        proof {
            assert(self.paths@[pre.len() as int] == path);
            assert forall|c: PathKey| has_comps(self.paths@, c) == (has_comps(pre, c) || c == pc) by {
                if has_comps(pre, c) {
                    let k = choose|k: int| 0 <= k < pre.len() && components(#[trigger] pre[k]@) == c;
                    assert(self.paths@[k] == pre[k]);
                }
                if has_comps(self.paths@, c) {
                    let k = choose|k: int| 0 <= k < self.paths@.len() && components(#[trigger] self.paths@[k]@) == c;
                    if k < pre.len() {
                        assert(self.paths@[k] == pre[k]);
                    }
                }
            }
            assert(self.entries() =~= Set::new(|c: PathKey| has_comps(pre, c)).insert(pc));
            assert forall|i: int, j: int| 0 <= i < j < self.paths@.len() implies components(self.paths@[i]@)
                != components(self.paths@[j]@) by {
                if j == pre.len() {
                    assert(self.paths@[i] == pre[i]);
                    if components(pre[i]@) == pc {
                        assert(has_comps(pre, pc));
                    }
                } else {
                    assert(self.paths@[i] == pre[i] && self.paths@[j] == pre[j]);
                }
            }
            assert(self.order() =~= pre.map_values(|p: String| p@).push(path@));
        }
        true
    }

    /// Takes `path` out again (an addition whose file could not be
    /// written): every listed path with its components leaves.
    pub fn rollback(&mut self, path: &str)
        requires
            old(self).wf(),
        ensures
            final(self).wf(),
            final(self).entries() == old(self).entries().remove(components(path@)),
            final(self).spec_file_path() == old(self).spec_file_path(),
    {
        let ghost pre = self.paths@;
        let pc = path_components(path);
        let ghost pk = components(path@);
        let mut kept: Vec<String> = Vec::new();
        let n = self.paths.len();
        let mut i: usize = 0;
        while i < n
            invariant
                i <= n == self.paths@.len(),
                self.paths@ == pre,
                comps_view(pc@) == pk,
                forall|c: PathKey| has_comps(kept@, c) == (has_comps(pre.take(i as int), c) && c != pk),
                forall|a: int, b: int| 0 <= a < b < kept@.len() ==> components(kept@[a]@) != components(kept@[b]@),
                forall|a: int| 0 <= a < kept@.len() ==> has_comps(pre.take(i as int), components((#[trigger] kept@[a])@)),
                forall|a: int, b: int| 0 <= a < b < pre.len() ==> components(pre[a]@) != components(pre[b]@),
            decreases n - i,
        {
            let ghost k0 = kept@;
            let c = path_components(self.paths[i].as_str());
            if !same_components(&c, &pc) {
                kept.push(self.paths[i].clone());
            }
            proof {
                let t0 = pre.take(i as int);
                let t1 = pre.take(i + 1);
                let ci = components(pre[i as int]@);
                assert forall|x: PathKey| has_comps(t1, x) == (has_comps(t0, x) || x == ci) by {
                    if has_comps(t0, x) {
                        let k = choose|k: int| 0 <= k < t0.len() && components(#[trigger] t0[k]@) == x;
                        assert(t1[k] == t0[k]);
                    }
                    if x == ci {
                        assert(t1[i as int] == pre[i as int]);
                    }
                    if has_comps(t1, x) {
                        let k = choose|k: int| 0 <= k < t1.len() && components(#[trigger] t1[k]@) == x;
                        if k < i {
                            assert(t1[k] == t0[k]);
                        }
                    }
                }
                assert forall|x: PathKey| has_comps(kept@, x) == (has_comps(t1, x) && x != pk) by {
                    if kept@.len() > k0.len() {
                        if has_comps(k0, x) {
                            let k = choose|k: int| 0 <= k < k0.len() && components(#[trigger] k0[k]@) == x;
                            assert(kept@[k] == k0[k]);
                        }
                        if x == ci {
                            assert(kept@[k0.len() as int] == pre[i as int]);
                        }
                        if has_comps(kept@, x) {
                            let k = choose|k: int| 0 <= k < kept@.len() && components(#[trigger] kept@[k]@) == x;
                            if k < k0.len() {
                                assert(kept@[k] == k0[k]);
                            }
                        }
                    }
                }
                assert forall|a: int| 0 <= a < kept@.len() implies has_comps(t1, components((#[trigger] kept@[a])@)) by {
                    if a < k0.len() {
                        assert(kept@[a] == k0[a]);
                        let x = components(k0[a]@);
                        assert(has_comps(t0, x));
                    } else {
                        assert(kept@[a] == pre[i as int]);
                        assert(t1[i as int] == pre[i as int]);
                    }
                }
                assert forall|a: int, b: int| 0 <= a < b < kept@.len() implies components(kept@[a]@) != components(
                    kept@[b]@,
                ) by {
                    if b == k0.len() && kept@.len() > k0.len() {
                        assert(kept@[a] == k0[a]);
                        assert(has_comps(t0, components(k0[a]@)));
                        let k = choose|k: int| 0 <= k < t0.len() && components(#[trigger] t0[k]@) == components(k0[a]@);
                        assert(t0[k] == pre[k]);
                        assert(kept@[b] == pre[i as int]);
                    } else {
                        assert(kept@[a] == k0[a] && kept@[b] == k0[b]);
                    }
                }
            }
            i = i + 1;
        }
        assert(pre.take(n as int) =~= pre);
        self.paths = kept;
        assert(self.entries() =~= Set::new(|c: PathKey| has_comps(pre, c)).remove(pk));
    }

    /// Begins adding `path`: `None` when it is listed already (nothing to
    /// write; the addition counts as done), otherwise the content that the
    /// file must receive. When that write fails, `rollback` undoes the
    /// addition.
    pub fn begin_add(&mut self, path: &str) -> (w: Option<String>)
        requires
            old(self).wf(),
        ensures
            final(self).wf(),
            final(self).entries() == old(self).entries().insert(components(path@)),
            final(self).spec_file_path() == old(self).spec_file_path(),
            w is None <==> old(self).entries().contains(components(path@)),
            w matches Some(c) ==> c@ == lines_of(final(self).order()),
    {
        if self.insert(crate::text::owned(path)) {
            Some(self.serialize())
        } else {
            None
        }
    }

    /// The content of the file: one path per line.
    pub fn serialize(&self) -> (s: String)
        ensures
            s@ == lines_of(self.order()),
    {
        let ghost ps = self.order();
        let mut s = String::new();
        let n = self.paths.len();
        let mut k: usize = 0;
        assert(ps.skip(0) =~= ps);
        while k < n
            invariant
                k <= n == self.paths@.len(),
                ps == self.order(),
                lines_of(ps) == s@ + lines_of(ps.skip(k as int)),
            decreases n - k,
        {
            let ghost s0 = s@;
            assert(ps.skip(k as int)[0] == self.paths@[k as int]@);
            assert(ps.skip(k as int).skip(1) =~= ps.skip(k + 1));
            push_str(&mut s, self.paths[k].as_str());
            crate::text::push_char(&mut s, '\n');
            assert(s0 + (ps.skip(k as int)[0] + seq!['\n'] + lines_of(ps.skip(k + 1))) =~= s@ + lines_of(
                ps.skip(k + 1),
            ));
            k = k + 1;
        }
        assert(lines_of(ps.skip(n as int)) == Seq::<char>::empty());
        assert(s@ + Seq::<char>::empty() =~= s@);
        s
    }

    /// Where the file is.
    pub fn file_path(&self) -> (p: &str)
        ensures
            p@ == self.spec_file_path(),
    {
        self.file_path.as_str()
    }
}

// ---- laws ------------------------------------------------------------------

proof fn lemma_path_set_cons(x: Seq<char>, r: Seq<Seq<char>>)
    ensures
        path_set(seq![x] + r) == path_set(r).insert(components(x)),
{
    let c = seq![x] + r;
    assert forall|y: PathKey| path_set(c).contains(y) == (y == components(x) || path_set(r).contains(y)) by {
        if path_set(c).contains(y) {
            let k = choose|k: int| 0 <= k < c.len() && components(#[trigger] c[k]) == y;
            if k > 0 {
                assert(r[k - 1] == c[k]);
            }
        }
        if path_set(r).contains(y) {
            let k = choose|k: int| 0 <= k < r.len() && components(#[trigger] r[k]) == y;
            assert(c[k + 1] == r[k]);
        }
        if y == components(x) {
            assert(c[0] == x);
        }
    }
    assert(path_set(c) =~= path_set(r).insert(components(x)));
}

proof fn lemma_split_line(p: Seq<char>, rest: Seq<char>)
    requires
        !p.contains('\n'),
    ensures
        split_by(p + seq!['\n'] + rest, class_fn(CharClass::Newline)) == seq![p] + split_by(
            rest,
            class_fn(CharClass::Newline),
        ),
{
    let s = p + seq!['\n'] + rest;
    let nl = class_fn(CharClass::Newline);
    assert forall|j: int| 0 <= j < p.len() implies !nl(#[trigger] s[j]) by {
        assert(s[j] == p[j]);
        if s[j] == '\n' {
            assert(p.contains('\n'));
        }
    }
    assert(s[p.len() as int] == '\n');
    crate::text::lemma_find_first_is(s, nl, p.len() as int);
    assert(s.take(p.len() as int) =~= p);
    assert(s.skip(p.len() as int + 1) =~= rest);
}

proof fn lemma_listed_lines(ps: Seq<Seq<char>>)
    requires
        forall|i: int| 0 <= i < ps.len() ==> !(#[trigger] ps[i]).contains('\n') && ps[i].len() > 0 && ps[i].last()
            != '\r',
    ensures
        line_entries(split_by(lines_of(ps), class_fn(CharClass::Newline))) == ps,
    decreases ps.len(),
{
    let nl = class_fn(CharClass::Newline);
    if ps.len() == 0 {
        let e = Seq::<char>::empty();
        assert(lines_of(ps) == e);
        assert(crate::text::find_first(e, nl) == 0);
        assert(split_by(e, nl) == seq![e]);
        let ls = seq![e];
        assert(trail_len(e, CharClass::CarriageReturn) == 0);
        assert(trim_cr(ls[0]).len() == 0);
        assert(ls.skip(1) =~= Seq::<Seq<char>>::empty());
        assert(line_entries(ls.skip(1)) == Seq::<Seq<char>>::empty());
        assert(line_entries(ls) == line_entries(ls.skip(1)));
        assert(ps =~= Seq::<Seq<char>>::empty());
    } else {
        let p = ps[0];
        let rest = ps.skip(1);
        assert forall|i: int| 0 <= i < rest.len() implies !(#[trigger] rest[i]).contains('\n') && rest[i].len() > 0
            && rest[i].last() != '\r' by {
            assert(rest[i] == ps[i + 1]);
        }
        lemma_listed_lines(rest);
        lemma_split_line(p, lines_of(rest));
        assert(lines_of(ps) == p + seq!['\n'] + lines_of(rest));
        let ls = split_by(lines_of(ps), nl);
        assert(ls[0] == p);
        assert(ls.skip(1) =~= split_by(lines_of(rest), nl));
        assert(trail_len(p, CharClass::CarriageReturn) == 0);
        assert(trim_cr(p) =~= p);
        assert(line_entries(ls) =~= seq![p] + rest);
        assert(ps =~= seq![p] + rest);
    }
}

/// What is written is what is read back: the content that `serialize`
/// renders lists exactly the blacklisted paths, for paths that are not
/// empty, hold no line feed and do not end with a carriage return.
pub proof fn lemma_reload_keeps_entries(b: Blacklist)
    requires
        b.wf(),
        forall|i: int|
            0 <= i < b.order().len() ==> !(#[trigger] b.order()[i]).contains('\n') && b.order()[i].len() > 0
                && b.order()[i].last() != '\r',
    ensures
        path_set(listed(lines_of(b.order()))) == b.entries(),
{
    lemma_listed_lines(b.order());
    assert forall|c: PathKey| path_set(b.order()).contains(c) == has_comps(b.paths@, c) by {
        if path_set(b.order()).contains(c) {
            let k = choose|k: int| 0 <= k < b.order().len() && components(#[trigger] b.order()[k]) == c;
            assert(b.paths@[k]@ == b.order()[k]);
        }
        if has_comps(b.paths@, c) {
            let k = choose|k: int| 0 <= k < b.paths@.len() && components(#[trigger] b.paths@[k]@) == c;
            assert(b.order()[k] == b.paths@[k]@);
        }
    }
    assert(path_set(b.order()) =~= b.entries());
}

} // verus!

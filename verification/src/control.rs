//! Decisions of the daemon's main loop that go beyond one command: what
//! an online fetch adds to the rotation, when a configuration reload
//! rescans, when the running prefetch is stale, where a favorite goes, and
//! which processed image each monitor shows.

use vstd::prelude::*;

use crate::blacklist::Blacklist;
use crate::cache::CacheKey;
use crate::config::{DisplayMode, OnlineSourceConfig, MIN_INTERVAL_SECS};
use crate::scanner::path_eq;
use crate::scanner::components;
use crate::scheduler::{add_post, has_path, views, Scheduler};
use crate::screen::Monitor;
use crate::text::{owned, path_join, push_str};

verus! {

// ---- Online results ------------------------------------------------------

/// The paths of `ps` that the blacklist `bl` does not hold, in order.
pub open spec fn unlisted(ps: Seq<String>, bl: Set<Seq<(int, Seq<char>)>>) -> Seq<Seq<char>>
    decreases ps.len(),
{
    if ps.len() == 0 {
        Seq::empty()
    } else if bl.contains(crate::scanner::components(ps.last()@)) {
        unlisted(ps.drop_last(), bl)
    } else {
        unlisted(ps.drop_last(), bl).push(ps.last()@)
    }
}

/// Some path of `xs` is `p`, compared as `Path` compares paths (by their
/// components).
pub open spec fn names_path(xs: Seq<Seq<char>>, p: Seq<char>) -> bool {
    exists|i: int| 0 <= i < xs.len() && #[trigger] components(xs[i]) == components(p)
}

/// The paths of `ps` that `base` does not hold, each once, in the order of
/// their first appearance (paths compared as `Path` compares them).
pub open spec fn fresh(base: Seq<Seq<char>>, ps: Seq<Seq<char>>) -> Seq<Seq<char>>
    decreases ps.len(),
{
    if ps.len() == 0 {
        Seq::empty()
    } else {
        let f = fresh(base, ps.drop_last());
        if names_path(base + f, ps.last()) {
            f
        } else {
            f.push(ps.last())
        }
    }
}

/// What adding the images of a fetch does to the rotation: every path of
/// `ps` that is new is appended to the images and to the queue; the rest
/// of the state is kept.
pub open spec fn fetched_post(pre: Scheduler, post: Scheduler, ps: Seq<Seq<char>>) -> bool {
    let f = fresh(views(pre.spec_images()), ps);
    &&& views(post.spec_images()) == views(pre.spec_images()) + f
    &&& views(post.spec_queue()) == views(pre.spec_queue()) + f
    &&& post.spec_order() == pre.spec_order()
    &&& post.spec_history() == pre.spec_history()
    &&& post.spec_current() == pre.spec_current()
    &&& post.spec_paused() == pre.spec_paused()
}

proof fn lemma_has_path_views(s: Seq<String>, p: Seq<char>)
    ensures
        has_path(s, p) <==> names_path(views(s), p),
{
    if has_path(s, p) {
        let i = choose|i: int| 0 <= i < s.len() && #[trigger] components(s[i]@) == components(p);
        assert(views(s)[i] == s[i]@);
    }
    if names_path(views(s), p) {
        let i = choose|i: int| 0 <= i < views(s).len() && #[trigger] components(views(s)[i]) == components(p);
        assert(views(s)[i] == s[i]@);
    }
}

proof fn lemma_fetched_step(pre: Scheduler, mid: Scheduler, post: Scheduler, ps: Seq<Seq<char>>, p: Seq<char>)
    requires
        fetched_post(pre, mid, ps),
        add_post(mid, post, p),
    ensures
        fetched_post(pre, post, ps.push(p)),
{
    let base = views(pre.spec_images());
    let f = fresh(base, ps);
    assert(ps.push(p).drop_last() =~= ps);
    assert(ps.push(p).last() == p);
    lemma_has_path_views(mid.spec_images(), p);
    if has_path(mid.spec_images(), p) {
        assert(fresh(base, ps.push(p)) == f);
    } else {
        assert(fresh(base, ps.push(p)) == f.push(p));
        assert(views(post.spec_images()) =~= views(mid.spec_images()).push(p)) by {
            assert(post.spec_images() =~= mid.spec_images().push(post.spec_images().last()));
        }
        assert(views(post.spec_queue()) =~= views(mid.spec_queue()).push(p)) by {
            assert(post.spec_queue() =~= mid.spec_queue().push(post.spec_queue().last()));
        }
        assert(base + f.push(p) =~= (base + f).push(p));
        assert(views(pre.spec_queue()) + f.push(p) =~= (views(pre.spec_queue()) + f).push(p));
    }
}

/// The paths of `paths` that the blacklist does not hold, in order (the
/// image list of a scan, before it becomes the rotation).
pub fn without_blacklisted(blacklist: &Blacklist, paths: &Vec<String>) -> (r: Vec<String>)
    ensures
        views(r@) == unlisted(paths@, blacklist.entries()),
{
    let mut r: Vec<String> = Vec::new();
    let n = paths.len();
    let mut i: usize = 0;
    assert(views(r@) =~= Seq::<Seq<char>>::empty());
    assert(paths@.take(0) =~= Seq::<String>::empty());
    while i < n
        invariant
            i <= n == paths@.len(),
            views(r@) == unlisted(paths@.take(i as int), blacklist.entries()),
        decreases n - i,
    {
        let p = &paths[i];
        assert(paths@.take(i + 1).drop_last() =~= paths@.take(i as int));
        assert(paths@.take(i + 1).last() == *p);
        if !blacklist.contains(p.as_str()) {
            let ghost before = r@;
            r.push(p.clone());
            assert(views(r@) =~= views(before).push(p@));
        }
        i = i + 1;
    }
    assert(paths@.take(n as int) =~= paths@);
    r
}

/// Adds the images an online fetch brought to the rotation, leaving out
/// blacklisted ones, and returns how many were not blacklisted.
pub fn add_fetched(scheduler: &mut Scheduler, blacklist: &Blacklist, new_paths: &Vec<String>) -> (added: usize)
    requires
        old(scheduler).wf(),
    ensures
        final(scheduler).wf(),
        fetched_post(*old(scheduler), *final(scheduler), unlisted(new_paths@, blacklist.entries())),
        added == unlisted(new_paths@, blacklist.entries()).len(),
{
    let ghost pre = *scheduler;
    let ghost bl = blacklist.entries();
    let mut added: usize = 0;
    let n = new_paths.len();
    let mut i: usize = 0;
    proof {
        assert(views(pre.spec_images()) + Seq::<Seq<char>>::empty() =~= views(pre.spec_images()));
        assert(views(pre.spec_queue()) + Seq::<Seq<char>>::empty() =~= views(pre.spec_queue()));
        assert(new_paths@.take(0) =~= Seq::<String>::empty());
    }
    while i < n
        invariant
            i <= n == new_paths@.len(),
            bl == blacklist.entries(),
            scheduler.wf(),
            fetched_post(pre, *scheduler, unlisted(new_paths@.take(i as int), bl)),
            added == unlisted(new_paths@.take(i as int), bl).len(),
            added <= i,
        decreases n - i,
    {
        let p = &new_paths[i];
        assert(new_paths@.take(i + 1).drop_last() =~= new_paths@.take(i as int));
        assert(new_paths@.take(i + 1).last() == *p);
        if !blacklist.contains(p.as_str()) {
            let ghost mid = *scheduler;
            scheduler.add_image(p.clone());
            proof {
                lemma_fetched_step(pre, mid, *scheduler, unlisted(new_paths@.take(i as int), bl), p@);
            }
            added = added + 1;
        }
        i = i + 1;
    }
    assert(new_paths@.take(n as int) =~= new_paths@);
    added
}

/// `s` with every `pat` replaced by `with`, scanning from the front
/// (`str::replace`); `pat` is not empty.
pub open spec fn replace_all(s: Seq<char>, pat: Seq<char>, with: Seq<char>) -> Seq<char>
    decreases s.len(),
{
    if pat.len() == 0 || s.len() < pat.len() {
        s
    } else if s.take(pat.len() as int) == pat {
        with + replace_all(s.skip(pat.len() as int), pat, with)
    } else {
        seq![s[0]] + replace_all(s.drop_first(), pat, with)
    }
}

/// `str::replace(s, pat, with)` for a non-empty `pat`.
pub fn replace(s: &str, pat: &str, with: &str) -> (r: String)
    requires
        pat@.len() > 0,
    ensures
        r@ == replace_all(s@, pat@, with@),
{
    let v = crate::text::chars_of(s);
    let pv = crate::text::chars_of(pat);
    let n = v.len();
    let m = pv.len();
    let mut r = String::new();
    let mut i: usize = 0;
    assert(s@.skip(0) =~= s@);
    assert(r@ + replace_all(s@, pat@, with@) =~= replace_all(s@, pat@, with@));
    while i < n
        invariant
            i <= n == v@.len() == s@.len(),
            v@ == s@,
            pv@ == pat@,
            m == pat@.len() > 0,
            r@ + replace_all(s@.skip(i as int), pat@, with@) == replace_all(s@, pat@, with@),
        decreases n - i,
    {
        let ghost rest = s@.skip(i as int);
        if n - i >= m && crate::text::range_starts_with(&v, i, n, &pv) {
            proof {
                assert(v@.subrange(i as int, n as int) =~= rest);
                assert(rest.take(m as int) =~= pat@);
                assert(rest.skip(m as int) =~= s@.skip(i + m));
                assert(r@ + with@ + replace_all(s@.skip(i + m), pat@, with@) =~= r@ + replace_all(rest, pat@, with@));
            }
            push_str(&mut r, with);
            i = i + m;
        } else {
            proof {
                assert(v@.subrange(i as int, n as int) =~= rest);
                if n - i >= m {
                    assert(!(rest.take(m as int) =~= pat@) || !crate::text::starts_with(rest, pat@));
                    assert(rest.take(m as int) != pat@) by {
                        if rest.take(m as int) == pat@ {
                            assert(crate::text::starts_with(rest, pat@));
                        }
                    }
                }
                assert(rest.drop_first() =~= s@.skip(i + 1));
                assert(r@.push(v@[i as int]) + replace_all(s@.skip(i + 1), pat@, with@) =~= r@ + replace_all(rest, pat@, with@));
            }
            crate::text::push_char(&mut r, v[i]);
            i = i + 1;
        }
    }
    assert(s@.skip(n as int) =~= Seq::<char>::empty());
    r
}

/// The body of the notice after a fetch: `{provider}`, then `{count}`,
/// replaced in `template`.
pub fn fetch_notice_body(template: &str, provider: &str, count: usize) -> (b: String)
    ensures
        b@ == replace_all(replace_all(template@, "{provider}"@, provider@), "{count}"@, crate::text::dec(count as nat)),
{
    proof {
        reveal_strlit("{provider}");
        reveal_strlit("{count}");
    }
    let first = replace(template, "{provider}", provider);
    let c = crate::text::decimal(count as u64);
    replace(first.as_str(), "{count}", c.as_str())
}

// ---- Configuration reload --------------------------------------------------

/// Two lists of directories name the same directories, one by one.
pub open spec fn same_dirs(a: Seq<String>, b: Seq<String>) -> bool {
    a.len() == b.len() && forall|i: int| 0 <= i < a.len() ==> path_eq(#[trigger] a[i]@, b[i]@)
}

/// Whether a reload rescans: the directories or the recursion changed
/// since the last successful scan, or the watcher does not cover every
/// directory (then the reload is the only chance to notice changes).
pub fn needs_rescan(
    dirs: &Vec<String>,
    recursive: bool,
    scanned_dirs: &Vec<String>,
    scanned_recursive: bool,
    watching_everything: bool,
) -> (b: bool)
    ensures
        b == (!same_dirs(dirs@, scanned_dirs@) || recursive != scanned_recursive || !watching_everything),
{
    if recursive != scanned_recursive || !watching_everything {
        return true;
    }
    if dirs.len() != scanned_dirs.len() {
        return true;
    }
    let mut i: usize = 0;
    while i < dirs.len()
        invariant
            i <= dirs@.len() == scanned_dirs@.len(),
            forall|k: int| 0 <= k < i ==> path_eq(#[trigger] dirs@[k]@, scanned_dirs@[k]@),
        decreases dirs.len() - i,
    {
        let a = crate::scanner::path_components(dirs[i].as_str());
        let b = crate::scanner::path_components(scanned_dirs[i].as_str());
        if !crate::scanner::same_components(&a, &b) {
            return true;
        }
        i = i + 1;
    }
    false
}

pub open spec fn same_path_opt(a: Option<String>, b: Option<String>) -> bool {
    match (a, b) {
        (None, None) => true,
        (Some(x), Some(y)) => path_eq(x@, y@),
        _ => false,
    }
}

/// Whether the running prefetch is no longer of use after a reload: the
/// next image is another one, or the cache or display settings changed
/// (they are part of the key).
pub fn prefetch_is_stale(warming: Option<&String>, next: Option<&String>, cache_changed: bool, display_changed: bool) -> (b: bool)
    ensures
        b == (!same_path_opt(
            match warming {
                Some(w) => Some(*w),
                None => None,
            },
            match next {
                Some(n) => Some(*n),
                None => None,
            },
        ) || cache_changed || display_changed),
{
    if cache_changed || display_changed {
        return true;
    }
    match (warming, next) {
        (None, None) => false,
        (Some(w), Some(n)) => {
            let a = crate::scanner::path_components(w.as_str());
            let b = crate::scanner::path_components(n.as_str());
            !crate::scanner::same_components(&a, &b)
        },
        _ => true,
    }
}

// ---- Commands ----------------------------------------------------------------

/// The interval a tray choice sets: at least `MIN_INTERVAL_SECS`.
pub fn interval_from_tray(secs: u64) -> (s: u64)
    ensures
        s == (if secs < MIN_INTERVAL_SECS {
            MIN_INTERVAL_SECS
        } else {
            secs
        }),
{
    if secs < MIN_INTERVAL_SECS {
        MIN_INTERVAL_SECS
    } else {
        secs
    }
}

/// Where "copy to favorites" copies the current image: the favorites
/// directory joined with the image's file name. `None` when there is no
/// current image, no favorites directory, or no file name.
pub fn favorites_destination(current: Option<&String>, favorites_dir: Option<&String>) -> (r: Option<String>)
    ensures
        match r {
            Some(d) => current is Some && favorites_dir is Some
                && crate::daemon::spec_file_name(current->0@) is Some
                && d@ == path_join(favorites_dir->0@, crate::daemon::spec_file_name(current->0@)->0),
            None => current is None || favorites_dir is None
                || crate::daemon::spec_file_name(current->0@) is None,
        },
{
    let cur = match current {
        Some(c) => c,
        None => return None,
    };
    let dir = match favorites_dir {
        Some(d) => d,
        None => return None,
    };
    let c = crate::scanner::path_components(cur.as_str());
    let k = c.len();
    if k > 0 && c[k - 1].0 == 3 {
        assert(crate::scanner::comps_view(c@).last() == (c@[k - 1].0 as int, c@[k - 1].1@));
        Some(crate::text::join_path(dir.as_str(), c[k - 1].1.as_str()))
    } else {
        None
    }
}

/// Whether any online source is enabled.
pub fn has_online(sources: &Vec<OnlineSourceConfig>) -> (b: bool)
    ensures
        b == exists|i: int| 0 <= i < sources@.len() && (#[trigger] sources@[i]).enabled,
{
    let mut i: usize = 0;
    while i < sources.len()
        invariant
            i <= sources@.len(),
            forall|k: int| 0 <= k < i ==> !(#[trigger] sources@[k]).enabled,
        decreases sources.len() - i,
    {
        if sources[i].enabled {
            return true;
        }
        i = i + 1;
    }
    false
}

// ---- Applying ------------------------------------------------------------------

/// The processed image for each monitor: monitor `i` gets the image made
/// for its resolution. `processed` holds `(width, height, path)`; a
/// monitor whose resolution has none is left out.
pub open spec fn spec_assignments(screens: Seq<Monitor>, processed: Seq<(u32, u32, Seq<char>)>) -> Seq<(u64, Seq<char>)>
    decreases screens.len(),
{
    if screens.len() == 0 {
        Seq::empty()
    } else {
        let before = spec_assignments(screens.drop_last(), processed);
        let m = screens.last();
        let k = first_of_size(processed, m.width, m.height);
        if k < processed.len() {
            before.push(((screens.len() - 1) as u64, processed[k].2))
        } else {
            before
        }
    }
}

/// The first entry of `processed` for `w`×`h` (its length when none).
pub open spec fn first_of_size(processed: Seq<(u32, u32, Seq<char>)>, w: u32, h: u32) -> int
    decreases processed.len(),
{
    if processed.len() == 0 {
        0
    } else if processed[0].0 == w && processed[0].1 == h {
        0
    } else {
        1 + first_of_size(processed.drop_first(), w, h)
    }
}

pub open spec fn processed_view(p: Seq<(u32, u32, String)>) -> Seq<(u32, u32, Seq<char>)> {
    p.map_values(|x: (u32, u32, String)| (x.0, x.1, x.2@))
}

pub open spec fn entries_view(e: Seq<(u64, String)>) -> Seq<(u64, Seq<char>)> {
    e.map_values(|x: (u64, String)| (x.0, x.1@))
}

proof fn lemma_first_of_size(processed: Seq<(u32, u32, Seq<char>)>, w: u32, h: u32, j: int)
    requires
        0 <= j <= processed.len(),
        forall|q: int| 0 <= q < j ==> !(processed[q].0 == w && processed[q].1 == h),
        j < processed.len() ==> processed[j].0 == w && processed[j].1 == h,
    ensures
        first_of_size(processed, w, h) == j,
    decreases processed.len(),
{
    if processed.len() > 0 && j > 0 {
        assert forall|q: int| 0 <= q < j - 1 implies !(processed.drop_first()[q].0 == w && processed.drop_first()[q].1 == h) by {
            assert(processed.drop_first()[q] == processed[q + 1]);
        }
        if j < processed.len() {
            assert(processed.drop_first()[j - 1] == processed[j]);
        }
        lemma_first_of_size(processed.drop_first(), w, h, j - 1);
    }
}

/// The wallpaper of each monitor, as the Plasma script takes it.
pub fn screen_assignments(screens: &Vec<Monitor>, processed: &Vec<(u32, u32, String)>) -> (e: Vec<(u64, String)>)
    requires
        screens@.len() <= u64::MAX,
    ensures
        entries_view(e@) == spec_assignments(screens@, processed_view(processed@)),
{
    let ghost pv = processed_view(processed@);
    let mut e: Vec<(u64, String)> = Vec::new();
    let n = screens.len();
    let mut i: usize = 0;
    while i < n
        invariant
            i <= n == screens@.len() <= u64::MAX,
            pv == processed_view(processed@),
            entries_view(e@) == spec_assignments(screens@.take(i as int), pv),
        decreases n - i,
    {
        let m = &screens[i];
        let mut j: usize = 0;
        while j < processed.len() && !(processed[j].0 == m.width && processed[j].1 == m.height)
            invariant
                j <= processed@.len(),
                pv == processed_view(processed@),
                forall|q: int| 0 <= q < j ==> !(#[trigger] pv[q].0 == m.width && pv[q].1 == m.height),
            decreases processed.len() - j,
        {
            j = j + 1;
        }
        proof {
            lemma_first_of_size(pv, m.width, m.height, j as int);
            assert(screens@.take(i + 1).drop_last() =~= screens@.take(i as int));
            assert(screens@.take(i + 1).last() == *m);
        }
        let ghost before = e@;
        if j < processed.len() {
            e.push((i as u64, processed[j].2.clone()));
            assert(entries_view(e@) =~= entries_view(before).push((i as u64, pv[j as int].2)));
        }
        i = i + 1;
    }
    assert(screens@.take(n as int) =~= screens@);
    e
}

/// The keys the prefetch warms after an image was applied: those of the
/// next image (see [`crate::daemon::cache_keys`]), none when prefetching
/// is off or nothing comes next.
pub fn prefetch_keys(
    enabled: bool,
    next: Option<&String>,
    screens: &Vec<Monitor>,
    mode: DisplayMode,
    blur_sigma_bits: u32,
    bg_darken_bits: u32,
) -> (keys: Vec<CacheKey>)
    ensures
        (!enabled || next is None) ==> keys@.len() == 0,
        (enabled && next is Some) ==> keys@.len() > 0 && crate::daemon::are_cache_keys(
            keys@,
            next->0@,
            screens@,
            mode,
            blur_sigma_bits,
            bg_darken_bits,
        ),
{
    if !enabled {
        return Vec::new();
    }
    match next {
        Some(n) => {
            let keys = crate::daemon::cache_keys(n.as_str(), screens, mode, blur_sigma_bits, bg_darken_bits);
            proof {
                if screens@.len() > 0 {
                    crate::daemon::lemma_first_sizes_nonempty(screens@);
                }
            }
            keys
        },
        None => Vec::new(),
    }
}

} // verus!

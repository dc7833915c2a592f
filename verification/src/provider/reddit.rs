//! Reddit: image posts of the week's top posts of a subreddit
//! (`wallpapers` by default); no API key.

use vstd::prelude::*;

use crate::text::{
    chars_of, decimal, ends_with, is_ascii_alnum, lower_seq, owned, push_str, starts_with,
    string_of,
};

verus! {

/// A post of the listing, as far as it is used.
#[derive(Debug, Clone)]
pub struct RedditPost {
    /// The post id, such as `t3_abc123`.
    pub name: String,
    pub url: String,
    /// Empty when the listing has none.
    pub post_hint: String,
    pub is_self: bool,
}

/// A subreddit name is safe when it is not empty and holds only ASCII
/// letters, digits and underscores.
pub open spec fn spec_valid_subreddit(s: Seq<char>) -> bool {
    s.len() > 0 && forall|i: int| 0 <= i < s.len() ==> is_ascii_alnum(#[trigger] s[i]) || s[i] == '_'
}

pub fn is_valid_subreddit(s: &str) -> (b: bool)
    ensures
        b == spec_valid_subreddit(s@),
{
    let v = chars_of(s);
    let n = v.len();
    if n == 0 {
        return false;
    }
    let mut i: usize = 0;
    while i < n
        invariant
            i <= n == v@.len(),
            v@ == s@,
            forall|j: int| 0 <= j < i ==> is_ascii_alnum(#[trigger] s@[j]) || s@[j] == '_',
        decreases n - i,
    {
        if !(crate::text::char_is_alnum(v[i]) || v[i] == '_') {
            return false;
        }
        i = i + 1;
    }
    true
}

/// The image extensions that a direct link may end with.
pub open spec fn link_extensions() -> Seq<Seq<char>> {
    seq!["jpg"@, "jpeg"@, "png"@, "webp"@]
}

/// A direct image post: not a self post, and either hinted `image` or a
/// link whose lower-cased URL ends with an image extension. (These
/// extensions are ASCII, and no character outside ASCII lower-cases to
/// their letters, so ASCII lower-casing decides as full lower-casing does.)
pub open spec fn spec_is_image_post(p: RedditPost) -> bool {
    !p.is_self && (p.post_hint@ == "image"@ || exists|i: int|
        0 <= i < 4 && ends_with(lower_seq(p.url@), #[trigger] link_extensions()[i]))
}

pub fn is_image_post(post: &RedditPost) -> (b: bool)
    ensures
        b == spec_is_image_post(*post),
{
    if post.is_self {
        return false;
    }
    if crate::text::str_eq(post.post_hint.as_str(), "image") {
        return true;
    }
    let lower = crate::text::ascii_lower(post.url.as_str());
    let exts = ["jpg", "jpeg", "png", "webp"];
    let mut i: usize = 0;
    while i < 4
        invariant
            i <= 4,
            !post.is_self,
            post.post_hint@ != "image"@,
            lower@ == lower_seq(post.url@),
            forall|k: int| 0 <= k < 4 ==> (#[trigger] exts@[k])@ == link_extensions()[k],
            forall|k: int| 0 <= k < i ==> !ends_with(lower_seq(post.url@), #[trigger] link_extensions()[k]),
        decreases 4 - i,
    {
        if crate::text::str_ends_with(lower.as_str(), exts[i]) {
            assert(ends_with(lower_seq(post.url@), link_extensions()[i as int]));
            return true;
        }
        i = i + 1;
    }
    false
}

/// The image-post rule in full: a post is an image post exactly when it
/// is not a self post and it is hinted `image` or its URL ends, ignoring
/// case, with `jpg`, `jpeg`, `png` or `webp`.
pub proof fn lemma_image_post_rule(p: RedditPost)
    ensures
        spec_is_image_post(p) <==> (!p.is_self && (p.post_hint@ == "image"@ || ends_with(lower_seq(p.url@), "jpg"@)
            || ends_with(lower_seq(p.url@), "jpeg"@) || ends_with(lower_seq(p.url@), "png"@) || ends_with(
            lower_seq(p.url@),
            "webp"@,
        ))),
{
    let l = lower_seq(p.url@);
    assert(link_extensions()[0] == "jpg"@);
    assert(link_extensions()[1] == "jpeg"@);
    assert(link_extensions()[2] == "png"@);
    assert(link_extensions()[3] == "webp"@);
    if exists|i: int| 0 <= i < 4 && ends_with(l, #[trigger] link_extensions()[i]) {
        let i = choose|i: int| 0 <= i < 4 && ends_with(l, #[trigger] link_extensions()[i]);
        assert(i == 0 || i == 1 || i == 2 || i == 3);
    }
}

/// A direct link to a `.webp`, `.png`, `.jpeg` or `.jpg` file (in any case)
/// that is not a self post is an image post, whatever its hint.
pub proof fn lemma_direct_image_links(p: RedditPost)
    requires
        !p.is_self,
        ends_with(lower_seq(p.url@), "webp"@) || ends_with(lower_seq(p.url@), "png"@) || ends_with(
            lower_seq(p.url@),
            "jpeg"@,
        ) || ends_with(lower_seq(p.url@), "jpg"@),
    ensures
        spec_is_image_post(p),
{
    lemma_image_post_rule(p);
}

/// How many posts to ask for: three times `count` (many posts are not
/// images), at most 100, without overflow.
pub fn fetch_limit(count: u32) -> (l: u32)
    ensures
        l == (if count * 3 < 100 {
            count * 3
        } else {
            100
        }),
{
    if count >= 34 {
        100
    } else {
        count * 3
    }
}

/// The subreddit to read: the configured one, or `wallpapers`.
pub fn subreddit_or_default(sub: &Option<String>) -> (s: String)
    ensures
        s@ == (match sub {
            Some(x) => x@,
            None => "wallpapers"@,
        }),
{
    match sub {
        Some(x) => x.clone(),
        None => owned("wallpapers"),
    }
}

/// What a fetch asks the listing for: the listing URL and the number of
/// posts, or `None` when the subreddit name is not safe to put in a URL.
pub fn listing_request(sub: &Option<String>, count: u32) -> (r: Option<(String, u32)>)
    ensures
        ({
            let s = match sub {
                Some(x) => x@,
                None => "wallpapers"@,
            };
            match r {
                Some((u, l)) => spec_valid_subreddit(s) && u@ == "https://www.reddit.com/r/"@ + s
                    + "/top.json"@ && l == (if count * 3 < 100 {
                    count * 3
                } else {
                    100
                }),
                None => !spec_valid_subreddit(s),
            }
        }),
{
    let s = subreddit_or_default(sub);
    if !is_valid_subreddit(s.as_str()) {
        return None;
    }
    Some((api_url(s.as_str()), fetch_limit(count)))
}

/// The listing URL of `subreddit`.
pub fn api_url(subreddit: &str) -> (u: String)
    ensures
        u@ == "https://www.reddit.com/r/"@ + subreddit@ + "/top.json"@,
{
    let mut u = owned("https://www.reddit.com/r/");
    push_str(&mut u, subreddit);
    push_str(&mut u, "/top.json");
    u
}

/// What follows the last `.` of `s` (all of `s` without a dot).
pub open spec fn after_last_dot(s: Seq<char>) -> Seq<char> {
    s.skip(crate::scanner::last_dot_of(s) + 1)
}

/// The leading ASCII letters and digits of `s`.
pub open spec fn alnum_prefix(s: Seq<char>) -> Seq<char>
    decreases s.len(),
{
    if s.len() > 0 && is_ascii_alnum(s[0]) {
        seq![s[0]] + alnum_prefix(s.drop_first())
    } else {
        Seq::empty()
    }
}

/// `s` without every leading `t3_`.
pub open spec fn strip_t3(s: Seq<char>) -> Seq<char>
    decreases s.len(),
{
    if starts_with(s, "t3_"@) && s.len() >= 3 {
        strip_t3(s.skip(3))
    } else {
        s
    }
}

/// The file name of a post: `reddit_<id>.<ext>`, the id without its `t3_`
/// prefix, the extension the letters and digits after the URL's last dot
/// (`jpg` when there are none).
pub open spec fn spec_reddit_filename(name: Seq<char>, url: Seq<char>) -> Seq<char> {
    let e = alnum_prefix(after_last_dot(url));
    let ext = if e.len() == 0 {
        "jpg"@
    } else {
        e
    };
    "reddit_"@ + strip_t3(name) + "."@ + ext
}

pub fn reddit_filename(name: &str, url: &str) -> (f: String)
    ensures
        f@ == spec_reddit_filename(name@, url@),
{
    let v = chars_of(url);
    let n = v.len();
    let d = after_last_dot_pos(&v);
    let ghost after = url@.skip(d as int);
    assert(after == after_last_dot(url@));
    let mut k = d;
    while k < n && crate::text::char_is_alnum(v[k])
        invariant
            d <= k <= n == v@.len(),
            v@ == url@,
            alnum_prefix(after) == v@.subrange(d as int, k as int) + alnum_prefix(url@.skip(k as int)),
        decreases n - k,
    {
        assert(url@.skip(k as int).drop_first() =~= url@.skip(k + 1));
        assert(v@.subrange(d as int, k + 1) =~= v@.subrange(d as int, k as int) + seq![v@[k as int]]);
        k = k + 1;
    }
    proof {
        assert(after =~= url@.subrange(d as int, n as int));
        if d == n {
            assert(after.len() == 0);
        }
        assert(alnum_prefix(url@.skip(k as int)) =~= Seq::<char>::empty()) by {
            if k < n {
                assert(url@.skip(k as int)[0] == v@[k as int]);
            }
        }
        assert(v@.subrange(d as int, k as int) + Seq::<char>::empty() =~= v@.subrange(d as int, k as int));
    }
    let ext = if k == d {
        owned("jpg")
    } else {
        string_of(crate::text::slice_of(&v, d, k).as_slice())
    };
    let id = strip_t3_exec(name);
    let mut f = owned("reddit_");
    push_str(&mut f, id.as_str());
    crate::text::push_char(&mut f, '.');
    push_str(&mut f, ext.as_str());
    proof {
        reveal_strlit(".");
        assert(f@ =~= "reddit_"@ + strip_t3(name@) + "."@ + ext@);
    }
    f
}

/// Where what follows the last `.` of `v` starts (0 without a dot).
fn after_last_dot_pos(v: &Vec<char>) -> (d: usize)
    ensures
        d == crate::scanner::last_dot_of(v@) + 1,
        d <= v@.len(),
{
    let n = v.len();
    let mut d = n;
    assert(v@.take(n as int) =~= v@);
    while d > 0 && v[d - 1] != '.'
        invariant
            d <= n == v@.len(),
            crate::scanner::last_dot_of(v@) == crate::scanner::last_dot_of(v@.take(d as int)),
        decreases d,
    {
        assert(v@.take(d as int).drop_last() =~= v@.take(d - 1));
        d = d - 1;
    }
    proof {
        if d > 0 {
            assert(v@.take(d as int).last() == '.');
        }
    }
    d
}

/// What follows the last `.` of `s` (all of `s` without a dot).
pub(crate) fn after_last_dot_of(s: &str) -> (r: String)
    ensures
        r@ == after_last_dot(s@),
{
    let v = chars_of(s);
    let d = after_last_dot_pos(&v);
    crate::text::suffix_from(s, d)
}

fn strip_t3_exec(name: &str) -> (r: String)
    ensures
        r@ == strip_t3(name@),
{
    let v = chars_of(name);
    let n = v.len();
    let mut i: usize = 0;
    let t3 = chars_of("t3_");
    proof {
        reveal_strlit("t3_");
    }
    assert(name@.skip(0) =~= name@);
    while n - i >= 3 && crate::text::range_starts_with(&v, i, n, &t3)
        invariant
            i <= n == v@.len(),
            v@ == name@,
            t3@ == "t3_"@,
            strip_t3(name@) == strip_t3(name@.skip(i as int)),
        decreases n - i,
    {
        assert(v@.subrange(i as int, n as int) =~= name@.skip(i as int));
        assert(name@.skip(i as int).skip(3) =~= name@.skip(i + 3));
        i = i + 3;
    }
    proof {
        assert(v@.subrange(i as int, n as int) =~= name@.skip(i as int));
        if n - i >= 3 {
        } else {
            assert(name@.skip(i as int).len() < 3);
        }
    }
    crate::text::suffix_from(name, i)
}

/// The downloads that a listing offers, in order: the URL and the file
/// name of each image post. The daemon downloads them in turn until it
/// has `count` images.
pub fn candidates(posts: &Vec<RedditPost>) -> (c: Vec<(String, String)>)
    ensures
        c@.map_values(|x: (String, String)| (x.0@, x.1@)) == image_posts(posts@),
{
    let mut c: Vec<(String, String)> = Vec::new();
    let n = posts.len();
    let mut i: usize = 0;
    while i < n
        invariant
            i <= n == posts@.len(),
            c@.map_values(|x: (String, String)| (x.0@, x.1@)) == image_posts(posts@.take(i as int)),
        decreases n - i,
    {
        let p = &posts[i];
        let ghost before = c@.map_values(|x: (String, String)| (x.0@, x.1@));
        assert(posts@.take(i + 1).drop_last() =~= posts@.take(i as int));
        if is_image_post(p) {
            c.push((p.url.clone(), reddit_filename(p.name.as_str(), p.url.as_str())));
            assert(c@.map_values(|x: (String, String)| (x.0@, x.1@)) =~= before.push(
                (p.url@, spec_reddit_filename(p.name@, p.url@)),
            ));
        }
        i = i + 1;
    }
    assert(posts@.take(n as int) =~= posts@);
    c
}

pub open spec fn image_posts(ps: Seq<RedditPost>) -> Seq<(Seq<char>, Seq<char>)>
    decreases ps.len(),
{
    if ps.len() == 0 {
        Seq::empty()
    } else if spec_is_image_post(ps.last()) {
        image_posts(ps.drop_last()).push((ps.last().url@, spec_reddit_filename(ps.last().name@, ps.last().url@)))
    } else {
        image_posts(ps.drop_last())
    }
}

} // verus!

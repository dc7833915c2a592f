//! Wallhaven: the toplist of the Wallhaven API, safe for work only by
//! default; an API key is optional (needed for NSFW content only).

use vstd::prelude::*;

use crate::text::{owned, push_str};

verus! {

/// An image of the answer, as far as it is used.
#[derive(Debug, Clone)]
pub struct WallhavenImage {
    pub id: String,
    /// The download URL, such as
    /// `https://w.wallhaven.cc/full/ab/wallhaven-ab1234.jpg`.
    pub path: String,
}

pub fn api_url() -> (u: &'static str)
    ensures
        u@ == "https://wallhaven.cc/api/v1/search"@,
{
    "https://wallhaven.cc/api/v1/search"
}

/// The number of images per page: `count` within 1..=24.
pub open spec fn spec_per_page(count: u32) -> u32 {
    if count < 1 {
        1
    } else if count > 24 {
        24
    } else {
        count
    }
}

/// The search parameters: the query (`nature` by default), the toplist,
/// SFW only, all categories, at least 1920×1080, the page size, and the
/// key when there is a non-empty one.
pub open spec fn spec_params(query: Option<Seq<char>>, count: u32, api_key: Option<Seq<char>>) -> Seq<(Seq<char>, Seq<char>)> {
    let base = seq![
        ("q"@, match query {
            Some(q) => q,
            None => "nature"@,
        }),
        ("sorting"@, "toplist"@),
        ("purity"@, "100"@),
        ("categories"@, "111"@),
        ("atleast"@, "1920x1080"@),
        ("per_page"@, crate::text::dec(spec_per_page(count) as nat)),
    ];
    match api_key {
        Some(k) => if k.len() > 0 {
            base.push(("apikey"@, k))
        } else {
            base
        },
        None => base,
    }
}

pub fn params(query: &Option<String>, count: u32, api_key: &Option<String>) -> (p: Vec<(String, String)>)
    ensures
        p@.map_values(|x: (String, String)| (x.0@, x.1@)) == spec_params(
            crate::provider::opt_string_view(*query),
            count,
            crate::provider::opt_string_view(*api_key),
        ),
{
    let q = match query {
        Some(q) => q.clone(),
        None => owned("nature"),
    };
    let n = if count < 1 {
        1
    } else if count > 24 {
        24
    } else {
        count
    };
    let mut p: Vec<(String, String)> = Vec::new();
    p.push((owned("q"), q));
    p.push((owned("sorting"), owned("toplist")));
    p.push((owned("purity"), owned("100")));
    p.push((owned("categories"), owned("111")));
    p.push((owned("atleast"), owned("1920x1080")));
    p.push((owned("per_page"), crate::text::decimal(n as u64)));
    let ghost base = p@.map_values(|x: (String, String)| (x.0@, x.1@));
    if let Some(k) = api_key {
        if k.unicode_len() > 0 {
            p.push((owned("apikey"), k.clone()));
            assert(p@.map_values(|x: (String, String)| (x.0@, x.1@)) =~= base.push(("apikey"@, k@)));
        }
    }
    p
}

/// The file name of an image: `wallhaven_<id>.<ext>`, the extension what
/// follows the last `.` of its path (all of the path without a dot).
pub open spec fn spec_file_name(id: Seq<char>, path: Seq<char>) -> Seq<char> {
    "wallhaven_"@ + id + "."@ + crate::provider::reddit::after_last_dot(path)
}

/// The downloads an answer offers: each image as `(path, file name)`.
pub fn candidates(images: &Vec<WallhavenImage>) -> (c: Vec<(String, String)>)
    ensures
        c@.len() == images@.len(),
        forall|i: int| 0 <= i < c@.len() ==> (#[trigger] c@[i]).0@ == images@[i].path@ && c@[i].1@
            == spec_file_name(images@[i].id@, images@[i].path@),
{
    let mut c: Vec<(String, String)> = Vec::new();
    let mut i: usize = 0;
    while i < images.len()
        invariant
            i <= images@.len(),
            c@.len() == i,
            forall|k: int| 0 <= k < i ==> (#[trigger] c@[k]).0@ == images@[k].path@ && c@[k].1@
                == spec_file_name(images@[k].id@, images@[k].path@),
        decreases images.len() - i,
    {
        let img = &images[i];
        let ext = crate::provider::reddit::after_last_dot_of(img.path.as_str());
        let mut name = owned("wallhaven_");
        push_str(&mut name, img.id.as_str());
        crate::text::push_char(&mut name, '.');
        push_str(&mut name, ext.as_str());
        proof {
            reveal_strlit(".");
            assert(name@ =~= spec_file_name(img.id@, img.path@));
        }
        c.push((img.path.clone(), name));
        i = i + 1;
    }
    c
}

} // verus!

//! Unsplash: random photos through the Unsplash API; an access key is
//! required (the free plan allows 50 requests an hour).

use vstd::prelude::*;

use crate::text::{owned, push_str};

verus! {

/// The URLs of a photo.
#[derive(Debug, Clone)]
pub struct UnsplashUrls {
    /// Compressed, about 1080p: the default.
    pub regular: String,
    /// Full size, uncompressed: with `quality = "full"`.
    pub full: String,
}

/// A photo of the answer, as far as it is used.
#[derive(Debug, Clone)]
pub struct UnsplashPhoto {
    pub id: String,
    pub urls: UnsplashUrls,
}

pub fn api_url() -> (u: &'static str)
    ensures
        u@ == "https://api.unsplash.com/photos/random"@,
{
    "https://api.unsplash.com/photos/random"
}

/// What the request sends: the Authorization header (the key goes there,
/// not into the URL, where it could be logged) and the query parameters.
#[derive(Debug)]
pub struct UnsplashRequest {
    pub authorization: String,
    pub params: Vec<(String, String)>,
}

/// Why no request is made.
#[derive(Debug, Clone, PartialEq, Eq)]
pub enum UnsplashError {
    /// There is no API key, or it is empty.
    MissingApiKey,
}

/// The number of photos asked for: `count` within the API's 1..=30.
pub open spec fn spec_photo_count(count: u32) -> u32 {
    if count < 1 {
        1
    } else if count > 30 {
        30
    } else {
        count
    }
}

pub open spec fn spec_params(query: Option<Seq<char>>, count: u32) -> Seq<(Seq<char>, Seq<char>)> {
    seq![
        ("count"@, crate::text::dec(spec_photo_count(count) as nat)),
        ("query"@, match query {
            Some(q) => q,
            None => "wallpaper"@,
        }),
        ("orientation"@, "landscape"@),
    ]
}

/// The request for `count` photos matching `query` (`wallpaper` by
/// default) with the key `api_key`.
pub fn request(api_key: &Option<String>, query: &Option<String>, count: u32) -> (r: Result<UnsplashRequest, UnsplashError>)
    ensures
        match r {
            Ok(req) => api_key is Some && api_key->0@.len() > 0 && req.authorization@ == "Client-ID "@
                + api_key->0@ && req.params@.map_values(|p: (String, String)| (p.0@, p.1@))
                == spec_params(crate::provider::opt_string_view(*query), count),
            Err(e) => e == UnsplashError::MissingApiKey && (api_key is None || api_key->0@.len() == 0),
        },
{
    let key = match api_key {
        Some(k) => k,
        None => return Err(UnsplashError::MissingApiKey),
    };
    if key.unicode_len() == 0 {
        return Err(UnsplashError::MissingApiKey);
    }
    let mut authorization = owned("Client-ID ");
    push_str(&mut authorization, key.as_str());
    let n = if count < 1 {
        1
    } else if count > 30 {
        30
    } else {
        count
    };
    let q = match query {
        Some(q) => q.clone(),
        None => owned("wallpaper"),
    };
    let mut params: Vec<(String, String)> = Vec::new();
    params.push((owned("count"), crate::text::decimal(n as u64)));
    params.push((owned("query"), q));
    params.push((owned("orientation"), owned("landscape")));
    assert(params@.map_values(|p: (String, String)| (p.0@, p.1@)) =~= spec_params(
        crate::provider::opt_string_view(*query),
        count,
    ));
    Ok(UnsplashRequest { authorization, params })
}

/// Whether full-size photos are fetched: only with `quality = "full"`.
pub fn use_full(quality: &Option<String>) -> (b: bool)
    ensures
        b == (quality is Some && quality->0@ == "full"@),
{
    match quality {
        Some(q) => crate::text::str_eq(q.as_str(), "full"),
        None => false,
    }
}

/// The downloads an answer offers: each photo as `(url, file name)`, the
/// full or the regular URL, named `unsplash_<id>.jpg`.
pub fn candidates(photos: &Vec<UnsplashPhoto>, full: bool) -> (c: Vec<(String, String)>)
    ensures
        c@.len() == photos@.len(),
        forall|i: int| 0 <= i < c@.len() ==> (#[trigger] c@[i]).0@ == (if full {
            photos@[i].urls.full@
        } else {
            photos@[i].urls.regular@
        }) && c@[i].1@ == "unsplash_"@ + photos@[i].id@ + ".jpg"@,
{
    let mut c: Vec<(String, String)> = Vec::new();
    let mut i: usize = 0;
    while i < photos.len()
        invariant
            i <= photos@.len(),
            c@.len() == i,
            forall|k: int| 0 <= k < i ==> (#[trigger] c@[k]).0@ == (if full {
                photos@[k].urls.full@
            } else {
                photos@[k].urls.regular@
            }) && c@[k].1@ == "unsplash_"@ + photos@[k].id@ + ".jpg"@,
        decreases photos.len() - i,
    {
        let p = &photos[i];
        let url = if full {
            p.urls.full.clone()
        } else {
            p.urls.regular.clone()
        };
        let mut name = owned("unsplash_");
        push_str(&mut name, p.id.as_str());
        push_str(&mut name, ".jpg");
        c.push((url, name));
        i = i + 1;
    }
    c
}

} // verus!

//! Bing: the daily wallpapers of Bing's image archive, up to eight, in
//! their 1920×1080 version; no API key.

use vstd::prelude::*;

use crate::text::{owned, push_str};

verus! {

/// An image of the archive answer, as far as it is used.
#[derive(Debug, Clone)]
pub struct BingImage {
    /// A base path such as `/th?id=OHR.SomeName_EN-US0000000000`.
    pub urlbase: String,
    /// The day such as `20240115`, used in the file name.
    pub startdate: String,
}

/// The market asked for: the configured locale, `en-US` when none is set.
pub open spec fn spec_market(locale: Option<String>) -> Seq<char> {
    match locale {
        Some(l) => l@,
        None => "en-US"@,
    }
}

/// The archive request for the last eight days in a market.
pub open spec fn spec_api_url(locale: Option<String>) -> Seq<char> {
    "https://www.bing.com/HPImageArchive.aspx?format=js&idx=0&n=8&mkt="@ + spec_market(locale)
}

/// The archive request: the last eight days, in the configured locale
/// (`en-US` by default).
pub fn api_url(locale: &Option<String>) -> (u: String)
    ensures
        u@ == spec_api_url(*locale),
{
    let mut u = owned("https://www.bing.com/HPImageArchive.aspx?format=js&idx=0&n=8&mkt=");
    match locale {
        Some(l) => push_str(&mut u, l.as_str()),
        None => push_str(&mut u, "en-US"),
    }
    u
}

/// The 1920×1080 version of an image.
pub open spec fn spec_image_url(urlbase: Seq<char>) -> Seq<char> {
    "https://www.bing.com"@ + urlbase + "_1920x1080.jpg"@
}

/// The file name of an image: `bing_<date>.jpg`.
pub open spec fn spec_file_name(startdate: Seq<char>) -> Seq<char> {
    "bing_"@ + startdate + ".jpg"@
}

/// The downloads an archive answer offers: the first `count` images, each
/// as `(url, file name)`.
pub fn candidates(images: &Vec<BingImage>, count: u32) -> (c: Vec<(String, String)>)
    ensures
        c@.len() == (if count < images@.len() {
            count as int
        } else {
            images@.len() as int
        }),
        forall|i: int| 0 <= i < c@.len() ==> (#[trigger] c@[i]).0@ == spec_image_url(images@[i].urlbase@)
            && c@[i].1@ == spec_file_name(images@[i].startdate@),
{
    let mut c: Vec<(String, String)> = Vec::new();
    let n = images.len();
    let mut i: usize = 0;
    while i < n && (i as u64) < (count as u64)
        invariant
            i <= n == images@.len(),
            i <= count,
            c@.len() == i,
            forall|k: int| 0 <= k < i ==> (#[trigger] c@[k]).0@ == spec_image_url(images@[k].urlbase@)
                && c@[k].1@ == spec_file_name(images@[k].startdate@),
        decreases n - i,
    {
        let img = &images[i];
        let mut url = owned("https://www.bing.com");
        push_str(&mut url, img.urlbase.as_str());
        push_str(&mut url, "_1920x1080.jpg");
        let mut name = owned("bing_");
        push_str(&mut name, img.startdate.as_str());
        push_str(&mut name, ".jpg");
        c.push((url, name));
        i = i + 1;
    }
    c
}

} // verus!

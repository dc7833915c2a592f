use kabekami::provider::reddit::{
    api_url, candidates, fetch_limit, is_image_post, is_valid_subreddit, listing_request,
    reddit_filename, RedditPost,
};

fn make_post(post_hint: &str, url: &str, is_self: bool) -> RedditPost {
    RedditPost {
        name: "t3_abc".into(),
        url: url.into(),
        post_hint: post_hint.into(),
        is_self,
    }
}

#[test]
fn subreddit_validation_valid() {
    assert!(is_valid_subreddit("wallpapers"));
    assert!(is_valid_subreddit("Wallpaper_2560x1440"));
    assert!(is_valid_subreddit("EarthPorn"));
}

#[test]
fn subreddit_validation_invalid() {
    assert!(!is_valid_subreddit(""));
    assert!(!is_valid_subreddit("wallpapers?t=all&hack=1"));
    assert!(!is_valid_subreddit("../etc/passwd"));
    assert!(!is_valid_subreddit("wall papers"));
}

#[test]
fn fetch_limit_no_overflow() {
    assert_eq!(fetch_limit(u32::MAX), 100);
    assert_eq!(fetch_limit(10), 30);
    assert_eq!(fetch_limit(50), 100);
}

#[test]
fn image_filter_post_hint_image() {
    assert!(is_image_post(&make_post("image", "https://i.redd.it/someid", false)));
}

#[test]
fn image_filter_extension_fallback() {
    assert!(is_image_post(&make_post("", "https://example.com/photo.jpg", false)));
    assert!(is_image_post(&make_post("", "https://example.com/photo.PNG", false)));
}

#[test]
fn image_filter_rejects_self_posts() {
    assert!(!is_image_post(&make_post("image", "https://i.redd.it/x", true)));
}

#[test]
fn image_filter_rejects_non_image_links() {
    assert!(!is_image_post(&make_post("link", "https://imgur.com/gallery/abc", false)));
    assert!(!is_image_post(&make_post("hosted:video", "https://v.redd.it/x.mp4", false)));
    assert!(!is_image_post(&make_post("", "https://example.com/video.mp4", false)));
}

#[test]
fn fetch_limit_edges() {
    assert_eq!(fetch_limit(0), 0);
    assert_eq!(fetch_limit(33), 99);
    assert_eq!(fetch_limit(34), 100);
}

#[test]
fn reddit_filename_strips_prefix_and_takes_extension() {
    assert_eq!(reddit_filename("t3_abc123", "https://i.redd.it/xyz.png"), "reddit_abc123.png");
    assert_eq!(reddit_filename("t3_abc", "https://i.redd.it/xyz.jpg?width=10"), "reddit_abc.jpg");
    assert_eq!(reddit_filename("t3_abc", "https://i.redd.it/xyz."), "reddit_abc.jpg");
    assert_eq!(reddit_filename("t3_t3_q", "https://i.redd.it/a.webp"), "reddit_q.webp");
    assert_eq!(reddit_filename("plain", "noext"), "reddit_plain.noext");
}

#[test]
fn listing_request_default_and_invalid() {
    let r = listing_request(&None, 10).unwrap();
    assert_eq!(r.0, "https://www.reddit.com/r/wallpapers/top.json");
    assert_eq!(r.1, 30);
    let r = listing_request(&Some("EarthPorn".to_string()), 40).unwrap();
    assert_eq!(r.0, api_url("EarthPorn"));
    assert_eq!(r.1, 100);
    assert!(listing_request(&Some("../x".to_string()), 5).is_none());
}

#[test]
fn candidates_keep_image_posts_in_order() {
    let posts = vec![
        make_post("image", "https://i.redd.it/a.jpeg", false),
        make_post("", "https://example.com/video.mp4", false),
        RedditPost {
            name: "t3_z".into(),
            url: "https://example.com/b.png".into(),
            post_hint: "".into(),
            is_self: false,
        },
    ];
    let c = candidates(&posts);
    assert_eq!(c.len(), 2);
    assert_eq!(c[0].0, "https://i.redd.it/a.jpeg");
    assert_eq!(c[0].1, "reddit_abc.jpeg");
    assert_eq!(c[1].1, "reddit_z.png");
}

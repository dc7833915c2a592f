use kabekami::config::{OnlineSourceConfig, ProviderKind};
use kabekami::provider::bing::{self, BingImage};
use kabekami::provider::unsplash::{self, UnsplashError, UnsplashPhoto, UnsplashUrls};
use kabekami::provider::wallhaven::{self, WallhavenImage};
use kabekami::provider::{
    add_received, check_request_url, check_response, fetch_plan, fetch_result, first_private_address,
    is_fetch_due, judge_request_host, prune_targets, redirect_decision, resolver_refusal,
    retry_delay_secs, DownloadError, DownloadQueue, IpAddress, RedirectDecision, MAX_BYTES,
};

fn source(provider: ProviderKind, enabled: bool, hours: Option<u64>) -> OnlineSourceConfig {
    OnlineSourceConfig {
        provider,
        enabled,
        download_dir: None,
        api_key: None,
        query: None,
        count: 10,
        subreddit: None,
        interval_hours: hours,
        locale: None,
        quality: None,
    }
}

fn strings(v: &[&str]) -> Vec<String> {
    v.iter().map(|s| s.to_string()).collect()
}

#[test]
fn resolver_rejects_private_literal() {
    let Some(msg) = resolver_refusal("localhost") else {
        panic!("localhost must be rejected, got Ok");
    };
    assert!(msg.contains("private"), "error message should mention private, got: {}", msg);
}

#[test]
fn resolver_rejects_ip_literal_loopback() {
    assert!(resolver_refusal("127.0.0.1").is_some(), "127.0.0.1 must be rejected");
}

#[test]
fn resolver_lets_public_names_through_to_the_lookup() {
    assert_eq!(resolver_refusal("www.bing.com"), None);
    assert_eq!(resolver_refusal("[::1]").unwrap(), "refusing private host [::1]");
}

#[test]
fn resolved_addresses_are_checked_one_by_one() {
    let public4 = IpAddress::V4([8, 8, 8, 8]);
    let meta = IpAddress::V4([169, 254, 169, 254]);
    let public6 = IpAddress::V6([0x2606, 0x4700, 0x4700, 0, 0, 0, 0, 0x1111]);
    let ula = IpAddress::V6([0xfd12, 0x3456, 0, 0, 0, 0, 0, 1]);
    assert_eq!(first_private_address(&vec![public4, public6]), None);
    assert_eq!(first_private_address(&vec![public4, meta, ula]), Some(1));
    assert_eq!(first_private_address(&vec![public6, ula]), Some(1));
    assert_eq!(first_private_address(&vec![]), None);
}

#[test]
fn request_urls_are_checked_before_connecting() {
    assert_eq!(check_request_url("https://www.bing.com/th?id=x"), Ok(()));
    assert_eq!(check_request_url("not a url"), Err(DownloadError::InvalidUrl));
    assert_eq!(
        check_request_url("http://127.0.0.1/secret"),
        Err(DownloadError::PrivateHost("127.0.0.1".to_string()))
    );
    assert_eq!(
        check_request_url("http://[::1]:8080/"),
        Err(DownloadError::PrivateHost("[::1]".to_string()))
    );
    assert_eq!(
        check_request_url("http://LOCALHOST/"),
        Err(DownloadError::PrivateHost("localhost".to_string()))
    );
    assert_eq!(check_request_url("data:text/plain,Stuff"), Ok(()));
}

#[test]
fn judged_hosts() {
    assert_eq!(judge_request_host(None), Err(DownloadError::InvalidUrl));
    assert_eq!(judge_request_host(Some(None)), Ok(()));
    assert_eq!(judge_request_host(Some(Some("example.com".to_string()))), Ok(()));
    assert_eq!(
        judge_request_host(Some(Some("10.0.0.1".to_string()))),
        Err(DownloadError::PrivateHost("10.0.0.1".to_string()))
    );
}

#[test]
fn responses_are_checked_in_order() {
    assert_eq!(check_response(404, None, None, None), Err(DownloadError::HttpStatus(404)));
    assert_eq!(check_response(199, None, None, None), Err(DownloadError::HttpStatus(199)));
    assert_eq!(
        check_response(200, Some("192.168.1.1".to_string()), Some("text/html".to_string()), None),
        Err(DownloadError::PrivateFinalHost("192.168.1.1".to_string()))
    );
    assert_eq!(
        check_response(200, Some("example.com".to_string()), Some("Text/HTML; charset=utf-8".to_string()), None),
        Err(DownloadError::UnexpectedContentType("text/html; charset=utf-8".to_string()))
    );
    assert_eq!(
        check_response(204, None, Some("application/json".to_string()), Some(3)),
        Err(DownloadError::UnexpectedContentType("application/json".to_string()))
    );
    assert_eq!(
        check_response(200, None, Some("image/jpeg".to_string()), Some(MAX_BYTES + 1)),
        Err(DownloadError::TooLargeClaimed(MAX_BYTES + 1))
    );
    assert_eq!(check_response(299, None, None, Some(MAX_BYTES)), Ok(()));
}

#[test]
fn received_bytes_are_capped() {
    assert_eq!(MAX_BYTES, 52_428_800);
    assert_eq!(add_received(0, 10), Ok(10));
    assert_eq!(add_received(MAX_BYTES - 10, 10), Ok(MAX_BYTES));
    assert_eq!(add_received(MAX_BYTES, 1), Err(DownloadError::TooLarge));
    assert_eq!(add_received(u64::MAX, u64::MAX), Err(DownloadError::TooLarge));
}

#[test]
fn retries_wait_two_then_four_seconds() {
    assert_eq!(retry_delay_secs(0), Some(2));
    assert_eq!(retry_delay_secs(1), Some(4));
    assert_eq!(retry_delay_secs(2), None);
    assert_eq!(retry_delay_secs(7), None);
}

#[test]
fn redirects_are_limited_and_checked() {
    assert_eq!(redirect_decision(0, Some("cdn.example.com".to_string())), RedirectDecision::Follow);
    assert_eq!(redirect_decision(4, None), RedirectDecision::Follow);
    assert_eq!(redirect_decision(5, Some("cdn.example.com".to_string())), RedirectDecision::TooMany);
    assert_eq!(
        redirect_decision(1, Some("169.254.169.254".to_string())),
        RedirectDecision::PrivateHost("169.254.169.254".to_string())
    );
}

#[test]
fn fetch_is_due_without_stamp_or_after_the_interval() {
    let c = source(ProviderKind::Bing, true, Some(2));
    assert!(is_fetch_due(&c, None));
    assert!(!is_fetch_due(&c, Some(7199)));
    assert!(is_fetch_due(&c, Some(7200)));
    let d = source(ProviderKind::Bing, true, None);
    assert!(!is_fetch_due(&d, Some(3600)));
    assert!(is_fetch_due(&d, Some(24 * 3600)));
}

#[test]
fn plan_takes_enabled_due_providers_and_all_enabled_when_forced() {
    let configs = vec![
        source(ProviderKind::Bing, true, Some(1)),
        source(ProviderKind::Unsplash, false, Some(1)),
        source(ProviderKind::Wallhaven, true, Some(1)),
        source(ProviderKind::Reddit, true, Some(1)),
    ];
    let elapsed = vec![Some(10), None, None, Some(3600)];
    assert_eq!(fetch_plan(&configs, &elapsed, false), vec![2, 3]);
    assert_eq!(fetch_plan(&configs, &elapsed, true), vec![0, 2, 3]);
}

#[test]
fn empty_fetches_leave_no_result() {
    assert!(fetch_result(ProviderKind::Bing, vec![]).is_none());
    let r = fetch_result(ProviderKind::Reddit, strings(&["/d/a.jpg"])).unwrap();
    assert_eq!(r.provider, "reddit");
    assert_eq!(r.new_paths, strings(&["/d/a.jpg"]));
}

#[test]
fn prune_keeps_stamp_temporaries_and_kept_paths() {
    let entries = strings(&[
        "/d/.last_fetch",
        "/d/old.jpg",
        "/d/new.jpg",
        "/d/partial.tmp",
        "/d//other.png",
    ]);
    let keep = strings(&["/d/new.jpg", "/d/other.png"]);
    assert_eq!(prune_targets(&entries, &keep), strings(&["/d/old.jpg"]));
    assert_eq!(prune_targets(&entries, &vec![]), strings(&["/d/old.jpg", "/d/new.jpg", "/d//other.png"]));
}

#[test]
fn queue_stops_at_its_target() {
    let cands = vec![
        ("u1".to_string(), "a.jpg".to_string()),
        ("u2".to_string(), "b.jpg".to_string()),
        ("u3".to_string(), "c.jpg".to_string()),
    ];
    let mut q = DownloadQueue::new(&cands, "/d", Some(1));
    assert_eq!(q.next_download(), Some(("u1".to_string(), "/d/a.jpg".to_string())));
    q.record(false);
    assert_eq!(q.next_download(), Some(("u2".to_string(), "/d/b.jpg".to_string())));
    q.record(true);
    assert_eq!(q.next_download(), None);
    assert_eq!(q.into_available(), strings(&["/d/b.jpg"]));

    let mut q = DownloadQueue::new(&cands, "/d", None);
    let mut n = 0;
    while let Some(_) = q.next_download() {
        q.record(n != 1);
        n += 1;
    }
    assert_eq!(n, 3);
    assert_eq!(q.into_available(), strings(&["/d/a.jpg", "/d/c.jpg"]));
}

#[test]
fn bing_takes_count_images_in_full_hd() {
    let images = vec![
        BingImage { urlbase: "/th?id=OHR.A_EN-US1".to_string(), startdate: "20240115".to_string() },
        BingImage { urlbase: "/th?id=OHR.B_EN-US2".to_string(), startdate: "20240114".to_string() },
    ];
    let c = bing::candidates(&images, 1);
    assert_eq!(c.len(), 1);
    assert_eq!(c[0].0, "https://www.bing.com/th?id=OHR.A_EN-US1_1920x1080.jpg");
    assert_eq!(c[0].1, "bing_20240115.jpg");
    assert_eq!(bing::candidates(&images, 10).len(), 2);
    assert_eq!(bing::api_url(&None), "https://www.bing.com/HPImageArchive.aspx?format=js&idx=0&n=8&mkt=en-US");
    assert_eq!(
        bing::api_url(&Some("ja-JP".to_string())),
        "https://www.bing.com/HPImageArchive.aspx?format=js&idx=0&n=8&mkt=ja-JP"
    );
}

#[test]
fn unsplash_needs_a_key_and_clamps_the_count() {
    assert_eq!(unsplash::request(&None, &None, 5).unwrap_err(), UnsplashError::MissingApiKey);
    assert_eq!(unsplash::request(&Some(String::new()), &None, 5).unwrap_err(), UnsplashError::MissingApiKey);
    let r = unsplash::request(&Some("KEY".to_string()), &None, 0).unwrap();
    assert_eq!(r.authorization, "Client-ID KEY");
    assert_eq!(
        r.params,
        vec![
            ("count".to_string(), "1".to_string()),
            ("query".to_string(), "wallpaper".to_string()),
            ("orientation".to_string(), "landscape".to_string()),
        ]
    );
    let r = unsplash::request(&Some("KEY".to_string()), &Some("sea".to_string()), 99).unwrap();
    assert_eq!(r.params[0].1, "30");
    assert_eq!(r.params[1].1, "sea");
    assert!(unsplash::use_full(&Some("full".to_string())));
    assert!(!unsplash::use_full(&Some("regular".to_string())));
    assert!(!unsplash::use_full(&None));
    let photos = vec![UnsplashPhoto {
        id: "abc".to_string(),
        urls: UnsplashUrls { regular: "https://r/abc".to_string(), full: "https://f/abc".to_string() },
    }];
    assert_eq!(unsplash::candidates(&photos, false), vec![("https://r/abc".to_string(), "unsplash_abc.jpg".to_string())]);
    assert_eq!(unsplash::candidates(&photos, true)[0].0, "https://f/abc");
}

#[test]
fn wallhaven_parameters_and_names() {
    let p = wallhaven::params(&None, 100, &Some(String::new()));
    assert_eq!(
        p,
        vec![
            ("q".to_string(), "nature".to_string()),
            ("sorting".to_string(), "toplist".to_string()),
            ("purity".to_string(), "100".to_string()),
            ("categories".to_string(), "111".to_string()),
            ("atleast".to_string(), "1920x1080".to_string()),
            ("per_page".to_string(), "24".to_string()),
        ]
    );
    let p = wallhaven::params(&Some("city".to_string()), 0, &Some("K".to_string()));
    assert_eq!(p[0].1, "city");
    assert_eq!(p[5].1, "1");
    assert_eq!(p[6], ("apikey".to_string(), "K".to_string()));
    let images = vec![WallhavenImage {
        id: "ab1234".to_string(),
        path: "https://w.wallhaven.cc/full/ab/wallhaven-ab1234.png".to_string(),
    }];
    let c = wallhaven::candidates(&images);
    assert_eq!(c[0].1, "wallhaven_ab1234.png");
}

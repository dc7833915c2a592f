use kabekami::cache::{is_cache_file, key_bytes, order_by_age, Cache, CacheEntry, CacheKey, Eviction};
use kabekami::config::DisplayMode;
use kabekami::daemon::cache_keys;
use kabekami::screen::Monitor;

fn tmp_cache(name: &str) -> Cache {
    Cache::new(format!("/tmp/kabekami-cache-test-{}", name), 10)
}

fn key(src: &str) -> CacheKey {
    CacheKey {
        src: src.to_string(),
        screen_w: 1920,
        screen_h: 1080,
        mode: DisplayMode::BlurPad,
        blur_sigma_bits: 25.0f32.to_bits(),
        bg_darken_bits: 0.1f32.to_bits(),
    }
}

#[test]
fn different_keys_produce_different_paths() {
    let cache = tmp_cache("keys");
    let k1 = key("/tmp/a.jpg");
    let k2 = key("/tmp/b.jpg");
    assert_ne!(cache.path_for(&k1), cache.path_for(&k2));
}

#[test]
fn mode_and_sigma_affect_hash() {
    let cache = tmp_cache("hash");
    let mut k1 = key("/tmp/x.jpg");
    let mut k2 = k1.clone();
    k2.mode = DisplayMode::Fill;
    assert_ne!(cache.path_for(&k1), cache.path_for(&k2));

    k1.blur_sigma_bits = 10.0f32.to_bits();
    k2.blur_sigma_bits = 20.0f32.to_bits();
    k2.mode = k1.mode;
    assert_ne!(cache.path_for(&k1), cache.path_for(&k2));
}

#[test]
fn key_bytes_and_path_are_exact() {
    let k = key("/tmp/x.jpg");
    let expected: Vec<u8> = vec![
        0x2f, 0x74, 0x6d, 0x70, 0x2f, 0x78, 0x2e, 0x6a, 0x70, 0x67, 0x00, 0x80, 0x07, 0x00, 0x00, 0x38,
        0x04, 0x00, 0x00, 0x42, 0x6c, 0x75, 0x72, 0x50, 0x61, 0x64, 0x00, 0x00, 0x00, 0xc8, 0x41, 0xcd,
        0xcc, 0xcc, 0x3d,
    ];
    assert_eq!(key_bytes(&k), expected);
    let cache = Cache::new("/var/cache/kb".to_string(), 1);
    assert_eq!(
        cache.path_for(&k),
        "/var/cache/kb/5634b3bb2a6b2e78db9fb65e0745f2f5f80705131a07b2973143fa041971f39e.jpg"
    );
    assert_eq!(cache.path_for_digest(&vec![0x00, 0x0f, 0xa9]), "/var/cache/kb/000fa9.jpg");
}

#[test]
fn limit_is_in_bytes_and_saturates() {
    assert_eq!(Cache::new("/c".to_string(), 500).max_size_bytes(), 500 * 1024 * 1024);
    assert_eq!(Cache::new("/c".to_string(), 0).max_size_bytes(), 0);
    assert_eq!(Cache::new("/c".to_string(), u64::MAX).max_size_bytes(), u64::MAX);
}

#[test]
fn only_jpg_files_are_cache_files() {
    assert!(is_cache_file("/c/abc.jpg"));
    assert!(!is_cache_file("/c/abc.JPG"));
    assert!(!is_cache_file("/c/abc.jpg.tmp"));
    assert!(!is_cache_file("/c/.jpg"));
    assert!(!is_cache_file("/c/jpg"));
}

fn entry(path: &str, size: u64, mtime: u128) -> CacheEntry {
    CacheEntry { path: path.to_string(), size, mtime }
}

#[test]
fn age_order_is_stable() {
    let es = vec![entry("a", 1, 30), entry("b", 1, 10), entry("c", 1, 30), entry("d", 1, 0)];
    assert_eq!(order_by_age(&es), vec![3, 1, 0, 2]);
    assert_eq!(order_by_age(&vec![]), Vec::<usize>::new());
}

fn run(e: &mut Eviction, fail: &str) -> Vec<String> {
    let mut offered = Vec::new();
    while let Some(p) = e.next_victim() {
        let ok = p != fail;
        offered.push(p);
        e.removed(ok);
    }
    offered
}

#[test]
fn eviction_removes_oldest_files_first() {
    let mib = 1024 * 1024;
    let es = vec![entry("/c/zzzznew.jpg", 600 * 1024, 20), entry("/c/0000old.jpg", 600 * 1024, 10)];
    let mut e = Eviction::new(mib, es);
    assert_eq!(run(&mut e, ""), vec!["/c/0000old.jpg".to_string()]);
}

#[test]
fn eviction_goes_on_past_a_failed_removal_and_stops_within_the_limit() {
    let es = vec![entry("a", 5, 1), entry("b", 5, 2), entry("c", 5, 3), entry("d", 5, 4)];
    let mut e = Eviction::new(10, es.clone());
    assert_eq!(run(&mut e, "a"), vec!["a".to_string(), "b".to_string(), "c".to_string()]);
    let mut e = Eviction::new(0, es.clone());
    assert!(run(&mut e, "").is_empty());
    let mut e = Eviction::new(20, es);
    assert!(run(&mut e, "").is_empty());
}

#[test]
fn cache_keys_are_one_per_resolution_and_carry_display_settings() {
    let mon = |name: &str, width: u32, height: u32| Monitor { name: name.to_string(), width, height };
    let screens = vec![mon("DP-1", 3840, 2160), mon("DP-2", 1920, 1080), mon("HDMI-1", 3840, 2160)];
    let src = "/pics/a.jpg";
    let keys = cache_keys(src, &screens, DisplayMode::Fit, 12.5f32.to_bits(), 0.25f32.to_bits());
    assert_eq!(
        keys.iter().map(|k| (k.screen_w, k.screen_h)).collect::<Vec<_>>(),
        vec![(3840, 2160), (1920, 1080)],
        "one per resolution"
    );
    for k in &keys {
        assert_eq!(k.src, src);
        assert_eq!(k.mode, DisplayMode::Fit);
        assert_eq!(f32::from_bits(k.blur_sigma_bits), 12.5);
        assert_eq!(f32::from_bits(k.bg_darken_bits), 0.25);
    }
}

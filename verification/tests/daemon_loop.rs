use kabekami::blacklist::Blacklist;
use kabekami::cache::Claims;
use kabekami::config::{DisplayMode, OnlineSourceConfig, Order, ProviderKind, MIN_INTERVAL_SECS};
use kabekami::control::{
    add_fetched, favorites_destination, fetch_notice_body, has_online, interval_from_tray,
    needs_rescan, prefetch_is_stale, prefetch_keys, replace, screen_assignments,
};
use kabekami::notify::{info, Hint, Notifier};
use kabekami::scheduler::Scheduler;
use kabekami::screen::Monitor;
use kabekami::screen_watcher::{same_monitors, ScreenWatch, MIN_INTERVAL_NANOS};
use kabekami::session::{on_name_owner_changed, on_prepare_for_shutdown};
use kabekami::shortcuts::{registrations, shortcut_command};
use kabekami::tray::TrayCmd;

fn strings(v: &[&str]) -> Vec<String> {
    v.iter().map(|s| s.to_string()).collect()
}

fn mon(name: &str, width: u32, height: u32) -> Monitor {
    Monitor { name: name.to_string(), width, height }
}

#[test]
fn fetched_images_join_the_rotation_unless_blacklisted() {
    let mut s = Scheduler::new(strings(&["/p/a.jpg"]), Order::Sequential);
    let bl = Blacklist::parse("/d/bad.jpg\n", "/c/blacklist.txt".to_string());
    let added = add_fetched(&mut s, &bl, &strings(&["/d/new.jpg", "/d/bad.jpg", "/p/a.jpg"]));
    assert_eq!(added, 2);
    assert_eq!(s.image_count(), 2);
    assert_eq!(s.next(), Some("/p/a.jpg".to_string()));
    assert_eq!(s.next(), Some("/d/new.jpg".to_string()));
}

#[test]
fn fetched_images_already_known_under_another_spelling_are_not_added() {
    let mut s = Scheduler::new(strings(&["/p/a.jpg"]), Order::Sequential);
    let bl = Blacklist::parse("", "/c/blacklist.txt".to_string());
    add_fetched(&mut s, &bl, &strings(&["/p//a.jpg", "/d/n.jpg", "/d/./n.jpg"]));
    assert_eq!(s.image_count(), 2);
}

#[test]
fn notice_body_fills_both_slots() {
    assert_eq!(
        fetch_notice_body("Downloaded {count} image(s) from {provider}", "bing", 3),
        "Downloaded 3 image(s) from bing"
    );
    assert_eq!(fetch_notice_body("{count}{count}", "x", 12), "1212");
    assert_eq!(replace("aaa", "aa", "b"), "ba");
    assert_eq!(replace("abc", "z", "y"), "abc");
}

#[test]
fn rescan_when_sources_change_or_watching_is_partial() {
    let a = strings(&["/p", "/q"]);
    assert!(!needs_rescan(&a, true, &strings(&["/p/", "/q"]), true, true));
    assert!(needs_rescan(&a, true, &strings(&["/p"]), true, true));
    assert!(needs_rescan(&a, false, &a, true, true));
    assert!(needs_rescan(&a, true, &a, true, false));
    assert!(needs_rescan(&a, true, &strings(&["/q", "/p"]), true, true));
}

#[test]
fn prefetch_is_stale_when_next_or_key_settings_change() {
    let a = "/p/a.jpg".to_string();
    let b = "/p/b.jpg".to_string();
    assert!(!prefetch_is_stale(Some(&a), Some(&a), false, false));
    assert!(!prefetch_is_stale(None, None, false, false));
    assert!(prefetch_is_stale(Some(&a), Some(&b), false, false));
    assert!(prefetch_is_stale(Some(&a), None, false, false));
    assert!(prefetch_is_stale(Some(&a), Some(&a), true, false));
    assert!(prefetch_is_stale(Some(&a), Some(&a), false, true));
}

#[test]
fn tray_interval_has_a_floor() {
    assert_eq!(interval_from_tray(1), MIN_INTERVAL_SECS);
    assert_eq!(interval_from_tray(30), 30);
}

#[test]
fn favorites_get_the_file_name() {
    let cur = "/p/x/a.jpg".to_string();
    let fav = "/home/u/Pictures/fav".to_string();
    assert_eq!(favorites_destination(Some(&cur), Some(&fav)), Some("/home/u/Pictures/fav/a.jpg".to_string()));
    assert_eq!(favorites_destination(None, Some(&fav)), None);
    assert_eq!(favorites_destination(Some(&cur), None), None);
    assert_eq!(favorites_destination(Some(&"/".to_string()), Some(&fav)), None);
}

#[test]
fn online_sources_count_only_when_enabled() {
    let src = |enabled: bool| OnlineSourceConfig {
        provider: ProviderKind::Bing,
        enabled,
        download_dir: None,
        api_key: None,
        query: None,
        count: 5,
        subreddit: None,
        interval_hours: None,
        locale: None,
        quality: None,
    };
    assert!(!has_online(&vec![]));
    assert!(!has_online(&vec![src(false)]));
    assert!(has_online(&vec![src(false), src(true)]));
}

#[test]
fn monitors_get_the_image_of_their_resolution() {
    let screens = vec![mon("DP-1", 3840, 2160), mon("DP-2", 1920, 1080), mon("HDMI-1", 3840, 2160), mon("X", 800, 600)];
    let processed = vec![(3840, 2160, "/c/4k.jpg".to_string()), (1920, 1080, "/c/hd.jpg".to_string())];
    assert_eq!(
        screen_assignments(&screens, &processed),
        vec![(0, "/c/4k.jpg".to_string()), (1, "/c/hd.jpg".to_string()), (2, "/c/4k.jpg".to_string())]
    );
}

#[test]
fn prefetch_warms_the_next_image_only_when_enabled() {
    let screens = vec![mon("DP-1", 3840, 2160)];
    let next = "/p/b.jpg".to_string();
    assert!(prefetch_keys(false, Some(&next), &screens, DisplayMode::Fill, 0, 0).is_empty());
    assert!(prefetch_keys(true, None, &screens, DisplayMode::Fill, 0, 0).is_empty());
    let k = prefetch_keys(true, Some(&next), &screens, DisplayMode::Fill, 1, 2);
    assert_eq!(k.len(), 1);
    assert_eq!(k[0].src, "/p/b.jpg");
    assert_eq!((k[0].screen_w, k[0].screen_h), (3840, 2160));
}

#[test]
fn session_signals() {
    assert!(matches!(on_prepare_for_shutdown(true), Some(TrayCmd::Quit)));
    assert!(on_prepare_for_shutdown(false).is_none());
    assert!(matches!(on_name_owner_changed("org.kde.plasmashell", ":1.42"), Some(TrayCmd::PlasmaRestarted)));
    assert!(on_name_owner_changed("org.kde.plasmashell", "").is_none());
    assert!(on_name_owner_changed("org.kde.kded6", ":1.9").is_none());
}

#[test]
fn shortcuts_are_registered_and_mapped() {
    let r = registrations();
    assert_eq!(r.len(), 5);
    assert_eq!(r[0], strings(&["kabekami", "next_wallpaper", "kabekami", "Next Wallpaper"]));
    assert_eq!(r[4], strings(&["kabekami", "blacklist_current", "kabekami", "Never Show Again"]));
    assert!(matches!(shortcut_command("kabekami", "next_wallpaper"), Some(TrayCmd::Next)));
    assert!(matches!(shortcut_command("kabekami", "prev_wallpaper"), Some(TrayCmd::Prev)));
    assert!(matches!(shortcut_command("kabekami", "toggle_pause"), Some(TrayCmd::TogglePause)));
    assert!(matches!(shortcut_command("kabekami", "trash_current"), Some(TrayCmd::DeleteCurrent)));
    assert!(matches!(shortcut_command("kabekami", "blacklist_current"), Some(TrayCmd::BlacklistCurrent)));
    assert!(shortcut_command("kabekami", "other").is_none());
    assert!(shortcut_command("kwin", "next_wallpaper").is_none());
}

#[test]
fn screen_watch_throttles_and_reports_changes() {
    let initial = vec![mon("DP-1", 1920, 1080)];
    let mut w = ScreenWatch::new(initial);
    assert!(w.should_detect(0));
    assert!(w.detected(vec![mon("DP-1", 1920, 1080)], 10).is_none());
    assert!(!w.should_detect(10 + MIN_INTERVAL_NANOS - 1));
    assert!(w.should_detect(10 + MIN_INTERVAL_NANOS));
    assert!(w.detected(vec![], 100).is_none());
    let changed = w.detected(vec![mon("DP-1", 3840, 2160)], 200).unwrap();
    assert!(same_monitors(&changed, &vec![mon("DP-1", 3840, 2160)]));
    assert!(w.detected(vec![mon("DP-1", 3840, 2160)], 300).is_none());
    assert!(!same_monitors(&vec![mon("A", 1, 1)], &vec![mon("B", 1, 1)]));
}

#[test]
fn error_notifications_replace_each_other() {
    let t = kabekami::lang::en();
    let mut n = Notifier::new(&t);
    let first = n.error("broken", Some("/p/a.jpg"));
    assert_eq!(first.icon, "dialog-error");
    assert_eq!(first.replaces_id, 0);
    assert_eq!(first.expire_ms, -1);
    assert_eq!(first.summary, t.notify_failed);
    assert_eq!(
        first.hints,
        vec![
            ("resident".to_string(), Hint::Bool(true)),
            ("category".to_string(), Hint::Str("device.error".to_string())),
            ("x-kde-origin-url".to_string(), Hint::Str("file:///p/a.jpg".to_string())),
        ]
    );
    n.error_shown(17);
    assert_eq!(n.error("again", None).replaces_id, 17);
    assert_eq!(n.error("again", None).hints.len(), 2);
    n.clear();
    assert_eq!(n.error("new", None).replaces_id, 0);
    let w = n.warn("careful");
    assert_eq!((w.icon.as_str(), w.expire_ms, w.replaces_id), ("dialog-warning", 5000, 0));
    n.warn_shown(5);
    assert_eq!(n.warn("again").replaces_id, 5);
    let i = info("Online sources", "Downloaded 3 image(s) from bing");
    assert_eq!((i.icon.as_str(), i.expire_ms, i.replaces_id, i.hints.len()), ("preferences-desktop-wallpaper", 5000, 0, 0));
}

#[test]
fn one_claimant_per_output() {
    let mut c = Claims::new();
    assert!(c.claim("/cache/a.webp"));
    assert!(!c.claim("/cache/a.webp"));
    assert!(c.claim("/cache/b.webp"));
    c.release("/cache/a.webp");
    assert!(c.claim("/cache/a.webp"));
}

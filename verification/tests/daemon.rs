use kabekami::blacklist::Blacklist;
use kabekami::config::{
    default_online_count, Config, DisplayMode, OnlineSourceConfig, Order, ProviderKind, UserDirs,
};
use kabekami::daemon::{
    collect_source_dirs, daemon_method, detection_delay, distinct_sizes, parse_cli, primary_size,
    resolve_lang, screen_from_env, should_throttle, tray_display_name, apply_watch_event, CliCmd,
    CliRequest, FALLBACK_SCREEN_H, FALLBACK_SCREEN_W,
};
use kabekami::i18n::registry;
use kabekami::scheduler::Scheduler;
use kabekami::screen::Monitor;
use kabekami::tray::TrayCmd;
use kabekami::watcher::WatchEvent;

fn mon(name: &str, width: u32, height: u32) -> Monitor {
    Monitor { name: name.to_string(), width, height }
}

fn mixed_screens() -> Vec<Monitor> {
    vec![mon("DP-1", 3840, 2160), mon("DP-2", 1920, 1080), mon("HDMI-1", 3840, 2160)]
}

fn dirs() -> UserDirs {
    UserDirs { home: Some("/home/u".into()), config_home: None, cache_home: None, data_home: None }
}

fn online(provider: ProviderKind, enabled: bool, dir: &str) -> OnlineSourceConfig {
    OnlineSourceConfig {
        provider,
        enabled,
        download_dir: Some(dir.to_string()),
        api_key: None,
        query: None,
        count: default_online_count(),
        subreddit: None,
        interval_hours: None,
        locale: None,
        quality: None,
    }
}

#[test]
fn distinct_sizes_dedupes_identical_resolutions() {
    let screens = mixed_screens();
    assert_eq!(
        distinct_sizes(&screens),
        vec![(3840, 2160), (1920, 1080)],
        "repeats removed, first appearance order kept"
    );
}

#[test]
fn distinct_sizes_falls_back_when_no_screens() {
    assert_eq!(distinct_sizes(&vec![]), vec![(FALLBACK_SCREEN_W, FALLBACK_SCREEN_H)]);
}

#[test]
fn primary_size_is_the_first_monitor() {
    assert_eq!(primary_size(&mixed_screens()), (3840, 2160));
    assert_eq!(primary_size(&vec![]), (1920, 1080));
}

#[test]
fn first_command_is_never_throttled() {
    assert!(!should_throttle(&TrayCmd::Next, None));
}

#[test]
fn user_command_after_500ms_passes() {
    assert!(!should_throttle(&TrayCmd::Next, Some(500_000_000)));
}

#[test]
fn user_commands_within_500ms_are_throttled() {
    let again = 120_000_000u128;
    for cmd in [
        TrayCmd::Next,
        TrayCmd::Prev,
        TrayCmd::TogglePause,
        TrayCmd::SetMode(DisplayMode::Fill),
        TrayCmd::SetInterval(30),
        TrayCmd::OpenCurrent,
        TrayCmd::DeleteCurrent,
        TrayCmd::BlacklistCurrent,
        TrayCmd::CopyToFavorites,
        TrayCmd::OpenSettings,
    ] {
        assert!(should_throttle(&cmd, Some(again)), "{cmd:?} should be absorbed");
    }
}

#[test]
fn system_commands_bypass_the_throttle() {
    let immediately_after = 1_000_000u128;
    for cmd in [
        TrayCmd::Quit,
        TrayCmd::PlasmaRestarted,
        TrayCmd::ReloadConfig,
        TrayCmd::ScreensChanged(vec![mon("DP-1", 1920, 1080)]),
    ] {
        assert!(!should_throttle(&cmd, Some(immediately_after)), "{cmd:?} is never throttled");
    }
}

#[test]
fn source_dirs_include_only_enabled_online_sources() {
    let d = dirs();
    let mut config = Config::default_for(&d);
    config.sources.directories = vec!["/pics/a".into(), "/pics/b".into()];
    config.online_sources = vec![
        online(ProviderKind::Bing, true, "/dl/bing"),
        online(ProviderKind::Wallhaven, false, "/dl/wallhaven"),
    ];
    assert_eq!(
        collect_source_dirs(&config, &d),
        vec!["/pics/a".to_string(), "/pics/b".to_string(), "/dl/bing".to_string()],
        "download dirs of disabled sources are left out"
    );
}

#[test]
fn source_dirs_without_online_sources() {
    let d = dirs();
    let mut config = Config::default_for(&d);
    config.sources.directories = vec!["/pics".into()];
    assert_eq!(collect_source_dirs(&config, &d), vec!["/pics".to_string()]);
}

#[test]
fn command_line_options() {
    let args = |v: &[&str]| v.iter().map(|s| s.to_string()).collect::<Vec<_>>();
    assert_eq!(parse_cli(&args(&[])).unwrap(), CliRequest::RunDaemon);
    assert_eq!(parse_cli(&args(&["--next"])).unwrap(), CliRequest::Send(CliCmd::Next));
    assert_eq!(parse_cli(&args(&["--quit", "--next"])).unwrap(), CliRequest::Send(CliCmd::Quit));
    assert_eq!(parse_cli(&args(&["-h"])).unwrap(), CliRequest::Help);
    assert_eq!(parse_cli(&args(&["--bogus"])).unwrap_err().option, "--bogus");
    assert_eq!(daemon_method(CliCmd::TrashCurrent), "TrashCurrent");
    assert_eq!(parse_cli(&args(&["--reload-config"])).unwrap(), CliRequest::Send(CliCmd::ReloadConfig));
    assert_eq!(daemon_method(CliCmd::ReloadConfig), "ReloadConfig");
    assert_eq!(daemon_method(CliCmd::TogglePause), "TogglePause");
}

#[test]
fn screen_variable_is_read_as_w_x_h() {
    assert_eq!(screen_from_env("2560x1440"), Some((2560, 1440)));
    assert_eq!(screen_from_env(" 2560 x 1440 "), Some((2560, 1440)));
    assert_eq!(screen_from_env("0x1440"), None);
    assert_eq!(screen_from_env("2560"), None);
    assert_eq!(screen_from_env("axb"), None);
    assert_eq!((1..=4).map(detection_delay).collect::<Vec<_>>(), vec![0, 1, 2, 4]);
}

#[test]
fn tray_name_is_the_file_name() {
    assert_eq!(tray_display_name(Some("/pics/a b.jpg")), "a b.jpg");
    assert_eq!(tray_display_name(Some("/pics/dir/")), "dir");
    assert_eq!(tray_display_name(Some("/")), "");
    assert_eq!(tray_display_name(Some("/pics/..")), "");
    assert_eq!(tray_display_name(None), "");
}

#[test]
fn language_from_variable_then_config() {
    let reg = registry();
    assert_eq!(resolve_lang(&reg, Some(" ja "), "en").code(&reg), "ja");
    assert_eq!(resolve_lang(&reg, None, "ja").code(&reg), "ja");
    assert_eq!(resolve_lang(&reg, None, "").code(&reg), "en");
    assert_eq!(resolve_lang(&reg, Some(""), "ja").code(&reg), "en");
}

#[test]
fn watch_events_respect_the_blacklist() {
    let mut s = Scheduler::new(vec!["/p/a.jpg".into()], Order::Sequential);
    let bl = Blacklist::parse("/p/bad.jpg\n", "f".into());
    apply_watch_event(WatchEvent::Added("/p/bad.jpg".into()), &mut s, &bl);
    assert_eq!(s.image_count(), 1);
    apply_watch_event(WatchEvent::Added("/p/b.jpg".into()), &mut s, &bl);
    assert_eq!(s.image_count(), 2);
    apply_watch_event(WatchEvent::Removed("/p/a.jpg".into()), &mut s, &bl);
    assert_eq!(s.image_count(), 1);
    assert_eq!(s.next().unwrap(), "/p/b.jpg");
}

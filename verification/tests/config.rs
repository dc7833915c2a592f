use kabekami::config::{
    default_online_count, expand_tilde, home_dir, xdg_cache_dir, xdg_config_dir,
    xdg_data_local_dir, Config, DisplayMode, OnlineSourceConfig, Order, ProviderKind, UserDirs,
    MIN_INTERVAL_SECS,
};

fn dirs(home: Option<&str>) -> UserDirs {
    UserDirs { home: home.map(String::from), config_home: None, cache_home: None, data_home: None }
}

fn source(provider: ProviderKind) -> OnlineSourceConfig {
    OnlineSourceConfig {
        provider,
        enabled: true,
        download_dir: None,
        api_key: None,
        query: None,
        count: default_online_count(),
        subreddit: None,
        interval_hours: None,
        locale: None,
        quality: None,
    }
}

#[test]
fn config_normalizes_low_interval() {
    let d = dirs(Some("/home/u"));
    let mut cfg = Config::default_for(&d);
    cfg.rotation.interval_secs = 1;
    cfg.normalize(&d);
    assert_eq!(cfg.rotation.interval_secs, MIN_INTERVAL_SECS);
}

#[test]
fn config_defaults_match_design_doc() {
    let cfg = Config::default_for(&dirs(Some("/home/u")));
    assert_eq!(cfg.rotation.interval_secs, 1800);
    assert_eq!(cfg.rotation.order, Order::Random);
    assert!(cfg.rotation.change_on_start);
    assert!(cfg.rotation.prefetch);
    assert_eq!(DisplayMode::default(), DisplayMode::BlurPad);
    assert_eq!(cfg.cache.max_size_mb, 500);
}

#[test]
fn home_dir_empty_string_returns_none() {
    assert_eq!(home_dir(&dirs(Some(""))), None);
    assert_eq!(home_dir(&dirs(None)), None);
    assert_eq!(home_dir(&dirs(Some("/home/u"))), Some("/home/u".to_string()));
}

#[test]
fn tilde_is_expanded_only_at_the_front() {
    let d = dirs(Some("/home/u"));
    assert_eq!(expand_tilde("~/Pictures", &d), "/home/u/Pictures");
    assert_eq!(expand_tilde("~", &d), "/home/u");
    assert_eq!(expand_tilde("/abs/~/x", &d), "/abs/~/x");
    assert_eq!(expand_tilde("~user/x", &d), "~user/x");
    assert_eq!(expand_tilde("~/Pictures", &dirs(None)), "~/Pictures");
    assert_eq!(expand_tilde("~//abs", &d), "/abs");
    assert_eq!(expand_tilde("~/x", &dirs(Some("/home/u/"))), "/home/u/x");
}

#[test]
fn xdg_directories_prefer_their_variables() {
    let mut d = dirs(Some("/home/u"));
    assert_eq!(xdg_config_dir(&d), Some("/home/u/.config".to_string()));
    assert_eq!(xdg_cache_dir(&d), Some("/home/u/.cache".to_string()));
    assert_eq!(xdg_data_local_dir(&d), Some("/home/u/.local/share".to_string()));
    d.config_home = Some("/cfg".into());
    d.cache_home = Some("".into());
    assert_eq!(xdg_config_dir(&d), Some("/cfg".to_string()));
    assert_eq!(xdg_cache_dir(&d), Some("/home/u/.cache".to_string()));
    assert_eq!(xdg_config_dir(&dirs(None)), None);
    assert_eq!(Config::config_path(&d), Some("/cfg/kabekami/config.toml".to_string()));
    assert_eq!(Config::config_path(&dirs(None)), None);
}

#[test]
fn default_cache_dir_falls_back_to_relative_path() {
    assert_eq!(Config::default_for(&dirs(None)).cache.directory, ".cache/kabekami");
    assert_eq!(Config::default_for(&dirs(Some("/h"))).cache.directory, "/h/.cache/kabekami");
}

#[test]
fn normalize_expands_every_configured_path() {
    let d = dirs(Some("/home/u"));
    let mut cfg = Config::default_for(&d);
    cfg.sources.directories = vec!["~/a".into(), "/b".into()];
    cfg.sources.favorites_dir = Some("~/fav".into());
    cfg.cache.directory = "~/.cache/k".into();
    let mut s = source(ProviderKind::Bing);
    s.download_dir = Some("~/dl".into());
    cfg.online_sources = vec![s, source(ProviderKind::Reddit)];
    cfg.rotation.interval_secs = 60;
    cfg.normalize(&d);
    assert_eq!(cfg.rotation.interval_secs, 60);
    assert_eq!(cfg.sources.directories, vec!["/home/u/a".to_string(), "/b".to_string()]);
    assert_eq!(cfg.sources.favorites_dir.as_deref(), Some("/home/u/fav"));
    assert_eq!(cfg.cache.directory, "/home/u/.cache/k");
    assert_eq!(cfg.online_sources[0].download_dir.as_deref(), Some("/home/u/dl"));
    assert_eq!(cfg.online_sources[1].download_dir, None);
}

#[test]
fn online_source_directories_and_intervals() {
    let d = dirs(Some("/home/u"));
    let mut s = source(ProviderKind::Reddit);
    assert_eq!(s.resolved_download_dir(&d), "/home/u/.local/share/kabekami/reddit");
    assert_eq!(s.effective_interval_hours(), 1);
    s.interval_hours = Some(6);
    assert_eq!(s.effective_interval_hours(), 6);
    s.download_dir = Some("/dl".into());
    assert_eq!(s.resolved_download_dir(&d), "/dl");
    let b = source(ProviderKind::Bing);
    assert_eq!(b.resolved_download_dir(&dirs(None)), ".local/share/kabekami/bing");
    assert_eq!(b.effective_interval_hours(), 24);
    let mut z = source(ProviderKind::Reddit);
    z.interval_hours = Some(0);
    assert_eq!(z.effective_interval_hours(), 1);
    z.provider = ProviderKind::Unsplash;
    assert_eq!(z.effective_interval_hours(), 24);
    assert_eq!(ProviderKind::Unsplash.name(), "unsplash");
    assert_eq!(ProviderKind::Wallhaven.default_interval_hours(), 24);
}

#[test]
fn normalize_twice_changes_nothing_more() {
    let d = dirs(Some("/home/u"));
    let mut cfg = Config::default_for(&d);
    cfg.sources.directories = vec!["~/a".into(), "~".into(), "~//abs".into(), "x/~/y".into()];
    cfg.sources.favorites_dir = Some("~".into());
    cfg.cache.directory = "~/c".into();
    cfg.rotation.interval_secs = 1;
    cfg.normalize(&d);
    let dirs_once = cfg.sources.directories.clone();
    assert_eq!(dirs_once, vec!["/home/u/a".to_string(), "/home/u".to_string(), "/abs".to_string(), "x/~/y".to_string()]);
    cfg.normalize(&d);
    assert_eq!(cfg.sources.directories, dirs_once);
    assert_eq!(cfg.sources.favorites_dir.as_deref(), Some("/home/u"));
    assert_eq!(cfg.cache.directory, "/home/u/c");
    assert_eq!(cfg.rotation.interval_secs, MIN_INTERVAL_SECS);
}

use kabekami::config::DisplayMode;
use kabekami::i18n::en_strings;
use kabekami::plasma::{apply_plan, escape_js_string, multi_script, single_script, ApplyPlan};
use kabekami::tray::{
    icon_name, interval_selected, menu, mode_selected, replace_slot, select_interval, select_mode,
    tool_tip, MenuEntry, RadioGroup, TrayCmd, TrayState,
};
use kabekami::watcher::{classify, is_config_event, DirWatcher, FsChange, WatchEvent};

fn state() -> TrayState {
    TrayState {
        paused: false,
        mode: DisplayMode::BlurPad,
        interval_secs: 1800,
        current_name: "a.jpg".into(),
        last_error: None,
        image_count: 12,
        has_favorites_dir: false,
        blacklist_enabled: true,
    }
}

#[test]
fn tooltip_shows_error_name_and_count() {
    let t = en_strings();
    let mut st = state();
    assert_eq!(tool_tip(&st, &t), "Current: a.jpg (12 images)");
    st.image_count = 0;
    assert_eq!(tool_tip(&st, &t), "Current: a.jpg");
    st.current_name = String::new();
    assert_eq!(tool_tip(&st, &t), "");
    st.last_error = Some("boom".into());
    assert_eq!(tool_tip(&st, &t), "Error: boom");
    assert_eq!(icon_name(&st), "dialog-error");
    st.last_error = None;
    assert_eq!(icon_name(&st), "preferences-desktop-wallpaper");
}

#[test]
fn slot_is_replaced_once() {
    assert_eq!(replace_slot("a {} b {}", "X"), "a X b {}");
    assert_eq!(replace_slot("none", "X"), "none");
    assert_eq!(replace_slot("{", "X"), "{");
}

#[test]
fn menu_reflects_the_state() {
    let t = en_strings();
    let st = state();
    let m = menu(&st, &t);
    assert_eq!(m.len(), 17);
    match &m[3] {
        MenuEntry::Toggle { label, icon } => {
            assert_eq!(label, "Pause");
            assert_eq!(*icon, "media-playback-pause");
        }
        other => panic!("unexpected {other:?}"),
    }
    match &m[5] {
        MenuEntry::Radio { group, selected, options, .. } => {
            assert_eq!(*group, RadioGroup::Mode);
            assert_eq!(*selected, 3);
            assert_eq!(options[*selected], "BlurPad");
        }
        other => panic!("unexpected {other:?}"),
    }
    match &m[6] {
        MenuEntry::Radio { selected, options, .. } => {
            assert_eq!(*selected, 3);
            assert_eq!(options[*selected], "30m");
        }
        other => panic!("unexpected {other:?}"),
    }
    match &m[9] {
        MenuEntry::Item { enabled, cmd, .. } => {
            assert!(!enabled, "no favourites directory");
            assert!(matches!(cmd, TrayCmd::CopyToFavorites));
        }
        other => panic!("unexpected {other:?}"),
    }
    match &m[11] {
        MenuEntry::Item { enabled, .. } => assert!(enabled),
        other => panic!("unexpected {other:?}"),
    }
    assert!(matches!(m[16], MenuEntry::Item { cmd: TrayCmd::Quit, .. }));
}

#[test]
fn radio_groups_map_indices() {
    assert_eq!(mode_selected(DisplayMode::Smart), 4);
    assert_eq!(interval_selected(10), 0);
    assert_eq!(interval_selected(42), usize::MAX);
    assert!(matches!(select_mode(1), TrayCmd::SetMode(DisplayMode::Fit)));
    assert!(matches!(select_interval(5), TrayCmd::SetInterval(10800)));
}

#[test]
fn js_strings_are_escaped() {
    let raw = "C:\\Images\\wall\"paper.png\nline2\r";
    let escaped = escape_js_string(raw);
    assert_eq!(escaped, "C:\\\\Images\\\\wall\\\"paper.png\\nline2\\r");
    assert!(escaped.contains("\\\\"));
    assert!(escaped.contains("\\\""));
    assert!(escaped.contains("\\n"));
    assert!(escaped.contains("\\r"));
}

#[test]
fn scripts_embed_file_urls() {
    let s = single_script("/pics/a\"b.jpg");
    assert!(s.contains("desktop.writeConfig(\"Image\", \"file:///pics/a\\\"b.jpg\");"));
    assert!(s.starts_with("for (const desktop of desktops()) {"));
    let m = multi_script(&vec![(0, "/a.jpg".to_string()), (12, "/b.jpg".to_string())]);
    assert!(m.starts_with("const wallpapers = {\"0\": \"file:///a.jpg\", \"12\": \"file:///b.jpg\"};"));
    assert!(m.contains("const p = wallpapers[String(desktop.screen)];"));
    assert_eq!(apply_plan(0), ApplyPlan::Nothing);
    assert_eq!(apply_plan(1), ApplyPlan::Single);
    assert_eq!(apply_plan(3), ApplyPlan::PerScreen);
}

#[test]
fn watcher_keeps_image_changes_only() {
    assert!(matches!(classify(FsChange::Created, "/p/a.jpg".into()), Some(WatchEvent::Added(_))));
    assert!(matches!(classify(FsChange::RenamedFrom, "/p/a.PNG".into()), Some(WatchEvent::Removed(_))));
    assert!(classify(FsChange::Created, "/p/a.txt".into()).is_none());
    assert!(classify(FsChange::Modified, "/p/a.jpg".into()).is_none());
    let paths = vec!["/cfg/kabekami/other.toml".to_string(), "/cfg//kabekami/config.toml".to_string()];
    assert!(is_config_event(FsChange::Modified, &paths, "/cfg/kabekami/config.toml"));
    assert!(!is_config_event(FsChange::Other, &paths, "/cfg/kabekami/config.toml"));
    assert!(!is_config_event(FsChange::Created, &paths[..1].to_vec(), "/cfg/kabekami/config.toml"));
    assert!(DirWatcher::registered(0, 3).is_none());
    assert!(!DirWatcher::registered(2, 3).unwrap().is_complete());
    assert!(DirWatcher::registered(3, 3).unwrap().is_complete());
}

#[test]
fn menu_checks_no_interval_for_another_value() {
    let t = en_strings();
    let mut st = state();
    st.interval_secs = 45;
    let m = menu(&st, &t);
    match &m[6] {
        MenuEntry::Radio { selected, options, .. } => {
            assert_eq!(*selected, usize::MAX);
            assert_eq!(options.len(), 6);
        }
        other => panic!("unexpected {other:?}"),
    }
}

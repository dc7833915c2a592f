use kabekami::blacklist::Blacklist;
use kabekami::config::{DisplayMode, Order};
use kabekami::dispatch::{on_blacklisted, on_command, on_fetched, on_rescanned, on_tick, on_trashed, Action};
use kabekami::scheduler::Scheduler;
use kabekami::tray::TrayCmd;

fn paths(v: &[&str]) -> Vec<String> {
    v.iter().map(|s| s.to_string()).collect()
}

#[test]
fn next_aborts_the_prefetch_shows_the_image_and_restarts_the_timer() {
    let mut s = Scheduler::new(paths(&["/a.jpg", "/b.jpg"]), Order::Sequential);
    let acts = on_command(&mut s, TrayCmd::Next);
    assert_eq!(acts.len(), 3);
    assert!(matches!(acts[0], Action::AbortPrefetch));
    assert!(matches!(&acts[1], Action::Apply(p) if p == "/a.jpg"));
    assert!(matches!(acts[2], Action::ResetTimer));
    let acts = on_command(&mut s, TrayCmd::Prev);
    assert_eq!(acts.len(), 1, "no history yet: only the timer");
    assert!(matches!(acts[0], Action::ResetTimer));
}

#[test]
fn trash_then_the_next_image() {
    let mut s = Scheduler::new(paths(&["/a.jpg", "/b.jpg", "/c.jpg"]), Order::Sequential);
    on_command(&mut s, TrayCmd::Next);
    let acts = on_command(&mut s, TrayCmd::DeleteCurrent);
    assert!(matches!(acts.as_slice(), [Action::Trash(p)] if p == "/a.jpg"));
    let cur = s.current().cloned().unwrap();
    assert!(on_trashed(&mut s, &cur, false).is_empty());
    assert_eq!(s.image_count(), 3, "a failed trash changes nothing");
    let acts = on_trashed(&mut s, &cur, true);
    assert_eq!(acts.len(), 4);
    assert!(matches!(acts[0], Action::AbortPrefetch));
    assert!(matches!(&acts[1], Action::Apply(p) if p == "/b.jpg"));
    assert!(matches!(acts[2], Action::ShowCount(2)));
    assert!(matches!(acts[3], Action::ResetTimer));
}

#[test]
fn blacklisting_the_last_image_clears_the_tray() {
    let mut s = Scheduler::new(paths(&["/only.jpg"]), Order::Random);
    on_command(&mut s, TrayCmd::Next);
    let acts = on_command(&mut s, TrayCmd::BlacklistCurrent);
    assert!(matches!(acts.as_slice(), [Action::Blacklist(p)] if p == "/only.jpg"));
    let acts = on_blacklisted(&mut s, &"/only.jpg".to_string(), true);
    assert_eq!(acts.len(), 4);
    assert!(matches!(acts[1], Action::ShowNoCurrent));
    assert!(matches!(acts[2], Action::ShowCount(0)));
    assert_eq!(s.current(), None);
}

#[test]
fn pause_interval_and_mode_commands() {
    let mut s = Scheduler::new(paths(&["/a.jpg"]), Order::Sequential);
    on_command(&mut s, TrayCmd::Next);
    let acts = on_command(&mut s, TrayCmd::TogglePause);
    assert!(s.is_paused());
    assert!(matches!(&acts[0], Action::PersistState { paused: true, current: Some(c) } if c == "/a.jpg"));
    assert!(matches!(acts[1], Action::ShowPaused(true)));
    let acts = on_command(&mut s, TrayCmd::SetInterval(1));
    assert!(matches!(acts.as_slice(), [Action::SaveInterval(5)]));
    let acts = on_command(&mut s, TrayCmd::SetMode(DisplayMode::Fill));
    assert!(matches!(acts.as_slice(), [Action::SaveMode(DisplayMode::Fill), Action::Apply(p)] if p == "/a.jpg"));
    assert!(matches!(on_command(&mut s, TrayCmd::Quit).as_slice(), [Action::Quit]));
    assert!(on_tick(&mut s).is_empty(), "paused: the timer shows nothing");
}

#[test]
fn rescan_keeps_pause_and_the_image_on_screen() {
    let mut s = Scheduler::new(paths(&["/a.jpg", "/b.jpg"]), Order::Sequential);
    on_command(&mut s, TrayCmd::Next);
    on_command(&mut s, TrayCmd::TogglePause);
    assert!(on_rescanned(&s, Vec::new(), Order::Random).is_none());
    let t = on_rescanned(&s, paths(&["/c.jpg", "/a.jpg"]), Order::Sequential).unwrap();
    assert!(t.is_paused());
    assert_eq!(t.current(), Some(&"/a.jpg".to_string()));
    assert_eq!(t.image_count(), 2);
    let u = on_rescanned(&s, paths(&["/c.jpg"]), Order::Sequential).unwrap();
    assert_eq!(u.current(), None);
}

#[test]
fn a_fetch_into_an_empty_rotation_shows_its_first_image() {
    let mut s = Scheduler::new(Vec::new(), Order::Sequential);
    let bl = Blacklist::parse("/d/bad.jpg\n", "f".to_string());
    let (added, acts) = on_fetched(&mut s, &bl, &paths(&["/d/bad.jpg", "/d/new.jpg"]));
    assert_eq!(added, 1);
    assert_eq!(acts.len(), 3);
    assert!(matches!(acts[0], Action::ShowCount(1)));
    assert!(matches!(acts[1], Action::FetchNotice(1)));
    assert!(matches!(&acts[2], Action::Apply(p) if p == "/d/new.jpg"));
    let (added, acts) = on_fetched(&mut s, &bl, &paths(&["/d/new.jpg"]));
    assert_eq!(added, 1, "counted before duplicates are dropped, as the blacklist filter passes it");
    assert!(matches!(acts.as_slice(), [Action::ShowCount(1), Action::FetchNotice(1)]));
    let mut e = Scheduler::new(Vec::new(), Order::Sequential);
    let (added, acts) = on_fetched(&mut e, &bl, &Vec::new());
    assert_eq!(added, 0);
    assert!(acts.is_empty(), "a fetch that brought nothing does nothing");
}

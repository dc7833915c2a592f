use kabekami::state::{DaemonState, StateWriter};

#[test]
fn missing_file_yields_defaults() {
    let st = DaemonState::load(None);
    assert!(!st.paused);
    assert_eq!(st.current, None);
}

#[test]
fn malformed_file_yields_defaults() {
    // a file that does not parse reaches `load` as `None`, like a missing one
    let st = DaemonState::load(None);
    assert!(!st.paused);
    assert_eq!(st.current, None);
}

#[test]
fn roundtrip_preserves_fields() {
    let img = "/home/u/Pictures/a b.jpg";
    let mut w = StateWriter::new("/cfg".to_string(), DaemonState::default());
    let to_write = w.plan(true, Some(img)).expect("a changed state is written");
    w.written(to_write.clone());
    let loaded = DaemonState::load(Some(to_write));
    assert!(loaded.paused);
    assert_eq!(loaded.current, Some(img.to_string()));
}

#[test]
fn roundtrip_without_current() {
    let mut w = StateWriter::new("/cfg".to_string(), DaemonState { paused: true, current: None });
    let to_write = w.plan(false, None).expect("a changed state is written");
    w.written(to_write.clone());
    let loaded = DaemonState::load(Some(to_write));
    assert!(!loaded.paused);
    assert_eq!(loaded.current, None);
}

#[test]
fn unchanged_state_is_not_rewritten() {
    let img = "/home/u/Pictures/a.jpg";
    let mut w = StateWriter::new("/cfg".to_string(), DaemonState::default());
    let first = w.plan(false, Some(img)).expect("first write");
    w.written(first);
    assert!(w.plan(false, Some(img)).is_none(), "identical state should not rewrite the file");
    assert!(w.plan(true, Some(img)).is_some());
    assert!(w.plan(false, None).is_some());
}

#[test]
fn state_file_is_in_the_config_dir() {
    assert_eq!(DaemonState::path("/home/u/.config/kabekami"), "/home/u/.config/kabekami/state.toml");
    let w = StateWriter::new("/d".to_string(), DaemonState::default());
    assert_eq!(w.dir(), "/d");
    let a = DaemonState { paused: true, current: Some("/x".into()) };
    assert!(a.same(&a.clone()));
    assert!(!a.same(&DaemonState::default()));
}

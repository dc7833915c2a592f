use kabekami::blacklist::Blacklist;

#[test]
fn add_persists_so_a_reload_still_excludes_the_path() {
    let mut bl = Blacklist::parse("", "/cfg/blacklist.txt".to_string());
    let path = "/pics/nope.jpg";
    let content = bl.begin_add(path).expect("a new path is written");
    assert!(bl.contains(path));
    let reloaded = Blacklist::parse(&content, "/cfg/blacklist.txt".to_string());
    assert!(reloaded.contains(path), "still excluded after reloading");
}

#[test]
fn adding_a_known_path_is_a_noop() {
    let mut bl = Blacklist::parse("", "/cfg/blacklist.txt".to_string());
    let path = "/pics/nope.jpg";
    assert!(bl.begin_add(path).is_some());
    assert!(bl.begin_add(path).is_none(), "the second addition writes nothing");
    assert!(bl.contains(path));
}

#[test]
fn parse_skips_empty_lines_and_carriage_returns() {
    let bl = Blacklist::parse("/a.jpg\r\n\n/b.jpg\r\r\n\r\n/a.jpg\n/c d.png", "f".to_string());
    assert!(bl.contains("/a.jpg"));
    assert!(bl.contains("/b.jpg"));
    assert!(bl.contains("/c d.png"));
    assert!(!bl.contains(""));
    assert!(!bl.contains("/a.jpg\r"));
    assert_eq!(bl.serialize(), "/a.jpg\n/b.jpg\n/c d.png\n");
    assert_eq!(bl.file_path(), "f");
}

#[test]
fn failed_write_rolls_the_addition_back() {
    let mut bl = Blacklist::parse("/keep.jpg\n", "f".to_string());
    assert_eq!(bl.begin_add("/x.jpg"), Some("/keep.jpg\n/x.jpg\n".to_string()));
    bl.rollback("/x.jpg");
    assert!(!bl.contains("/x.jpg"));
    assert!(bl.contains("/keep.jpg"));
    assert_eq!(bl.serialize(), "/keep.jpg\n");
}

#[test]
fn paths_match_by_their_components() {
    let mut bl = Blacklist::parse("/pics/a.jpg\n", "f".to_string());
    assert!(bl.contains("/pics/a.jpg"));
    assert!(bl.contains("/pics//a.jpg"));
    assert!(bl.contains("/pics/a.jpg/"));
    assert!(bl.contains("/pics/./a.jpg"));
    assert!(!bl.contains("/pics/b.jpg"));
    assert!(!bl.contains("pics/a.jpg"));
    assert!(bl.begin_add("/pics//a.jpg").is_none(), "the same path is listed already");
    bl.rollback("/pics/a.jpg/");
    assert!(!bl.contains("/pics/a.jpg"));
    assert_eq!(bl.serialize(), "");
}

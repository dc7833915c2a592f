use kabekami::scanner::{is_image, scan};

fn strings(v: &[&str]) -> Vec<String> {
    v.iter().map(|s| s.to_string()).collect()
}

#[test]
fn missing_directory_is_warning_not_error() {
    // a directory that does not exist yields no file to the walk
    let res = scan(&Vec::new());
    assert!(res.is_empty());
}

#[test]
fn picks_up_images_by_extension() {
    let found = strings(&["/r/a.jpg", "/r/b.PNG", "/r/ignore.txt", "/r/c.webp"]);
    let res = scan(&found);
    assert_eq!(res.len(), 3);
    assert!(res.iter().all(|p| is_image(p)));
}

#[test]
fn result_is_sorted_in_path_order_without_repeats() {
    let found = strings(&["/r/b.jpg", "/r/a.jpg", "/r/b.jpg", "/r/a/x.png", "/r/a.b.avif", "/r//a.jpg", "/r/c.gif"]);
    let res = scan(&found);
    assert_eq!(res, strings(&["/r/a/x.png", "/r/a.b.avif", "/r/a.jpg", "/r/b.jpg"]));
}

#[test]
fn extensions_follow_the_file_name() {
    assert!(is_image("/x/photo.JPeG"));
    assert!(is_image("rel/p.AVIF"));
    assert!(!is_image("rel/p.tif"));
    assert!(!is_image("rel/p.gif"));
    assert!(!is_image("rel/p.bmp"));
    assert!(!is_image("/x/.jpg"));
    assert!(!is_image("/x.jpg/readme"));
    assert!(!is_image("/x/photo.jpg.txt"));
    assert!(!is_image("/x/photo"));
    assert!(is_image("/x/.hidden.png"));
}

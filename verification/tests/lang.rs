use kabekami::lang::{strings, Lang};

#[test]
fn from_str_en() {
    assert_eq!(Lang::from_str("en"), Lang::En);
    assert_eq!(Lang::from_str("EN"), Lang::En);
    assert_eq!(Lang::from_str(" en "), Lang::En);
}

#[test]
fn from_str_ja_and_fallback() {
    assert_eq!(Lang::from_str("ja"), Lang::Ja);
    assert_eq!(Lang::from_str("JA"), Lang::Ja);
    assert_eq!(Lang::from_str(" ja "), Lang::Ja);
    assert_eq!(Lang::from_str(""), Lang::En);
    assert_eq!(Lang::from_str("fr"), Lang::En);
}

#[test]
fn strings_returns_correct_table() {
    assert_eq!(strings(Lang::Ja).quit, "終了");
    assert_eq!(strings(Lang::En).quit, "Quit");
}

#[test]
fn from_str_trims_unicode_space_and_defaults_to_english() {
    assert_eq!(Lang::from_str("\u{3000}ja\t"), Lang::Ja);
    assert_eq!(Lang::from_str("jap"), Lang::En);
    assert_eq!(Lang::default(), Lang::En);
}

use kabekami::i18n::{
    build_registry, bundled_ja, config_strings, en_config_strings, en_strings, file_lang_id,
    lookup_code, make_entry, registry, resolve_code, strings, code_matches, Lang, LangEntry,
    LangFile,
};

fn layers_with(extra: Vec<(&str, LangFile)>) -> Vec<LangEntry> {
    let mut layers = vec![("ja".to_string(), bundled_ja())];
    for (id, f) in extra {
        layers.push((id.to_string(), f));
    }
    build_registry(layers, &en_strings(), &en_config_strings())
}

fn find<'a>(reg: &'a [LangEntry], id: &str) -> &'a LangEntry {
    reg.iter().find(|e| e.id == id).expect("language not found")
}

#[test]
fn lookup_code_agrees_with_from_code_normalization() {
    let reg = registry();
    for code in ["ja", "JA", "Ja", " ja ", "\tja\n"] {
        let hit = lookup_code(&reg, code)
            .unwrap_or_else(|| panic!("lookup_code({code:?}) does not resolve"));
        assert_eq!(hit.id, "ja", "code {code:?}");
        assert_eq!(hit.id, Lang::from_code(&reg, code).code(&reg), "code {code:?}");
    }
}

#[test]
fn global_registry_is_usable() {
    let reg = registry();
    assert_eq!(reg[0].id, "en", "English is always first");
    assert_eq!(Lang::default().code(&reg), "en");
    assert!(reg.iter().any(|e| e.id == "ja"), "the built-in Japanese is there");
}

#[test]
fn english_is_always_first_and_default() {
    let reg = registry();
    assert_eq!(reg[0].id, "en");
    assert_eq!(reg[0].strings.quit, "Quit");
    assert_eq!(Lang::default(), Lang(0));
}

#[test]
fn all_languages_are_gui_visible_by_default() {
    for entry in registry() {
        assert!(entry.gui_visible, "{}: gui_visible should default to true", entry.id);
    }
}

#[test]
fn from_code_resolves_and_falls_back() {
    let reg = registry();
    let code = |s: &str| reg[resolve_code(&reg, s)].id.clone();
    assert_eq!(code("en"), "en");
    assert_eq!(code("EN"), "en");
    assert_eq!(code(" ja "), "ja");
    assert_eq!(code("JA"), "ja");
    assert_eq!(code(""), "en");
    assert_eq!(code("xx"), "en");
}

#[test]
fn lookup_code_has_no_match_for_unregistered_code() {
    let reg = registry();
    assert!(reg.iter().all(|e| !code_matches(e, "xx")));
    assert_eq!(reg[resolve_code(&reg, "xx")].id, "en");
    assert!(lookup_code(&reg, "xx").is_none());
}

#[test]
fn bundled_ja_is_registered() {
    let reg = registry();
    let ja = find(&reg, "ja");
    assert_eq!(ja.strings.quit, "終了");
    assert_eq!(ja.config.saved, "設定を保存しました");
    assert_eq!(ja.display_name, "日本語");
}

#[test]
fn lookup_by_code_returns_that_entry() {
    let reg = registry();
    for (i, entry) in reg.iter().enumerate() {
        assert_eq!(resolve_code(&reg, &entry.id), i, "{}", entry.id);
    }
}

#[test]
fn i18n_interval_labels_length_matches() {
    for entry in registry() {
        assert_eq!(
            entry.strings.interval_labels.len(),
            6,
            "{}: interval_labels must have exactly 6 entries",
            entry.id
        );
    }
    assert_eq!(kabekami::lang::ja().interval_labels.len(), 6);
    assert_eq!(kabekami::lang::en().interval_labels.len(), 6);
}

#[test]
fn wrong_length_interval_labels_falls_back_to_english() {
    let mut f = LangFile::new();
    f.tray.interval_labels =
        Some(["a", "b", "c", "d", "e", "f", "g"].iter().map(|s| s.to_string()).collect());
    let reg = layers_with(vec![("fr", f)]);
    assert_eq!(find(&reg, "fr").strings.interval_labels, en_strings().interval_labels);
}

#[test]
fn partial_translation_falls_back_to_english() {
    let mut f = LangFile::new();
    f.display_name = Some("Partial".into());
    f.tray.quit = Some("Beenden".into());
    let ui = f.tray.merge(&en_strings());
    assert_eq!(ui.quit, "Beenden");
    assert_eq!(ui.pause, en_strings().pause);
    assert_eq!(ui.interval_labels, en_strings().interval_labels);
}

#[test]
fn display_name_defaults_to_id() {
    let mut f = LangFile::new();
    f.tray.quit = Some("x".into());
    let e = make_entry("de", f, &en_strings(), &en_config_strings());
    assert_eq!(e.display_name, "de");
    assert!(e.gui_visible, "gui_visible defaults to true");
}

#[test]
fn user_directory_can_add_a_language() {
    let mut f = LangFile::new();
    f.display_name = Some("Français".into());
    f.tray.quit = Some("Quitter".into());
    let reg = layers_with(vec![("fr", f)]);
    let fr = find(&reg, "fr");
    assert_eq!(fr.display_name, "Français");
    assert_eq!(fr.strings.quit, "Quitter");
    assert_eq!(fr.strings.pause, en_strings().pause);
}

#[test]
fn user_directory_overrides_bundled_language() {
    let mut f = LangFile::new();
    f.tray.quit = Some("おわり".into());
    let reg = layers_with(vec![("ja", f)]);
    let ja = find(&reg, "ja");
    assert_eq!(ja.strings.quit, "おわり", "the user's file wins");
    assert_eq!(ja.strings.pause, "一時停止");
}

#[test]
fn later_search_dirs_win() {
    let named = |n: &str| {
        let mut f = LangFile::new();
        f.display_name = Some(n.to_string());
        f
    };
    let reg = layers_with(vec![("fr", named("System")), ("fr", named("User"))]);
    assert_eq!(find(&reg, "fr").display_name, "User");
    let reg = layers_with(vec![("fr", named("System")), ("fr", named("User")), ("fr", named("Env"))]);
    assert_eq!(find(&reg, "fr").display_name, "Env");
}

#[test]
fn english_can_be_overridden_but_stays_first() {
    let mut f = LangFile::new();
    f.tray.quit = Some("Exit".into());
    let reg = layers_with(vec![("en", f)]);
    assert_eq!(reg[0].id, "en", "English is always first");
    assert_eq!(reg[0].strings.quit, "Exit");
    assert_eq!(reg[0].strings.pause, en_strings().pause);
    assert_eq!(reg[0].display_name, "English");
}

#[test]
fn other_languages_follow_in_code_order() {
    let reg = layers_with(vec![("zh", LangFile::new()), ("de", LangFile::new()), ("fr", LangFile::new())]);
    let ids: Vec<&str> = reg.iter().map(|e| e.id.as_str()).collect();
    assert_eq!(ids, vec!["en", "de", "fr", "ja", "zh"]);
}

#[test]
fn strings_and_config_strings_follow_the_language() {
    let reg = registry();
    let ja = Lang::from_code(&reg, "ja");
    assert_eq!(strings(&reg, ja).quit, "終了");
    assert_eq!(config_strings(&reg, ja).saved, "設定を保存しました");
    assert_eq!(config_strings(&reg, Lang::default()).saved, "Config saved.");
    assert_eq!(strings(&reg, Lang(99)).quit, "Quit");
}

#[test]
fn language_file_names_give_lower_case_codes() {
    assert_eq!(file_lang_id("fr.toml"), Some("fr".to_string()));
    assert_eq!(file_lang_id("FR.toml"), Some("fr".to_string()));
    assert_eq!(file_lang_id("pt.br.toml"), Some("pt.br".to_string()));
    assert_eq!(file_lang_id("fr.txt"), None);
    assert_eq!(file_lang_id(".toml"), None);
    assert_eq!(file_lang_id("toml"), None);
    assert_eq!(file_lang_id("fr.TOML"), None);
}

#[test]
fn bundled_ja_translates_the_documented_tray_labels() {
    let f = bundled_ja();
    assert_eq!(f.display_name.as_deref(), Some("日本語"));
    assert_eq!(f.tray.copy_to_favorites.as_deref(), Some("お気に入りに追加"));
    assert_eq!(f.tray.delete_current.as_deref(), Some("ゴミ箱に移動"));
    assert_eq!(f.tray.blacklist_current.as_deref(), Some("二度と表示しない"));
    assert_eq!(f.tray.open_settings.as_deref(), Some("設定を開く"));
    assert_eq!(f.tray.next_wallpaper.as_deref(), Some("次の壁紙"));
    assert_eq!(f.tray.images, None);
}

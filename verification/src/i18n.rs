//! The language registry: the string tables of the tray and of the
//! settings window, in English and in every language that a language file
//! provides.
//!
//! English is built in and complete. A language file (`<code>.toml`, with
//! `display_name`, `gui_visible`, a `[tray]` and a `[config]` table) may
//! give any subset of the keys; the others stay English. Files are layered:
//! the built-in Japanese first, then the search directories in order, later
//! layers winning key by key. Reading the directories and parsing the TOML
//! is the daemon's; this module merges what was read.

use vstd::prelude::*;

use crate::text::{
    chars_of, clone_strings, eq_ignore_case, owned, range_eq_ignore_case, trim, trim_range,
    lower_seq, CharClass, find_first,
};

verus! {

/// The value of a key: the given one, else the fallback.
pub open spec fn pick(o: Option<String>, base: Seq<char>) -> Seq<char> {
    match o {
        Some(s) => s@,
        None => base,
    }
}

pub open spec fn texts(v: Seq<String>) -> Seq<Seq<char>> {
    v.map_values(|s: String| s@)
}

pub open spec fn pick_list(o: Option<Vec<String>>, base: Seq<Seq<char>>) -> Seq<Seq<char>> {
    match o {
        Some(v) => texts(v@),
        None => base,
    }
}

/// The later layer wins where it gives a value.
pub open spec fn later<T>(a: Option<T>, b: Option<T>) -> Option<T> {
    if b is Some {
        b
    } else {
        a
    }
}

fn later_of(a: Option<String>, b: Option<String>) -> (r: Option<String>)
    ensures
        r == later(a, b),
{
    match b {
        Some(x) => Some(x),
        None => a,
    }
}

fn later_list(a: Option<Vec<String>>, b: Option<Vec<String>>) -> (r: Option<Vec<String>>)
    ensures
        r == later(a, b),
{
    match b {
        Some(x) => Some(x),
        None => a,
    }
}

fn take_or_clone(o: Option<String>, base: &String) -> (r: String)
    ensures
        r@ == pick(o, base@),
{
    match o {
        Some(s) => s,
        None => base.clone(),
    }
}


/// The strings of the tray menu and of the notifications (`[tray]`).
#[derive(Debug, Clone)]
pub struct UiStrings {
    pub next_wallpaper: String,
    pub prev_wallpaper: String,
    pub pause: String,
    pub resume: String,
    pub display_mode: String,
    pub interval: String,
    pub open_current: String,
    pub delete_current: String,
    pub blacklist_current: String,
    pub copy_to_favorites: String,
    pub quit: String,
    pub open_settings: String,
    /// Unit of an image count ("images").
    pub images: String,
    /// `{}` is the file name.
    pub tooltip_current: String,
    /// `{}` is the error.
    pub tooltip_error: String,
    pub notify_failed: String,
    pub notify_warning: String,
    /// Heading of the summary notification of online fetches.
    pub notify_fetch_title: String,
    /// `{provider}` is the provider, `{count}` the number of images.
    pub notify_fetch_body: String,
    pub reload_config: String,
    /// Fetches the online sources now, whatever their interval.
    pub fetch_now: String,
    /// Labels of the interval presets of the tray, in the same order; exactly six.
    pub interval_labels: Vec<String>,
}

/// Every key holds its English text.
pub open spec fn ui_is_english(t: UiStrings) -> bool {
    &&& t.next_wallpaper@ == "Next Wallpaper"@
    &&& t.prev_wallpaper@ == "Previous Wallpaper"@
    &&& t.pause@ == "Pause"@
    &&& t.resume@ == "Resume"@
    &&& t.display_mode@ == "Display Mode"@
    &&& t.interval@ == "Rotation Interval"@
    &&& t.open_current@ == "Open Current Wallpaper"@
    &&& t.delete_current@ == "Move to Trash"@
    &&& t.blacklist_current@ == "Never Show Again"@
    &&& t.copy_to_favorites@ == "Copy to Favorites"@
    &&& t.quit@ == "Quit"@
    &&& t.open_settings@ == "Open Settings"@
    &&& t.images@ == "images"@
    &&& t.tooltip_current@ == "Current: {}"@
    &&& t.tooltip_error@ == "Error: {}"@
    &&& t.notify_failed@ == "Wallpaper apply failed"@
    &&& t.notify_warning@ == "kabekami Warning"@
    &&& t.notify_fetch_title@ == "Online sources"@
    &&& t.notify_fetch_body@ == "Downloaded {count} image(s) from {provider}"@
    &&& t.reload_config@ == "Reload Config"@
    &&& t.fetch_now@ == "Fetch Now"@
    &&& texts(t.interval_labels@) == seq!["10s"@, "30s"@, "5m"@, "30m"@, "1h"@, "3h"@]
}

/// The English table, the fallback of every other language.
pub fn en_strings() -> (t: UiStrings)
    ensures
        ui_is_english(t),
{
    let interval_labels = vec![owned("10s"), owned("30s"), owned("5m"), owned("30m"), owned("1h"), owned("3h")];
    assert(texts(interval_labels@) =~= seq!["10s"@, "30s"@, "5m"@, "30m"@, "1h"@, "3h"@]);
    UiStrings {
        next_wallpaper: owned("Next Wallpaper"),
        prev_wallpaper: owned("Previous Wallpaper"),
        pause: owned("Pause"),
        resume: owned("Resume"),
        display_mode: owned("Display Mode"),
        interval: owned("Rotation Interval"),
        open_current: owned("Open Current Wallpaper"),
        delete_current: owned("Move to Trash"),
        blacklist_current: owned("Never Show Again"),
        copy_to_favorites: owned("Copy to Favorites"),
        quit: owned("Quit"),
        open_settings: owned("Open Settings"),
        images: owned("images"),
        tooltip_current: owned("Current: {}"),
        tooltip_error: owned("Error: {}"),
        notify_failed: owned("Wallpaper apply failed"),
        notify_warning: owned("kabekami Warning"),
        notify_fetch_title: owned("Online sources"),
        notify_fetch_body: owned("Downloaded {count} image(s) from {provider}"),
        reload_config: owned("Reload Config"),
        fetch_now: owned("Fetch Now"),
        interval_labels,
    }
}

/// A `UiStrings` as a language file gives it: every key may be missing.
#[derive(Debug, Clone)]
pub struct RawUiStrings {
    pub next_wallpaper: Option<String>,
    pub prev_wallpaper: Option<String>,
    pub pause: Option<String>,
    pub resume: Option<String>,
    pub display_mode: Option<String>,
    pub interval: Option<String>,
    pub open_current: Option<String>,
    pub delete_current: Option<String>,
    pub blacklist_current: Option<String>,
    pub copy_to_favorites: Option<String>,
    pub quit: Option<String>,
    pub open_settings: Option<String>,
    pub images: Option<String>,
    pub tooltip_current: Option<String>,
    pub tooltip_error: Option<String>,
    pub notify_failed: Option<String>,
    pub notify_warning: Option<String>,
    pub notify_fetch_title: Option<String>,
    pub notify_fetch_body: Option<String>,
    pub reload_config: Option<String>,
    pub fetch_now: Option<String>,
    pub interval_labels: Option<Vec<String>>,
}

pub open spec fn raw_ui_strings_empty() -> RawUiStrings {
    RawUiStrings {
        next_wallpaper: None,
        prev_wallpaper: None,
        pause: None,
        resume: None,
        display_mode: None,
        interval: None,
        open_current: None,
        delete_current: None,
        blacklist_current: None,
        copy_to_favorites: None,
        quit: None,
        open_settings: None,
        images: None,
        tooltip_current: None,
        tooltip_error: None,
        notify_failed: None,
        notify_warning: None,
        notify_fetch_title: None,
        notify_fetch_body: None,
        reload_config: None,
        fetch_now: None,
        interval_labels: None,
    }
}

/// `b` laid over `a`: each key that `b` gives replaces that of `a`.
pub open spec fn raw_ui_strings_over(a: RawUiStrings, b: RawUiStrings) -> RawUiStrings {
    RawUiStrings {
        next_wallpaper: later(a.next_wallpaper, b.next_wallpaper),
        prev_wallpaper: later(a.prev_wallpaper, b.prev_wallpaper),
        pause: later(a.pause, b.pause),
        resume: later(a.resume, b.resume),
        display_mode: later(a.display_mode, b.display_mode),
        interval: later(a.interval, b.interval),
        open_current: later(a.open_current, b.open_current),
        delete_current: later(a.delete_current, b.delete_current),
        blacklist_current: later(a.blacklist_current, b.blacklist_current),
        copy_to_favorites: later(a.copy_to_favorites, b.copy_to_favorites),
        quit: later(a.quit, b.quit),
        open_settings: later(a.open_settings, b.open_settings),
        images: later(a.images, b.images),
        tooltip_current: later(a.tooltip_current, b.tooltip_current),
        tooltip_error: later(a.tooltip_error, b.tooltip_error),
        notify_failed: later(a.notify_failed, b.notify_failed),
        notify_warning: later(a.notify_warning, b.notify_warning),
        notify_fetch_title: later(a.notify_fetch_title, b.notify_fetch_title),
        notify_fetch_body: later(a.notify_fetch_body, b.notify_fetch_body),
        reload_config: later(a.reload_config, b.reload_config),
        fetch_now: later(a.fetch_now, b.fetch_now),
        interval_labels: later(a.interval_labels, b.interval_labels),
    }
}

/// `t` holds the keys that `raw` gives and those of `base` elsewhere.
pub open spec fn raw_ui_strings_merged(t: UiStrings, raw: RawUiStrings, base: UiStrings) -> bool {
    &&& true
    &&& t.next_wallpaper@ == pick(raw.next_wallpaper, base.next_wallpaper@)
    &&& t.prev_wallpaper@ == pick(raw.prev_wallpaper, base.prev_wallpaper@)
    &&& t.pause@ == pick(raw.pause, base.pause@)
    &&& t.resume@ == pick(raw.resume, base.resume@)
    &&& t.display_mode@ == pick(raw.display_mode, base.display_mode@)
    &&& t.interval@ == pick(raw.interval, base.interval@)
    &&& t.open_current@ == pick(raw.open_current, base.open_current@)
    &&& t.delete_current@ == pick(raw.delete_current, base.delete_current@)
    &&& t.blacklist_current@ == pick(raw.blacklist_current, base.blacklist_current@)
    &&& t.copy_to_favorites@ == pick(raw.copy_to_favorites, base.copy_to_favorites@)
    &&& t.quit@ == pick(raw.quit, base.quit@)
    &&& t.open_settings@ == pick(raw.open_settings, base.open_settings@)
    &&& t.images@ == pick(raw.images, base.images@)
    &&& t.tooltip_current@ == pick(raw.tooltip_current, base.tooltip_current@)
    &&& t.tooltip_error@ == pick(raw.tooltip_error, base.tooltip_error@)
    &&& t.notify_failed@ == pick(raw.notify_failed, base.notify_failed@)
    &&& t.notify_warning@ == pick(raw.notify_warning, base.notify_warning@)
    &&& t.notify_fetch_title@ == pick(raw.notify_fetch_title, base.notify_fetch_title@)
    &&& t.notify_fetch_body@ == pick(raw.notify_fetch_body, base.notify_fetch_body@)
    &&& t.reload_config@ == pick(raw.reload_config, base.reload_config@)
    &&& t.fetch_now@ == pick(raw.fetch_now, base.fetch_now@)
}

impl RawUiStrings {
    /// A table that gives no key.
    pub fn new() -> (r: Self)
        ensures
            r == raw_ui_strings_empty(),
    {
        RawUiStrings {
            next_wallpaper: None,
            prev_wallpaper: None,
            pause: None,
            resume: None,
            display_mode: None,
            interval: None,
            open_current: None,
            delete_current: None,
            blacklist_current: None,
            copy_to_favorites: None,
            quit: None,
            open_settings: None,
            images: None,
            tooltip_current: None,
            tooltip_error: None,
            notify_failed: None,
            notify_warning: None,
            notify_fetch_title: None,
            notify_fetch_body: None,
            reload_config: None,
            fetch_now: None,
            interval_labels: None,
        }
    }

    /// The table with the keys given here and those of `base` elsewhere.
    pub fn merge(self, base: &UiStrings) -> (t: UiStrings)
        ensures
            raw_ui_strings_merged(t, self, *base),
            texts(t.interval_labels@) == pick_list(self.interval_labels, texts(base.interval_labels@)),
    {
        let interval_labels = match self.interval_labels {
            Some(v) => v,
            None => clone_strings(&base.interval_labels),
        };
        UiStrings {
            next_wallpaper: take_or_clone(self.next_wallpaper, &base.next_wallpaper),
            prev_wallpaper: take_or_clone(self.prev_wallpaper, &base.prev_wallpaper),
            pause: take_or_clone(self.pause, &base.pause),
            resume: take_or_clone(self.resume, &base.resume),
            display_mode: take_or_clone(self.display_mode, &base.display_mode),
            interval: take_or_clone(self.interval, &base.interval),
            open_current: take_or_clone(self.open_current, &base.open_current),
            delete_current: take_or_clone(self.delete_current, &base.delete_current),
            blacklist_current: take_or_clone(self.blacklist_current, &base.blacklist_current),
            copy_to_favorites: take_or_clone(self.copy_to_favorites, &base.copy_to_favorites),
            quit: take_or_clone(self.quit, &base.quit),
            open_settings: take_or_clone(self.open_settings, &base.open_settings),
            images: take_or_clone(self.images, &base.images),
            tooltip_current: take_or_clone(self.tooltip_current, &base.tooltip_current),
            tooltip_error: take_or_clone(self.tooltip_error, &base.tooltip_error),
            notify_failed: take_or_clone(self.notify_failed, &base.notify_failed),
            notify_warning: take_or_clone(self.notify_warning, &base.notify_warning),
            notify_fetch_title: take_or_clone(self.notify_fetch_title, &base.notify_fetch_title),
            notify_fetch_body: take_or_clone(self.notify_fetch_body, &base.notify_fetch_body),
            reload_config: take_or_clone(self.reload_config, &base.reload_config),
            fetch_now: take_or_clone(self.fetch_now, &base.fetch_now),
            interval_labels,
        }
    }

    /// Lays `other` over this table: each key that `other` gives wins.
    pub fn overlay(&mut self, other: Self)
        ensures
            *final(self) == raw_ui_strings_over(*old(self), other),
    {
        self.next_wallpaper = later_of(self.next_wallpaper.take(), other.next_wallpaper);
        self.prev_wallpaper = later_of(self.prev_wallpaper.take(), other.prev_wallpaper);
        self.pause = later_of(self.pause.take(), other.pause);
        self.resume = later_of(self.resume.take(), other.resume);
        self.display_mode = later_of(self.display_mode.take(), other.display_mode);
        self.interval = later_of(self.interval.take(), other.interval);
        self.open_current = later_of(self.open_current.take(), other.open_current);
        self.delete_current = later_of(self.delete_current.take(), other.delete_current);
        self.blacklist_current = later_of(self.blacklist_current.take(), other.blacklist_current);
        self.copy_to_favorites = later_of(self.copy_to_favorites.take(), other.copy_to_favorites);
        self.quit = later_of(self.quit.take(), other.quit);
        self.open_settings = later_of(self.open_settings.take(), other.open_settings);
        self.images = later_of(self.images.take(), other.images);
        self.tooltip_current = later_of(self.tooltip_current.take(), other.tooltip_current);
        self.tooltip_error = later_of(self.tooltip_error.take(), other.tooltip_error);
        self.notify_failed = later_of(self.notify_failed.take(), other.notify_failed);
        self.notify_warning = later_of(self.notify_warning.take(), other.notify_warning);
        self.notify_fetch_title = later_of(self.notify_fetch_title.take(), other.notify_fetch_title);
        self.notify_fetch_body = later_of(self.notify_fetch_body.take(), other.notify_fetch_body);
        self.reload_config = later_of(self.reload_config.take(), other.reload_config);
        self.fetch_now = later_of(self.fetch_now.take(), other.fetch_now);
        self.interval_labels = later_list(self.interval_labels.take(), other.interval_labels);
    }
}

/// The strings of the settings window (`[config]`).
#[derive(Debug, Clone)]
pub struct ConfigStrings {
    pub dialog_select_folder: String,
    pub dialog_select_image: String,
    pub browse: String,
    /// Tooltip when kdialog is missing (two lines).
    pub kdialog_missing: String,
    pub save_button: String,
    pub add: String,
    pub saved: String,
    pub save_failed: String,
    pub preview_error: String,
    pub tab_sources: String,
    pub tab_online: String,
    pub tab_rotation: String,
    pub tab_display: String,
    pub tab_cache: String,
    pub tab_ui: String,
    pub sources_heading: String,
    pub recursive: String,
    pub favorites_dir: String,
    pub favorites_hint: String,
    pub directories: String,
    pub rotation_heading: String,
    pub interval_secs: String,
    pub order: String,
    pub order_random: String,
    pub order_sequential: String,
    pub change_on_start: String,
    pub prefetch: String,
    pub display_heading: String,
    pub mode_blurpad: String,
    pub mode_smart: String,
    pub mode_fill: String,
    pub mode_fit: String,
    pub mode_stretch: String,
    pub blur_sigma: String,
    pub bg_darken: String,
    pub preview_image: String,
    pub preview_button: String,
    pub cache_heading: String,
    pub cache_directory: String,
    pub max_size_mb: String,
    pub unlimited_hint: String,
    pub refresh: String,
    pub clear_cache: String,
    pub current_size_unknown: String,
    pub current_size: String,
    pub unlimited: String,
    pub online_heading: String,
    pub online_desc: String,
    pub remove: String,
    pub count: String,
    pub interval_hours: String,
    pub download_dir: String,
    pub add_provider: String,
    pub add_provider_button: String,
    pub download_dir_hint: String,
    pub api_key: String,
    pub query: String,
    pub subreddit: String,
    pub locale: String,
    pub quality: String,
    /// `{}` is the default refetch interval of the provider, in hours.
    pub interval_default_hint: String,
    /// Shown for a setting left unset; also marks defaults.
    pub default_option: String,
    /// Shown when `ui.language` matches no registered language.
    pub unknown_language: String,
    /// Name of the image filter of the file dialog.
    pub image_filter_label: String,
    pub ui_heading: String,
    pub language: String,
    pub warn_notify: String,
    pub notify_fetch: String,
    pub enable_blacklist: String,
}

/// Every key holds its English text.
pub open spec fn config_is_english(t: ConfigStrings) -> bool {
    &&& t.dialog_select_folder@ == "Select folder"@
    &&& t.dialog_select_image@ == "Select image"@
    &&& t.browse@ == "📁 Browse…"@
    &&& t.kdialog_missing@ == "kdialog is not installed.\nType the path manually."@
    &&& t.save_button@ == "💾  Save"@
    &&& t.add@ == "Add"@
    &&& t.saved@ == "Config saved."@
    &&& t.save_failed@ == "Save failed"@
    &&& t.preview_error@ == "Preview error"@
    &&& t.tab_sources@ == "Sources"@
    &&& t.tab_online@ == "Online"@
    &&& t.tab_rotation@ == "Rotation"@
    &&& t.tab_display@ == "Display"@
    &&& t.tab_cache@ == "Cache"@
    &&& t.tab_ui@ == "UI"@
    &&& t.sources_heading@ == "Sources"@
    &&& t.recursive@ == "Recursive"@
    &&& t.favorites_dir@ == "Favorites directory:"@
    &&& t.favorites_hint@ == "~/Pictures/Favorites (empty=disabled)"@
    &&& t.directories@ == "Directories:"@
    &&& t.rotation_heading@ == "Rotation"@
    &&& t.interval_secs@ == "Interval (sec):"@
    &&& t.order@ == "Order:"@
    &&& t.order_random@ == "Random"@
    &&& t.order_sequential@ == "Sequential"@
    &&& t.change_on_start@ == "Change on start"@
    &&& t.prefetch@ == "Prefetch next wallpaper"@
    &&& t.display_heading@ == "Display"@
    &&& t.mode_blurpad@ == "BlurPad (blur background + foreground)"@
    &&& t.mode_smart@ == "Smart (auto by aspect ratio)"@
    &&& t.mode_fill@ == "Fill (crop)"@
    &&& t.mode_fit@ == "Fit (letterbox)"@
    &&& t.mode_stretch@ == "Stretch"@
    &&& t.blur_sigma@ == "Blur sigma:"@
    &&& t.bg_darken@ == "BG darken:"@
    &&& t.preview_image@ == "Preview image:"@
    &&& t.preview_button@ == "▶ Preview"@
    &&& t.cache_heading@ == "Cache"@
    &&& t.cache_directory@ == "Directory:"@
    &&& t.max_size_mb@ == "Max size (MB):"@
    &&& t.unlimited_hint@ == "0 = unlimited"@
    &&& t.refresh@ == "Refresh"@
    &&& t.clear_cache@ == "Clear Cache"@
    &&& t.current_size_unknown@ == "Current size: (click Refresh)"@
    &&& t.current_size@ == "Current size"@
    &&& t.unlimited@ == "unlimited"@
    &&& t.online_heading@ == "Online Sources"@
    &&& t.online_desc@ == "Automatically fetch wallpapers from the internet."@
    &&& t.remove@ == "✖  Remove"@
    &&& t.count@ == "Count:"@
    &&& t.interval_hours@ == "Interval (h, 0=default):"@
    &&& t.download_dir@ == "Download dir:"@
    &&& t.add_provider@ == "Add provider:"@
    &&& t.add_provider_button@ == "Add"@
    &&& t.download_dir_hint@ == "💡 Download dir: ~/.local/share/kabekami/<provider>/"@
    &&& t.api_key@ == "API Key:"@
    &&& t.query@ == "Query:"@
    &&& t.subreddit@ == "Subreddit:"@
    &&& t.locale@ == "Locale:"@
    &&& t.quality@ == "Quality:"@
    &&& t.interval_default_hint@ == "(default: {}h)"@
    &&& t.default_option@ == "(default)"@
    &&& t.unknown_language@ == "(unknown)"@
    &&& t.image_filter_label@ == "Images"@
    &&& t.ui_heading@ == "UI Settings"@
    &&& t.language@ == "Language:"@
    &&& t.warn_notify@ == "Show warnings as desktop notifications"@
    &&& t.notify_fetch@ == "Notify when online sources finish fetching"@
    &&& t.enable_blacklist@ == "Enable \"Never Show Again\" blacklist"@
}

/// The English table, the fallback of every other language.
pub fn en_config_strings() -> (t: ConfigStrings)
    ensures
        config_is_english(t),
{
    ConfigStrings {
        dialog_select_folder: owned("Select folder"),
        dialog_select_image: owned("Select image"),
        browse: owned("📁 Browse…"),
        kdialog_missing: owned("kdialog is not installed.\nType the path manually."),
        save_button: owned("💾  Save"),
        add: owned("Add"),
        saved: owned("Config saved."),
        save_failed: owned("Save failed"),
        preview_error: owned("Preview error"),
        tab_sources: owned("Sources"),
        tab_online: owned("Online"),
        tab_rotation: owned("Rotation"),
        tab_display: owned("Display"),
        tab_cache: owned("Cache"),
        tab_ui: owned("UI"),
        sources_heading: owned("Sources"),
        recursive: owned("Recursive"),
        favorites_dir: owned("Favorites directory:"),
        favorites_hint: owned("~/Pictures/Favorites (empty=disabled)"),
        directories: owned("Directories:"),
        rotation_heading: owned("Rotation"),
        interval_secs: owned("Interval (sec):"),
        order: owned("Order:"),
        order_random: owned("Random"),
        order_sequential: owned("Sequential"),
        change_on_start: owned("Change on start"),
        prefetch: owned("Prefetch next wallpaper"),
        display_heading: owned("Display"),
        mode_blurpad: owned("BlurPad (blur background + foreground)"),
        mode_smart: owned("Smart (auto by aspect ratio)"),
        mode_fill: owned("Fill (crop)"),
        mode_fit: owned("Fit (letterbox)"),
        mode_stretch: owned("Stretch"),
        blur_sigma: owned("Blur sigma:"),
        bg_darken: owned("BG darken:"),
        preview_image: owned("Preview image:"),
        preview_button: owned("▶ Preview"),
        cache_heading: owned("Cache"),
        cache_directory: owned("Directory:"),
        max_size_mb: owned("Max size (MB):"),
        unlimited_hint: owned("0 = unlimited"),
        refresh: owned("Refresh"),
        clear_cache: owned("Clear Cache"),
        current_size_unknown: owned("Current size: (click Refresh)"),
        current_size: owned("Current size"),
        unlimited: owned("unlimited"),
        online_heading: owned("Online Sources"),
        online_desc: owned("Automatically fetch wallpapers from the internet."),
        remove: owned("✖  Remove"),
        count: owned("Count:"),
        interval_hours: owned("Interval (h, 0=default):"),
        download_dir: owned("Download dir:"),
        add_provider: owned("Add provider:"),
        add_provider_button: owned("Add"),
        download_dir_hint: owned("💡 Download dir: ~/.local/share/kabekami/<provider>/"),
        api_key: owned("API Key:"),
        query: owned("Query:"),
        subreddit: owned("Subreddit:"),
        locale: owned("Locale:"),
        quality: owned("Quality:"),
        interval_default_hint: owned("(default: {}h)"),
        default_option: owned("(default)"),
        unknown_language: owned("(unknown)"),
        image_filter_label: owned("Images"),
        ui_heading: owned("UI Settings"),
        language: owned("Language:"),
        warn_notify: owned("Show warnings as desktop notifications"),
        notify_fetch: owned("Notify when online sources finish fetching"),
        enable_blacklist: owned("Enable \"Never Show Again\" blacklist"),
    }
}

/// A `ConfigStrings` as a language file gives it: every key may be missing.
#[derive(Debug, Clone)]
pub struct RawConfigStrings {
    pub dialog_select_folder: Option<String>,
    pub dialog_select_image: Option<String>,
    pub browse: Option<String>,
    pub kdialog_missing: Option<String>,
    pub save_button: Option<String>,
    pub add: Option<String>,
    pub saved: Option<String>,
    pub save_failed: Option<String>,
    pub preview_error: Option<String>,
    pub tab_sources: Option<String>,
    pub tab_online: Option<String>,
    pub tab_rotation: Option<String>,
    pub tab_display: Option<String>,
    pub tab_cache: Option<String>,
    pub tab_ui: Option<String>,
    pub sources_heading: Option<String>,
    pub recursive: Option<String>,
    pub favorites_dir: Option<String>,
    pub favorites_hint: Option<String>,
    pub directories: Option<String>,
    pub rotation_heading: Option<String>,
    pub interval_secs: Option<String>,
    pub order: Option<String>,
    pub order_random: Option<String>,
    pub order_sequential: Option<String>,
    pub change_on_start: Option<String>,
    pub prefetch: Option<String>,
    pub display_heading: Option<String>,
    pub mode_blurpad: Option<String>,
    pub mode_smart: Option<String>,
    pub mode_fill: Option<String>,
    pub mode_fit: Option<String>,
    pub mode_stretch: Option<String>,
    pub blur_sigma: Option<String>,
    pub bg_darken: Option<String>,
    pub preview_image: Option<String>,
    pub preview_button: Option<String>,
    pub cache_heading: Option<String>,
    pub cache_directory: Option<String>,
    pub max_size_mb: Option<String>,
    pub unlimited_hint: Option<String>,
    pub refresh: Option<String>,
    pub clear_cache: Option<String>,
    pub current_size_unknown: Option<String>,
    pub current_size: Option<String>,
    pub unlimited: Option<String>,
    pub online_heading: Option<String>,
    pub online_desc: Option<String>,
    pub remove: Option<String>,
    pub count: Option<String>,
    pub interval_hours: Option<String>,
    pub download_dir: Option<String>,
    pub add_provider: Option<String>,
    pub add_provider_button: Option<String>,
    pub download_dir_hint: Option<String>,
    pub api_key: Option<String>,
    pub query: Option<String>,
    pub subreddit: Option<String>,
    pub locale: Option<String>,
    pub quality: Option<String>,
    pub interval_default_hint: Option<String>,
    pub default_option: Option<String>,
    pub unknown_language: Option<String>,
    pub image_filter_label: Option<String>,
    pub ui_heading: Option<String>,
    pub language: Option<String>,
    pub warn_notify: Option<String>,
    pub notify_fetch: Option<String>,
    pub enable_blacklist: Option<String>,
}

pub open spec fn raw_config_strings_empty() -> RawConfigStrings {
    RawConfigStrings {
        dialog_select_folder: None,
        dialog_select_image: None,
        browse: None,
        kdialog_missing: None,
        save_button: None,
        add: None,
        saved: None,
        save_failed: None,
        preview_error: None,
        tab_sources: None,
        tab_online: None,
        tab_rotation: None,
        tab_display: None,
        tab_cache: None,
        tab_ui: None,
        sources_heading: None,
        recursive: None,
        favorites_dir: None,
        favorites_hint: None,
        directories: None,
        rotation_heading: None,
        interval_secs: None,
        order: None,
        order_random: None,
        order_sequential: None,
        change_on_start: None,
        prefetch: None,
        display_heading: None,
        mode_blurpad: None,
        mode_smart: None,
        mode_fill: None,
        mode_fit: None,
        mode_stretch: None,
        blur_sigma: None,
        bg_darken: None,
        preview_image: None,
        preview_button: None,
        cache_heading: None,
        cache_directory: None,
        max_size_mb: None,
        unlimited_hint: None,
        refresh: None,
        clear_cache: None,
        current_size_unknown: None,
        current_size: None,
        unlimited: None,
        online_heading: None,
        online_desc: None,
        remove: None,
        count: None,
        interval_hours: None,
        download_dir: None,
        add_provider: None,
        add_provider_button: None,
        download_dir_hint: None,
        api_key: None,
        query: None,
        subreddit: None,
        locale: None,
        quality: None,
        interval_default_hint: None,
        default_option: None,
        unknown_language: None,
        image_filter_label: None,
        ui_heading: None,
        language: None,
        warn_notify: None,
        notify_fetch: None,
        enable_blacklist: None,
    }
}

/// `b` laid over `a`: each key that `b` gives replaces that of `a`.
pub open spec fn raw_config_strings_over(a: RawConfigStrings, b: RawConfigStrings) -> RawConfigStrings {
    RawConfigStrings {
        dialog_select_folder: later(a.dialog_select_folder, b.dialog_select_folder),
        dialog_select_image: later(a.dialog_select_image, b.dialog_select_image),
        browse: later(a.browse, b.browse),
        kdialog_missing: later(a.kdialog_missing, b.kdialog_missing),
        save_button: later(a.save_button, b.save_button),
        add: later(a.add, b.add),
        saved: later(a.saved, b.saved),
        save_failed: later(a.save_failed, b.save_failed),
        preview_error: later(a.preview_error, b.preview_error),
        tab_sources: later(a.tab_sources, b.tab_sources),
        tab_online: later(a.tab_online, b.tab_online),
        tab_rotation: later(a.tab_rotation, b.tab_rotation),
        tab_display: later(a.tab_display, b.tab_display),
        tab_cache: later(a.tab_cache, b.tab_cache),
        tab_ui: later(a.tab_ui, b.tab_ui),
        sources_heading: later(a.sources_heading, b.sources_heading),
        recursive: later(a.recursive, b.recursive),
        favorites_dir: later(a.favorites_dir, b.favorites_dir),
        favorites_hint: later(a.favorites_hint, b.favorites_hint),
        directories: later(a.directories, b.directories),
        rotation_heading: later(a.rotation_heading, b.rotation_heading),
        interval_secs: later(a.interval_secs, b.interval_secs),
        order: later(a.order, b.order),
        order_random: later(a.order_random, b.order_random),
        order_sequential: later(a.order_sequential, b.order_sequential),
        change_on_start: later(a.change_on_start, b.change_on_start),
        prefetch: later(a.prefetch, b.prefetch),
        display_heading: later(a.display_heading, b.display_heading),
        mode_blurpad: later(a.mode_blurpad, b.mode_blurpad),
        mode_smart: later(a.mode_smart, b.mode_smart),
        mode_fill: later(a.mode_fill, b.mode_fill),
        mode_fit: later(a.mode_fit, b.mode_fit),
        mode_stretch: later(a.mode_stretch, b.mode_stretch),
        blur_sigma: later(a.blur_sigma, b.blur_sigma),
        bg_darken: later(a.bg_darken, b.bg_darken),
        preview_image: later(a.preview_image, b.preview_image),
        preview_button: later(a.preview_button, b.preview_button),
        cache_heading: later(a.cache_heading, b.cache_heading),
        cache_directory: later(a.cache_directory, b.cache_directory),
        max_size_mb: later(a.max_size_mb, b.max_size_mb),
        unlimited_hint: later(a.unlimited_hint, b.unlimited_hint),
        refresh: later(a.refresh, b.refresh),
        clear_cache: later(a.clear_cache, b.clear_cache),
        current_size_unknown: later(a.current_size_unknown, b.current_size_unknown),
        current_size: later(a.current_size, b.current_size),
        unlimited: later(a.unlimited, b.unlimited),
        online_heading: later(a.online_heading, b.online_heading),
        online_desc: later(a.online_desc, b.online_desc),
        remove: later(a.remove, b.remove),
        count: later(a.count, b.count),
        interval_hours: later(a.interval_hours, b.interval_hours),
        download_dir: later(a.download_dir, b.download_dir),
        add_provider: later(a.add_provider, b.add_provider),
        add_provider_button: later(a.add_provider_button, b.add_provider_button),
        download_dir_hint: later(a.download_dir_hint, b.download_dir_hint),
        api_key: later(a.api_key, b.api_key),
        query: later(a.query, b.query),
        subreddit: later(a.subreddit, b.subreddit),
        locale: later(a.locale, b.locale),
        quality: later(a.quality, b.quality),
        interval_default_hint: later(a.interval_default_hint, b.interval_default_hint),
        default_option: later(a.default_option, b.default_option),
        unknown_language: later(a.unknown_language, b.unknown_language),
        image_filter_label: later(a.image_filter_label, b.image_filter_label),
        ui_heading: later(a.ui_heading, b.ui_heading),
        language: later(a.language, b.language),
        warn_notify: later(a.warn_notify, b.warn_notify),
        notify_fetch: later(a.notify_fetch, b.notify_fetch),
        enable_blacklist: later(a.enable_blacklist, b.enable_blacklist),
    }
}

/// `t` holds the keys that `raw` gives and those of `base` elsewhere.
pub open spec fn raw_config_strings_merged(t: ConfigStrings, raw: RawConfigStrings, base: ConfigStrings) -> bool {
    &&& true
    &&& t.dialog_select_folder@ == pick(raw.dialog_select_folder, base.dialog_select_folder@)
    &&& t.dialog_select_image@ == pick(raw.dialog_select_image, base.dialog_select_image@)
    &&& t.browse@ == pick(raw.browse, base.browse@)
    &&& t.kdialog_missing@ == pick(raw.kdialog_missing, base.kdialog_missing@)
    &&& t.save_button@ == pick(raw.save_button, base.save_button@)
    &&& t.add@ == pick(raw.add, base.add@)
    &&& t.saved@ == pick(raw.saved, base.saved@)
    &&& t.save_failed@ == pick(raw.save_failed, base.save_failed@)
    &&& t.preview_error@ == pick(raw.preview_error, base.preview_error@)
    &&& t.tab_sources@ == pick(raw.tab_sources, base.tab_sources@)
    &&& t.tab_online@ == pick(raw.tab_online, base.tab_online@)
    &&& t.tab_rotation@ == pick(raw.tab_rotation, base.tab_rotation@)
    &&& t.tab_display@ == pick(raw.tab_display, base.tab_display@)
    &&& t.tab_cache@ == pick(raw.tab_cache, base.tab_cache@)
    &&& t.tab_ui@ == pick(raw.tab_ui, base.tab_ui@)
    &&& t.sources_heading@ == pick(raw.sources_heading, base.sources_heading@)
    &&& t.recursive@ == pick(raw.recursive, base.recursive@)
    &&& t.favorites_dir@ == pick(raw.favorites_dir, base.favorites_dir@)
    &&& t.favorites_hint@ == pick(raw.favorites_hint, base.favorites_hint@)
    &&& t.directories@ == pick(raw.directories, base.directories@)
    &&& t.rotation_heading@ == pick(raw.rotation_heading, base.rotation_heading@)
    &&& t.interval_secs@ == pick(raw.interval_secs, base.interval_secs@)
    &&& t.order@ == pick(raw.order, base.order@)
    &&& t.order_random@ == pick(raw.order_random, base.order_random@)
    &&& t.order_sequential@ == pick(raw.order_sequential, base.order_sequential@)
    &&& t.change_on_start@ == pick(raw.change_on_start, base.change_on_start@)
    &&& t.prefetch@ == pick(raw.prefetch, base.prefetch@)
    &&& t.display_heading@ == pick(raw.display_heading, base.display_heading@)
    &&& t.mode_blurpad@ == pick(raw.mode_blurpad, base.mode_blurpad@)
    &&& t.mode_smart@ == pick(raw.mode_smart, base.mode_smart@)
    &&& t.mode_fill@ == pick(raw.mode_fill, base.mode_fill@)
    &&& t.mode_fit@ == pick(raw.mode_fit, base.mode_fit@)
    &&& t.mode_stretch@ == pick(raw.mode_stretch, base.mode_stretch@)
    &&& t.blur_sigma@ == pick(raw.blur_sigma, base.blur_sigma@)
    &&& t.bg_darken@ == pick(raw.bg_darken, base.bg_darken@)
    &&& t.preview_image@ == pick(raw.preview_image, base.preview_image@)
    &&& t.preview_button@ == pick(raw.preview_button, base.preview_button@)
    &&& t.cache_heading@ == pick(raw.cache_heading, base.cache_heading@)
    &&& t.cache_directory@ == pick(raw.cache_directory, base.cache_directory@)
    &&& t.max_size_mb@ == pick(raw.max_size_mb, base.max_size_mb@)
    &&& t.unlimited_hint@ == pick(raw.unlimited_hint, base.unlimited_hint@)
    &&& t.refresh@ == pick(raw.refresh, base.refresh@)
    &&& t.clear_cache@ == pick(raw.clear_cache, base.clear_cache@)
    &&& t.current_size_unknown@ == pick(raw.current_size_unknown, base.current_size_unknown@)
    &&& t.current_size@ == pick(raw.current_size, base.current_size@)
    &&& t.unlimited@ == pick(raw.unlimited, base.unlimited@)
    &&& t.online_heading@ == pick(raw.online_heading, base.online_heading@)
    &&& t.online_desc@ == pick(raw.online_desc, base.online_desc@)
    &&& t.remove@ == pick(raw.remove, base.remove@)
    &&& t.count@ == pick(raw.count, base.count@)
    &&& t.interval_hours@ == pick(raw.interval_hours, base.interval_hours@)
    &&& t.download_dir@ == pick(raw.download_dir, base.download_dir@)
    &&& t.add_provider@ == pick(raw.add_provider, base.add_provider@)
    &&& t.add_provider_button@ == pick(raw.add_provider_button, base.add_provider_button@)
    &&& t.download_dir_hint@ == pick(raw.download_dir_hint, base.download_dir_hint@)
    &&& t.api_key@ == pick(raw.api_key, base.api_key@)
    &&& t.query@ == pick(raw.query, base.query@)
    &&& t.subreddit@ == pick(raw.subreddit, base.subreddit@)
    &&& t.locale@ == pick(raw.locale, base.locale@)
    &&& t.quality@ == pick(raw.quality, base.quality@)
    &&& t.interval_default_hint@ == pick(raw.interval_default_hint, base.interval_default_hint@)
    &&& t.default_option@ == pick(raw.default_option, base.default_option@)
    &&& t.unknown_language@ == pick(raw.unknown_language, base.unknown_language@)
    &&& t.image_filter_label@ == pick(raw.image_filter_label, base.image_filter_label@)
    &&& t.ui_heading@ == pick(raw.ui_heading, base.ui_heading@)
    &&& t.language@ == pick(raw.language, base.language@)
    &&& t.warn_notify@ == pick(raw.warn_notify, base.warn_notify@)
    &&& t.notify_fetch@ == pick(raw.notify_fetch, base.notify_fetch@)
    &&& t.enable_blacklist@ == pick(raw.enable_blacklist, base.enable_blacklist@)
}

impl RawConfigStrings {
    /// A table that gives no key.
    pub fn new() -> (r: Self)
        ensures
            r == raw_config_strings_empty(),
    {
        RawConfigStrings {
            dialog_select_folder: None,
            dialog_select_image: None,
            browse: None,
            kdialog_missing: None,
            save_button: None,
            add: None,
            saved: None,
            save_failed: None,
            preview_error: None,
            tab_sources: None,
            tab_online: None,
            tab_rotation: None,
            tab_display: None,
            tab_cache: None,
            tab_ui: None,
            sources_heading: None,
            recursive: None,
            favorites_dir: None,
            favorites_hint: None,
            directories: None,
            rotation_heading: None,
            interval_secs: None,
            order: None,
            order_random: None,
            order_sequential: None,
            change_on_start: None,
            prefetch: None,
            display_heading: None,
            mode_blurpad: None,
            mode_smart: None,
            mode_fill: None,
            mode_fit: None,
            mode_stretch: None,
            blur_sigma: None,
            bg_darken: None,
            preview_image: None,
            preview_button: None,
            cache_heading: None,
            cache_directory: None,
            max_size_mb: None,
            unlimited_hint: None,
            refresh: None,
            clear_cache: None,
            current_size_unknown: None,
            current_size: None,
            unlimited: None,
            online_heading: None,
            online_desc: None,
            remove: None,
            count: None,
            interval_hours: None,
            download_dir: None,
            add_provider: None,
            add_provider_button: None,
            download_dir_hint: None,
            api_key: None,
            query: None,
            subreddit: None,
            locale: None,
            quality: None,
            interval_default_hint: None,
            default_option: None,
            unknown_language: None,
            image_filter_label: None,
            ui_heading: None,
            language: None,
            warn_notify: None,
            notify_fetch: None,
            enable_blacklist: None,
        }
    }

    /// The table with the keys given here and those of `base` elsewhere.
    pub fn merge(self, base: &ConfigStrings) -> (t: ConfigStrings)
        ensures
            raw_config_strings_merged(t, self, *base),
    {
        ConfigStrings {
            dialog_select_folder: take_or_clone(self.dialog_select_folder, &base.dialog_select_folder),
            dialog_select_image: take_or_clone(self.dialog_select_image, &base.dialog_select_image),
            browse: take_or_clone(self.browse, &base.browse),
            kdialog_missing: take_or_clone(self.kdialog_missing, &base.kdialog_missing),
            save_button: take_or_clone(self.save_button, &base.save_button),
            add: take_or_clone(self.add, &base.add),
            saved: take_or_clone(self.saved, &base.saved),
            save_failed: take_or_clone(self.save_failed, &base.save_failed),
            preview_error: take_or_clone(self.preview_error, &base.preview_error),
            tab_sources: take_or_clone(self.tab_sources, &base.tab_sources),
            tab_online: take_or_clone(self.tab_online, &base.tab_online),
            tab_rotation: take_or_clone(self.tab_rotation, &base.tab_rotation),
            tab_display: take_or_clone(self.tab_display, &base.tab_display),
            tab_cache: take_or_clone(self.tab_cache, &base.tab_cache),
            tab_ui: take_or_clone(self.tab_ui, &base.tab_ui),
            sources_heading: take_or_clone(self.sources_heading, &base.sources_heading),
            recursive: take_or_clone(self.recursive, &base.recursive),
            favorites_dir: take_or_clone(self.favorites_dir, &base.favorites_dir),
            favorites_hint: take_or_clone(self.favorites_hint, &base.favorites_hint),
            directories: take_or_clone(self.directories, &base.directories),
            rotation_heading: take_or_clone(self.rotation_heading, &base.rotation_heading),
            interval_secs: take_or_clone(self.interval_secs, &base.interval_secs),
            order: take_or_clone(self.order, &base.order),
            order_random: take_or_clone(self.order_random, &base.order_random),
            order_sequential: take_or_clone(self.order_sequential, &base.order_sequential),
            change_on_start: take_or_clone(self.change_on_start, &base.change_on_start),
            prefetch: take_or_clone(self.prefetch, &base.prefetch),
            display_heading: take_or_clone(self.display_heading, &base.display_heading),
            mode_blurpad: take_or_clone(self.mode_blurpad, &base.mode_blurpad),
            mode_smart: take_or_clone(self.mode_smart, &base.mode_smart),
            mode_fill: take_or_clone(self.mode_fill, &base.mode_fill),
            mode_fit: take_or_clone(self.mode_fit, &base.mode_fit),
            mode_stretch: take_or_clone(self.mode_stretch, &base.mode_stretch),
            blur_sigma: take_or_clone(self.blur_sigma, &base.blur_sigma),
            bg_darken: take_or_clone(self.bg_darken, &base.bg_darken),
            preview_image: take_or_clone(self.preview_image, &base.preview_image),
            preview_button: take_or_clone(self.preview_button, &base.preview_button),
            cache_heading: take_or_clone(self.cache_heading, &base.cache_heading),
            cache_directory: take_or_clone(self.cache_directory, &base.cache_directory),
            max_size_mb: take_or_clone(self.max_size_mb, &base.max_size_mb),
            unlimited_hint: take_or_clone(self.unlimited_hint, &base.unlimited_hint),
            refresh: take_or_clone(self.refresh, &base.refresh),
            clear_cache: take_or_clone(self.clear_cache, &base.clear_cache),
            current_size_unknown: take_or_clone(self.current_size_unknown, &base.current_size_unknown),
            current_size: take_or_clone(self.current_size, &base.current_size),
            unlimited: take_or_clone(self.unlimited, &base.unlimited),
            online_heading: take_or_clone(self.online_heading, &base.online_heading),
            online_desc: take_or_clone(self.online_desc, &base.online_desc),
            remove: take_or_clone(self.remove, &base.remove),
            count: take_or_clone(self.count, &base.count),
            interval_hours: take_or_clone(self.interval_hours, &base.interval_hours),
            download_dir: take_or_clone(self.download_dir, &base.download_dir),
            add_provider: take_or_clone(self.add_provider, &base.add_provider),
            add_provider_button: take_or_clone(self.add_provider_button, &base.add_provider_button),
            download_dir_hint: take_or_clone(self.download_dir_hint, &base.download_dir_hint),
            api_key: take_or_clone(self.api_key, &base.api_key),
            query: take_or_clone(self.query, &base.query),
            subreddit: take_or_clone(self.subreddit, &base.subreddit),
            locale: take_or_clone(self.locale, &base.locale),
            quality: take_or_clone(self.quality, &base.quality),
            interval_default_hint: take_or_clone(self.interval_default_hint, &base.interval_default_hint),
            default_option: take_or_clone(self.default_option, &base.default_option),
            unknown_language: take_or_clone(self.unknown_language, &base.unknown_language),
            image_filter_label: take_or_clone(self.image_filter_label, &base.image_filter_label),
            ui_heading: take_or_clone(self.ui_heading, &base.ui_heading),
            language: take_or_clone(self.language, &base.language),
            warn_notify: take_or_clone(self.warn_notify, &base.warn_notify),
            notify_fetch: take_or_clone(self.notify_fetch, &base.notify_fetch),
            enable_blacklist: take_or_clone(self.enable_blacklist, &base.enable_blacklist),
        }
    }

    /// Lays `other` over this table: each key that `other` gives wins.
    pub fn overlay(&mut self, other: Self)
        ensures
            *final(self) == raw_config_strings_over(*old(self), other),
    {
        self.dialog_select_folder = later_of(self.dialog_select_folder.take(), other.dialog_select_folder);
        self.dialog_select_image = later_of(self.dialog_select_image.take(), other.dialog_select_image);
        self.browse = later_of(self.browse.take(), other.browse);
        self.kdialog_missing = later_of(self.kdialog_missing.take(), other.kdialog_missing);
        self.save_button = later_of(self.save_button.take(), other.save_button);
        self.add = later_of(self.add.take(), other.add);
        self.saved = later_of(self.saved.take(), other.saved);
        self.save_failed = later_of(self.save_failed.take(), other.save_failed);
        self.preview_error = later_of(self.preview_error.take(), other.preview_error);
        self.tab_sources = later_of(self.tab_sources.take(), other.tab_sources);
        self.tab_online = later_of(self.tab_online.take(), other.tab_online);
        self.tab_rotation = later_of(self.tab_rotation.take(), other.tab_rotation);
        self.tab_display = later_of(self.tab_display.take(), other.tab_display);
        self.tab_cache = later_of(self.tab_cache.take(), other.tab_cache);
        self.tab_ui = later_of(self.tab_ui.take(), other.tab_ui);
        self.sources_heading = later_of(self.sources_heading.take(), other.sources_heading);
        self.recursive = later_of(self.recursive.take(), other.recursive);
        self.favorites_dir = later_of(self.favorites_dir.take(), other.favorites_dir);
        self.favorites_hint = later_of(self.favorites_hint.take(), other.favorites_hint);
        self.directories = later_of(self.directories.take(), other.directories);
        self.rotation_heading = later_of(self.rotation_heading.take(), other.rotation_heading);
        self.interval_secs = later_of(self.interval_secs.take(), other.interval_secs);
        self.order = later_of(self.order.take(), other.order);
        self.order_random = later_of(self.order_random.take(), other.order_random);
        self.order_sequential = later_of(self.order_sequential.take(), other.order_sequential);
        self.change_on_start = later_of(self.change_on_start.take(), other.change_on_start);
        self.prefetch = later_of(self.prefetch.take(), other.prefetch);
        self.display_heading = later_of(self.display_heading.take(), other.display_heading);
        self.mode_blurpad = later_of(self.mode_blurpad.take(), other.mode_blurpad);
        self.mode_smart = later_of(self.mode_smart.take(), other.mode_smart);
        self.mode_fill = later_of(self.mode_fill.take(), other.mode_fill);
        self.mode_fit = later_of(self.mode_fit.take(), other.mode_fit);
        self.mode_stretch = later_of(self.mode_stretch.take(), other.mode_stretch);
        self.blur_sigma = later_of(self.blur_sigma.take(), other.blur_sigma);
        self.bg_darken = later_of(self.bg_darken.take(), other.bg_darken);
        self.preview_image = later_of(self.preview_image.take(), other.preview_image);
        self.preview_button = later_of(self.preview_button.take(), other.preview_button);
        self.cache_heading = later_of(self.cache_heading.take(), other.cache_heading);
        self.cache_directory = later_of(self.cache_directory.take(), other.cache_directory);
        self.max_size_mb = later_of(self.max_size_mb.take(), other.max_size_mb);
        self.unlimited_hint = later_of(self.unlimited_hint.take(), other.unlimited_hint);
        self.refresh = later_of(self.refresh.take(), other.refresh);
        self.clear_cache = later_of(self.clear_cache.take(), other.clear_cache);
        self.current_size_unknown = later_of(self.current_size_unknown.take(), other.current_size_unknown);
        self.current_size = later_of(self.current_size.take(), other.current_size);
        self.unlimited = later_of(self.unlimited.take(), other.unlimited);
        self.online_heading = later_of(self.online_heading.take(), other.online_heading);
        self.online_desc = later_of(self.online_desc.take(), other.online_desc);
        self.remove = later_of(self.remove.take(), other.remove);
        self.count = later_of(self.count.take(), other.count);
        self.interval_hours = later_of(self.interval_hours.take(), other.interval_hours);
        self.download_dir = later_of(self.download_dir.take(), other.download_dir);
        self.add_provider = later_of(self.add_provider.take(), other.add_provider);
        self.add_provider_button = later_of(self.add_provider_button.take(), other.add_provider_button);
        self.download_dir_hint = later_of(self.download_dir_hint.take(), other.download_dir_hint);
        self.api_key = later_of(self.api_key.take(), other.api_key);
        self.query = later_of(self.query.take(), other.query);
        self.subreddit = later_of(self.subreddit.take(), other.subreddit);
        self.locale = later_of(self.locale.take(), other.locale);
        self.quality = later_of(self.quality.take(), other.quality);
        self.interval_default_hint = later_of(self.interval_default_hint.take(), other.interval_default_hint);
        self.default_option = later_of(self.default_option.take(), other.default_option);
        self.unknown_language = later_of(self.unknown_language.take(), other.unknown_language);
        self.image_filter_label = later_of(self.image_filter_label.take(), other.image_filter_label);
        self.ui_heading = later_of(self.ui_heading.take(), other.ui_heading);
        self.language = later_of(self.language.take(), other.language);
        self.warn_notify = later_of(self.warn_notify.take(), other.warn_notify);
        self.notify_fetch = later_of(self.notify_fetch.take(), other.notify_fetch);
        self.enable_blacklist = later_of(self.enable_blacklist.take(), other.enable_blacklist);
    }
}

// ---- language files --------------------------------------------------------

/// One language file; every field may be missing.
#[derive(Debug, Clone)]
pub struct LangFile {
    pub display_name: Option<String>,
    pub gui_visible: Option<bool>,
    pub tray: RawUiStrings,
    pub config: RawConfigStrings,
}

pub open spec fn lang_file_empty() -> LangFile {
    LangFile {
        display_name: None,
        gui_visible: None,
        tray: raw_ui_strings_empty(),
        config: raw_config_strings_empty(),
    }
}

/// `b` laid over `a`, key by key.
pub open spec fn lang_file_over(a: LangFile, b: LangFile) -> LangFile {
    LangFile {
        display_name: later(a.display_name, b.display_name),
        gui_visible: later(a.gui_visible, b.gui_visible),
        tray: raw_ui_strings_over(a.tray, b.tray),
        config: raw_config_strings_over(a.config, b.config),
    }
}

impl LangFile {
    /// A file that gives nothing.
    pub fn new() -> (f: Self)
        ensures
            f == lang_file_empty(),
    {
        LangFile {
            display_name: None,
            gui_visible: None,
            tray: RawUiStrings::new(),
            config: RawConfigStrings::new(),
        }
    }

    /// Lays a file of higher priority over this one: what it gives wins,
    /// the rest stays.
    pub fn overlay(&mut self, other: Self)
        ensures
            *final(self) == lang_file_over(*old(self), other),
    {
        let LangFile { display_name, gui_visible, tray, config } = other;
        self.display_name = later_of(self.display_name.take(), display_name);
        self.gui_visible = match gui_visible {
            Some(b) => Some(b),
            None => self.gui_visible,
        };
        self.tray.overlay(tray);
        self.config.overlay(config);
    }
}

/// Every entry of `reg` has a label for each of the six interval presets.
pub open spec fn labels_complete(reg: Seq<LangEntry>) -> bool {
    forall|k: int| 0 <= k < reg.len() ==> (#[trigger] reg[k]).strings.interval_labels@.len() == 6
}

/// A registered language.
#[derive(Debug, Clone)]
pub struct LangEntry {
    /// The code used by the configuration and `KABEKAMI_LANG` (`"ja"`); the
    /// name of its file.
    pub id: String,
    /// Name shown in the language list of the settings window.
    pub display_name: String,
    /// Entries with `false` are not offered by the settings window.
    pub gui_visible: bool,
    /// Strings of the tray and the notifications.
    pub strings: UiStrings,
    /// Strings of the settings window.
    pub config: ConfigStrings,
}

/// The interval labels of an entry: those of the file when there are as
/// many as in the base table (each selects the preset at its index), else
/// the base's.
pub open spec fn entry_labels(f: LangFile, base_ui: UiStrings) -> Seq<Seq<char>> {
    let l = pick_list(f.tray.interval_labels, texts(base_ui.interval_labels@));
    if l.len() == base_ui.interval_labels@.len() {
        l
    } else {
        texts(base_ui.interval_labels@)
    }
}

/// `e` is the entry made from file `f` for language `id`; its display name
/// falls back to `name`.
pub open spec fn entry_made(
    e: LangEntry,
    id: Seq<char>,
    name: Seq<char>,
    f: LangFile,
    base_ui: UiStrings,
    base_cfg: ConfigStrings,
) -> bool {
    &&& e.id@ == id
    &&& e.display_name@ == pick(f.display_name, name)
    &&& e.gui_visible == (match f.gui_visible {
        Some(b) => b,
        None => true,
    })
    &&& raw_ui_strings_merged(e.strings, f.tray, base_ui)
    &&& texts(e.strings.interval_labels@) == entry_labels(f, base_ui)
    &&& raw_config_strings_merged(e.config, f.config, base_cfg)
}

/// Turns a language file into a registry entry: missing keys come from
/// the base tables, a display name defaults to the code, visibility to
/// `true`, and interval labels of the wrong count are replaced by the
/// base's.
pub fn make_entry(id: &str, file: LangFile, base_ui: &UiStrings, base_cfg: &ConfigStrings) -> (e: LangEntry)
    ensures
        entry_made(e, id@, id@, file, *base_ui, *base_cfg),
{
    let ghost f0 = file;
    let LangFile { display_name, gui_visible, tray, config } = file;
    let mut ui = tray.merge(base_ui);
    if ui.interval_labels.len() != base_ui.interval_labels.len() {
        ui.interval_labels = clone_strings(&base_ui.interval_labels);
    }
    let idv = owned(id);
    let name = take_or_clone(display_name, &idv);
    LangEntry {
        id: idv,
        display_name: name,
        gui_visible: match gui_visible {
            Some(b) => b,
            None => true,
        },
        strings: ui,
        config: config.merge(base_cfg),
    }
}

/// Language code of a file in a language directory: the stem of a
/// `*.toml` name, in lower case; `None` for other files.
pub open spec fn spec_file_lang_id(name: Seq<char>) -> Option<Seq<char>> {
    let dot = last_dot(name);
    if 0 < dot && name.skip(dot + 1) == "toml"@ {
        Some(lower_seq(name.take(dot)))
    } else {
        None
    }
}

/// Index of the last `.` of `s`, or -1.
pub open spec fn last_dot(s: Seq<char>) -> int
    decreases s.len(),
{
    if s.len() == 0 {
        -1
    } else if s.last() == '.' {
        s.len() - 1
    } else {
        last_dot(s.drop_last())
    }
}

/// The language code that a file name in a language directory gives.
pub fn file_lang_id(name: &str) -> (r: Option<String>)
    ensures
        match r {
            Some(id) => spec_file_lang_id(name@) == Some(id@),
            None => spec_file_lang_id(name@) is None,
        },
{
    let v = chars_of(name);
    let n = v.len();
    let mut i = n;
    assert(name@.take(n as int) =~= name@);
    while i > 0 && v[i - 1] != '.'
        invariant
            i <= n == v@.len(),
            v@ == name@,
            last_dot(name@) == last_dot(name@.take(i as int)),
        decreases i,
    {
        assert(name@.take(i as int).drop_last() =~= name@.take(i - 1));
        i = i - 1;
    }
    proof {
        if i > 0 {
            assert(name@.take(i as int).last() == '.');
        }
        assert(last_dot(name@) == i - 1);
        reveal_strlit("toml");
    }
    if i <= 1 {
        assert(!(0 < last_dot(name@)));
        return None;
    }
    let dot = i - 1;
    if !(n - i == 4 && v[i] == 't' && v[i + 1] == 'o' && v[i + 2] == 'm' && v[i + 3] == 'l') {
        proof {
            reveal_strlit("toml");
            assert("toml"@.len() == 4);
            if n - i == 4 {
                assert(name@.skip(dot + 1)[0] == v@[i as int]);
                assert(name@.skip(dot + 1)[1] == v@[i + 1]);
                assert(name@.skip(dot + 1)[2] == v@[i + 2]);
                assert(name@.skip(dot + 1)[3] == v@[i + 3]);
                assert("toml"@[0] == 't' && "toml"@[1] == 'o' && "toml"@[2] == 'm' && "toml"@[3] == 'l');
            }
            assert(name@.skip(dot + 1) != "toml"@);
        }
        return None;
    }
    assert(name@.skip(dot + 1) =~= "toml"@);
    let mut id = String::new();
    let mut k: usize = 0;
    while k < dot
        invariant
            k <= dot < n == v@.len(),
            v@ == name@,
            id@ == lower_seq(name@.take(k as int)),
        decreases dot - k,
    {
        crate::text::push_char(&mut id, crate::text::char_lower(v[k]));
        assert(lower_seq(name@.take(k + 1)) =~= lower_seq(name@.take(k as int)).push(
            crate::text::lower_char(v@[k as int]),
        ));
        k = k + 1;
    }
    Some(id)
}

// ---- ordering of codes -----------------------------------------------------

/// `a` sorts before `b` (lexicographic by character, as `String`'s order).
pub open spec fn text_less(a: Seq<char>, b: Seq<char>) -> bool
    decreases a.len(),
{
    if a.len() == 0 {
        b.len() > 0
    } else if b.len() == 0 {
        false
    } else if a[0] != b[0] {
        a[0] < b[0]
    } else {
        text_less(a.drop_first(), b.drop_first())
    }
}

pub proof fn lemma_text_less_total(a: Seq<char>, b: Seq<char>)
    ensures
        a != b ==> text_less(a, b) || text_less(b, a),
        !(text_less(a, b) && text_less(b, a)),
        !text_less(a, a),
    decreases a.len(),
{
    if a.len() > 0 {
        lemma_text_less_total(a.drop_first(), a.drop_first());
    }
    if a.len() > 0 && b.len() > 0 {
        lemma_text_less_total(a.drop_first(), b.drop_first());
        if a[0] == b[0] && a.drop_first() == b.drop_first() {
            assert forall|i: int| 0 <= i < a.len() implies a[i] == b[i] by {
                if i > 0 {
                    assert(a[i] == a.drop_first()[i - 1]);
                    assert(b[i] == b.drop_first()[i - 1]);
                }
            }
            assert(a =~= b);
        }
    } else if a.len() == 0 && b.len() == 0 {
        assert(a =~= b);
    }
}

pub proof fn lemma_text_less_trans(a: Seq<char>, b: Seq<char>, c: Seq<char>)
    requires
        text_less(a, b),
        text_less(b, c),
    ensures
        text_less(a, c),
    decreases a.len(),
{
    if a.len() > 0 && b.len() > 0 && c.len() > 0 {
        if a[0] == b[0] && b[0] == c[0] {
            lemma_text_less_trans(a.drop_first(), b.drop_first(), c.drop_first());
        }
    }
}

/// Whether `a` sorts before `b` (`text_less`).
pub fn text_before(a: &String, b: &String) -> (r: bool)
    ensures
        r == text_less(a@, b@),
{
    less(a, b)
}

fn less(a: &String, b: &String) -> (r: bool)
    ensures
        r == text_less(a@, b@),
{
    let av = chars_of(a.as_str());
    let bv = chars_of(b.as_str());
    let mut i: usize = 0;
    assert(a@.skip(0) =~= a@);
    assert(b@.skip(0) =~= b@);
    while i < av.len() && i < bv.len() && av[i] == bv[i]
        invariant
            i <= av@.len(),
            i <= bv@.len(),
            av@ == a@,
            bv@ == b@,
            text_less(a@, b@) == text_less(a@.skip(i as int), b@.skip(i as int)),
        decreases av@.len() - i,
    {
        assert(a@.skip(i as int).drop_first() =~= a@.skip(i + 1));
        assert(b@.skip(i as int).drop_first() =~= b@.skip(i + 1));
        i = i + 1;
    }
    if i == av.len() {
        i < bv.len()
    } else if i == bv.len() {
        false
    } else {
        assert(a@.skip(i as int)[0] == av@[i as int]);
        assert(b@.skip(i as int)[0] == bv@[i as int]);
        av[i] < bv[i]
    }
}

// ---- the registry ----------------------------------------------------------

/// All layers with code `id`, laid over each other in order.
pub open spec fn combined(layers: Seq<(String, LangFile)>, id: Seq<char>) -> LangFile
    decreases layers.len(),
{
    if layers.len() == 0 {
        lang_file_empty()
    } else {
        let c = combined(layers.drop_last(), id);
        if layers.last().0@ == id {
            lang_file_over(c, layers.last().1)
        } else {
            c
        }
    }
}

pub open spec fn has_layer(layers: Seq<(String, LangFile)>, id: Seq<char>) -> bool {
    exists|i: int| 0 <= i < layers.len() && #[trigger] layers[i].0@ == id
}

/// `reg` is the registry built from `layers` over the base tables: English
/// first (from the `en` layers, displayed as "English" unless they name
/// it), then one entry per other code of the layers, in increasing order
/// of code, each from all the layers of its code.
pub open spec fn registry_built(
    reg: Seq<LangEntry>,
    layers: Seq<(String, LangFile)>,
    base_ui: UiStrings,
    base_cfg: ConfigStrings,
) -> bool {
    &&& reg.len() >= 1
    &&& entry_made(reg[0], "en"@, "English"@, combined(layers, "en"@), base_ui, base_cfg)
    &&& forall|k: int|
        1 <= k < reg.len() ==> {
            &&& (#[trigger] reg[k]).id@ != "en"@
            &&& has_layer(layers, reg[k].id@)
            &&& entry_made(reg[k], reg[k].id@, reg[k].id@, combined(layers, reg[k].id@), base_ui, base_cfg)
        }
    &&& forall|i: int, j: int| 1 <= i < j < reg.len() ==> text_less(reg[i].id@, reg[j].id@)
    &&& forall|i: int|
        0 <= i < layers.len() && (#[trigger] layers[i]).0@ != "en"@ ==> exists|k: int|
            1 <= k < reg.len() && #[trigger] reg[k].id@ == layers[i].0@
}

spec fn files_ok(files: Seq<(String, LangFile)>, done: Seq<(String, LangFile)>) -> bool {
    &&& forall|i: int, j: int| 0 <= i < j < files.len() ==> text_less(files[i].0@, files[j].0@)
    &&& forall|k: int|
        0 <= k < files.len() ==> has_layer(done, (#[trigger] files[k]).0@) && files[k].1 == combined(
            done,
            files[k].0@,
        )
    &&& forall|i: int|
        0 <= i < done.len() ==> exists|k: int| 0 <= k < files.len() && #[trigger] files[k].0@ == (
        #[trigger] done[i]).0@
}

proof fn lemma_combined_push(done: Seq<(String, LangFile)>, x: (String, LangFile), id: Seq<char>)
    ensures
        combined(done.push(x), id) == (if x.0@ == id {
            lang_file_over(combined(done, id), x.1)
        } else {
            combined(done, id)
        }),
{
    assert(done.push(x).drop_last() =~= done);
}

proof fn lemma_has_layer_push(done: Seq<(String, LangFile)>, x: (String, LangFile), id: Seq<char>)
    ensures
        has_layer(done.push(x), id) == (has_layer(done, id) || x.0@ == id),
{
    let d2 = done.push(x);
    if has_layer(done, id) {
        let w = choose|w: int| 0 <= w < done.len() && #[trigger] done[w].0@ == id;
        assert(d2[w] == done[w]);
    }
    if x.0@ == id {
        assert(d2[done.len() as int] == x);
    }
    if has_layer(d2, id) {
        let w = choose|w: int| 0 <= w < d2.len() && #[trigger] d2[w].0@ == id;
        if w < done.len() {
            assert(d2[w] == done[w]);
        }
    }
}

/// Laying a layer over the file of its code, already in the table.
proof fn lemma_overlay_step(
    old_files: Seq<(String, LangFile)>,
    files: Seq<(String, LangFile)>,
    done: Seq<(String, LangFile)>,
    x: (String, LangFile),
    p: int,
)
    requires
        files_ok(old_files, done),
        0 <= p < old_files.len(),
        old_files[p].0@ == x.0@,
        files == old_files.update(p, (old_files[p].0, lang_file_over(old_files[p].1, x.1))),
    ensures
        files_ok(files, done.push(x)),
{
    let d2 = done.push(x);
    assert forall|q: int| 0 <= q < files.len() implies has_layer(d2, (#[trigger] files[q]).0@)
        && files[q].1 == combined(d2, files[q].0@) by {
        lemma_combined_push(done, x, files[q].0@);
        lemma_has_layer_push(done, x, files[q].0@);
        if q != p {
            assert(files[q] == old_files[q]);
            if old_files[q].0@ == x.0@ {
                lemma_text_less_total(old_files[q].0@, old_files[p].0@);
            }
        }
    }
    assert forall|i: int| 0 <= i < d2.len() implies exists|q: int|
        0 <= q < files.len() && #[trigger] files[q].0@ == (#[trigger] d2[i]).0@ by {
        if i < done.len() {
            assert(d2[i] == done[i]);
            let q = choose|q: int| 0 <= q < old_files.len() && #[trigger] old_files[q].0@ == done[i].0@;
            assert(files[q].0@ == old_files[q].0@);
        } else {
            assert(files[p].0@ == x.0@);
        }
    }
}

/// Inserting the file of a new code at its place in the table.
proof fn lemma_insert_step(
    old_files: Seq<(String, LangFile)>,
    files: Seq<(String, LangFile)>,
    done: Seq<(String, LangFile)>,
    x: (String, LangFile),
    p: int,
)
    requires
        files_ok(old_files, done),
        0 <= p <= old_files.len(),
        forall|j: int| 0 <= j < p ==> text_less(old_files[j].0@, x.0@),
        p < old_files.len() ==> text_less(x.0@, old_files[p].0@),
        files == old_files.insert(p, (x.0, lang_file_over(lang_file_empty(), x.1))),
    ensures
        files_ok(files, done.push(x)),
{
    let d2 = done.push(x);
    let id = x.0@;
    assert(!has_layer(done, id)) by {
        if has_layer(done, id) {
            let w = choose|w: int| 0 <= w < done.len() && #[trigger] done[w].0@ == id;
            let q = choose|q: int| 0 <= q < old_files.len() && #[trigger] old_files[q].0@ == done[w].0@;
            lemma_text_less_total(id, id);
            if q > p {
                lemma_text_less_trans(id, old_files[p].0@, old_files[q].0@);
            }
        }
    }
    lemma_combined_absent(done, id);
    assert forall|i: int, j: int| 0 <= i < j < files.len() implies text_less(files[i].0@, files[j].0@) by {
        if j < p {
            assert(files[i] == old_files[i] && files[j] == old_files[j]);
        } else if j == p {
            assert(files[i] == old_files[i]);
        } else if i == p {
            assert(files[j] == old_files[j - 1]);
            if j - 1 > p {
                lemma_text_less_trans(id, old_files[p].0@, old_files[j - 1].0@);
            }
        } else if i < p {
            assert(files[i] == old_files[i] && files[j] == old_files[j - 1]);
            lemma_text_less_trans(files[i].0@, id, old_files[p].0@);
            if j - 1 > p {
                lemma_text_less_trans(files[i].0@, old_files[p].0@, old_files[j - 1].0@);
            }
        } else {
            assert(files[i] == old_files[i - 1] && files[j] == old_files[j - 1]);
        }
    }
    assert forall|q: int| 0 <= q < files.len() implies has_layer(d2, (#[trigger] files[q]).0@)
        && files[q].1 == combined(d2, files[q].0@) by {
        lemma_combined_push(done, x, files[q].0@);
        lemma_has_layer_push(done, x, files[q].0@);
        if q != p {
            let oq = if q < p { q } else { q - 1 };
            assert(files[q] == old_files[oq]);
            assert(has_layer(done, old_files[oq].0@));
        }
    }
    assert forall|i: int| 0 <= i < d2.len() implies exists|q: int|
        0 <= q < files.len() && #[trigger] files[q].0@ == (#[trigger] d2[i]).0@ by {
        if i < done.len() {
            assert(d2[i] == done[i]);
            let q = choose|q: int| 0 <= q < old_files.len() && #[trigger] old_files[q].0@ == done[i].0@;
            if q < p {
                assert(files[q] == old_files[q]);
            } else {
                assert(files[q + 1] == old_files[q]);
            }
        } else {
            assert(files[p].0@ == id);
        }
    }
}

/// Adds one layer to the table of files, which is kept in increasing
/// order of code.
fn add_layer(files: &mut Vec<(String, LangFile)>, id: String, f: LangFile, Ghost(done): Ghost<Seq<(String, LangFile)>>)
    requires
        files_ok(old(files)@, done),
    ensures
        files_ok(final(files)@, done.push((id, f))),
{
    let ghost x = (id, f);
    let mut p: usize = 0;
    while p < files.len() && less(&files[p].0, &id)
        invariant
            p <= files@.len(),
            forall|j: int| 0 <= j < p ==> text_less(files@[j].0@, id@),
        decreases files@.len() - p,
    {
        p = p + 1;
    }
    let ghost old_files = files@;
    if p < files.len() && files[p].0 == id {
        let (k, mut g) = files.remove(p);
        let ghost g0 = g;
        g.overlay(f);
        files.insert(p, (k, g));
        proof {
            assert(files@ =~= old_files.update(p as int, (old_files[p as int].0, lang_file_over(g0, x.1))));
            lemma_overlay_step(old_files, files@, done, x, p as int);
        }
    } else {
        proof {
            if p < old_files.len() {
                lemma_text_less_total(old_files[p as int].0@, id@);
            }
        }
        let mut g = LangFile::new();
        g.overlay(f);
        files.insert(p, (id, g));
        proof {
            lemma_insert_step(old_files, files@, done, x, p as int);
        }
    }
}

/// The table of files: one per code, each from all the layers of its code.
fn group_layers(layers: Vec<(String, LangFile)>) -> (files: Vec<(String, LangFile)>)
    ensures
        files_ok(files@, layers@),
{
    let ghost all = layers@;
    let total = layers.len();
    let mut rest = layers;
    let mut files: Vec<(String, LangFile)> = Vec::new();
    let mut n_done: usize = 0;
    assert(all.take(0) =~= Seq::<(String, LangFile)>::empty());
    while rest.len() > 0
        invariant
            n_done + rest@.len() == all.len() == total,
            rest@ == all.skip(n_done as int),
            files_ok(files@, all.take(n_done as int)),
        decreases rest@.len(),
    {
        let (id, f) = rest.remove(0);
        assert(all[n_done as int] == (id, f)) by {
            assert(all.skip(n_done as int)[0] == all[n_done as int]);
        }
        assert(all.take(n_done + 1) =~= all.take(n_done as int).push((id, f)));
        add_layer(&mut files, id, f, Ghost(all.take(n_done as int)));
        n_done = n_done + 1;
        assert(rest@ =~= all.skip(n_done as int));
    }
    assert(all.take(n_done as int) =~= all);
    files
}

/// Takes the English file out of the table.
fn take_english(files: &mut Vec<(String, LangFile)>, Ghost(all): Ghost<Seq<(String, LangFile)>>) -> (en: LangFile)
    requires
        files_ok(old(files)@, all),
    ensures
        en == combined(all, "en"@),
        forall|i: int, j: int| 0 <= i < j < final(files)@.len() ==> text_less(final(files)@[i].0@, final(files)@[j].0@),
        forall|k: int|
            0 <= k < final(files)@.len() ==> (#[trigger] final(files)@[k]).0@ != "en"@ && has_layer(all, final(files)@[k].0@)
                && final(files)@[k].1 == combined(all, final(files)@[k].0@),
        forall|i: int|
            0 <= i < all.len() && (#[trigger] all[i]).0@ != "en"@ ==> exists|k: int|
                0 <= k < final(files)@.len() && #[trigger] final(files)@[k].0@ == all[i].0@,
{
    let ghost fin = files@;
    let en = owned("en");
    let mut e: usize = 0;
    while e < files.len() && !(files[e].0 == en)
        invariant
            e <= files@.len(),
            en@ == "en"@,
            forall|j: int| 0 <= j < e ==> files@[j].0@ != "en"@,
        decreases files@.len() - e,
    {
        e = e + 1;
    }
    if e < files.len() {
        let (_, g) = files.remove(e);
        proof {
            assert forall|k: int| 0 <= k < files@.len() implies (#[trigger] files@[k]).0@ != "en"@ && has_layer(all, files@[k].0@)
                && files@[k].1 == combined(all, files@[k].0@) by {
                if k < e {
                    assert(files@[k] == fin[k]);
                } else {
                    assert(files@[k] == fin[k + 1]);
                    lemma_text_less_total(fin[e as int].0@, fin[k + 1].0@);
                }
            }
            assert forall|i: int, j: int| 0 <= i < j < files@.len() implies text_less(files@[i].0@, files@[j].0@) by {
                let fi = if i < e { i } else { i + 1 };
                let fj = if j < e { j } else { j + 1 };
                assert(files@[i] == fin[fi] && files@[j] == fin[fj]);
            }
            assert forall|i: int| 0 <= i < all.len() && (#[trigger] all[i]).0@ != "en"@ implies exists|k: int|
                0 <= k < files@.len() && #[trigger] files@[k].0@ == all[i].0@ by {
                let q = choose|q: int| 0 <= q < fin.len() && #[trigger] fin[q].0@ == all[i].0@;
                let o = if q > e { q - 1 } else { q };
                assert(q != e);
                assert(files@[o] == fin[q]);
            }
        }
        g
    } else {
        proof {
            assert(!has_layer(all, "en"@)) by {
                if has_layer(all, "en"@) {
                    let w = choose|w: int| 0 <= w < all.len() && #[trigger] all[w].0@ == "en"@;
                    let q = choose|q: int| 0 <= q < fin.len() && #[trigger] fin[q].0@ == all[w].0@;
                }
            }
            lemma_combined_absent(all, "en"@);
        }
        LangFile::new()
    }
}

/// Builds the registry from language files, given as `(code, file)` layers
/// in increasing priority.
pub fn build_registry(layers: Vec<(String, LangFile)>, base_ui: &UiStrings, base_cfg: &ConfigStrings) -> (reg: Vec<LangEntry>)
    ensures
        registry_built(reg@, layers@, *base_ui, *base_cfg),
        forall|k: int|
            0 <= k < reg@.len() ==> (#[trigger] reg@[k]).strings.interval_labels@.len()
                == base_ui.interval_labels@.len(),
{
    let ghost all = layers@;
    let mut files = group_layers(layers);
    let mut en_file = take_english(&mut files, Ghost(all));
    let ghost en_combined = en_file;
    if en_file.display_name.is_none() {
        en_file.display_name = Some(owned("English"));
    }
    let mut reg: Vec<LangEntry> = Vec::new();
    let first = make_entry("en", en_file, base_ui, base_cfg);
    reg.push(first);
    let ghost others = files@;
    let m = files.len();
    let mut i: usize = 0;
    while files.len() > 0
        invariant
            i + files@.len() == m == others.len(),
            files@ == others.skip(i as int),
            reg@.len() == i + 1,
            entry_made(reg@[0], "en"@, "English"@, en_combined, *base_ui, *base_cfg),
            forall|k: int|
                1 <= k <= i ==> entry_made(
                    #[trigger] reg@[k],
                    others[k - 1].0@,
                    others[k - 1].0@,
                    others[k - 1].1,
                    *base_ui,
                    *base_cfg,
                ),
        decreases files@.len(),
    {
        let (id, f) = files.remove(0);
        assert(others[i as int] == (id, f)) by {
            assert(others.skip(i as int)[0] == others[i as int]);
        }
        let ent = make_entry(id.as_str(), f, base_ui, base_cfg);
        reg.push(ent);
        i = i + 1;
        assert(files@ =~= others.skip(i as int));
    }
    proof {
        assert forall|w: int| 0 <= w < all.len() && (#[trigger] all[w]).0@ != "en"@ implies exists|k: int|
            1 <= k < reg@.len() && #[trigger] reg@[k].id@ == all[w].0@ by {
            let o = choose|o: int| 0 <= o < others.len() && #[trigger] others[o].0@ == all[w].0@;
            assert(reg@[o + 1].id@ == others[o].0@);
        }
        assert forall|k: int| 1 <= k < reg@.len() implies {
            &&& (#[trigger] reg@[k]).id@ != "en"@
            &&& has_layer(all, reg@[k].id@)
            &&& entry_made(reg@[k], reg@[k].id@, reg@[k].id@, combined(all, reg@[k].id@), *base_ui, *base_cfg)
        } by {
            assert(reg@[k].id@ == others[k - 1].0@);
        }
        assert forall|a: int, b: int| 1 <= a < b < reg@.len() implies text_less(reg@[a].id@, reg@[b].id@) by {
            assert(reg@[a].id@ == others[a - 1].0@);
            assert(reg@[b].id@ == others[b - 1].0@);
        }
        assert forall|k: int| 0 <= k < reg@.len() implies (#[trigger] reg@[k]).strings.interval_labels@.len()
            == base_ui.interval_labels@.len() by {
            assert(texts(reg@[k].strings.interval_labels@).len() == reg@[k].strings.interval_labels@.len());
        }
    }
    reg
}

proof fn lemma_combined_absent(layers: Seq<(String, LangFile)>, id: Seq<char>)
    requires
        !has_layer(layers, id),
    ensures
        combined(layers, id) == lang_file_empty(),
    decreases layers.len(),
{
    if layers.len() > 0 {
        assert(!has_layer(layers.drop_last(), id)) by {
            if has_layer(layers.drop_last(), id) {
                let w = choose|w: int| 0 <= w < layers.drop_last().len() && #[trigger] layers.drop_last()[w].0@ == id;
                assert(layers[w] == layers.drop_last()[w]);
            }
        }
        assert(layers[layers.len() - 1].0@ != id);
        lemma_combined_absent(layers.drop_last(), id);
    }
}

// ---- looking languages up --------------------------------------------------

/// The matching rule of language codes: white space around `code` is
/// ignored, and so is ASCII case.
pub open spec fn spec_code_matches(e: LangEntry, code: Seq<char>) -> bool {
    eq_ignore_case(e.id@, trim(code))
}

pub fn code_matches(entry: &LangEntry, code: &str) -> (b: bool)
    ensures
        b == spec_code_matches(*entry, code@),
{
    let v = chars_of(code);
    assert(v@.subrange(0, v@.len() as int) =~= code@);
    let (a, b) = trim_range(&v, 0, v.len());
    let idv = chars_of(entry.id.as_str());
    let r = range_eq_ignore_case(&v, a, b, &idv);
    assert(eq_ignore_case(trim(code@), entry.id@) == eq_ignore_case(entry.id@, trim(code@)));
    r
}

/// Position of the first entry that `code` names, or 0 (English) when none
/// does.
pub open spec fn spec_resolve_code(reg: Seq<LangEntry>, code: Seq<char>) -> int {
    if exists|i: int| 0 <= i < reg.len() && spec_code_matches(#[trigger] reg[i], code) {
        choose|i: int|
            0 <= i < reg.len() && spec_code_matches(#[trigger] reg[i], code) && forall|j: int|
                0 <= j < i ==> !spec_code_matches(#[trigger] reg[j], code)
    } else {
        0
    }
}

fn first_match(reg: &Vec<LangEntry>, code: &str) -> (r: Option<usize>)
    ensures
        match r {
            Some(i) => i < reg@.len() && spec_code_matches(reg@[i as int], code@) && forall|j: int|
                0 <= j < i ==> !spec_code_matches(#[trigger] reg@[j], code@),
            None => forall|j: int| 0 <= j < reg@.len() ==> !spec_code_matches(#[trigger] reg@[j], code@),
        },
{
    let mut i: usize = 0;
    while i < reg.len()
        invariant
            i <= reg@.len(),
            forall|j: int| 0 <= j < i ==> !spec_code_matches(#[trigger] reg@[j], code@),
        decreases reg@.len() - i,
    {
        if code_matches(&reg[i], code) {
            return Some(i);
        }
        i = i + 1;
    }
    None
}

/// Position in `reg` of the language that `code` names; English (0) for an
/// unknown code.
pub fn resolve_code(reg: &Vec<LangEntry>, code: &str) -> (i: usize)
    ensures
        i == spec_resolve_code(reg@, code@),
{
    match first_match(reg, code) {
        Some(i) => {
            proof {
                let k = choose|k: int|
                    0 <= k < reg@.len() && spec_code_matches(#[trigger] reg@[k], code@) && forall|j: int|
                        0 <= j < k ==> !spec_code_matches(#[trigger] reg@[j], code@);
                if k < i {
                    assert(!spec_code_matches(reg@[k], code@));
                }
                if i < k {
                    assert(!spec_code_matches(reg@[i as int], code@));
                }
            }
            i
        },
        None => 0,
    }
}

/// The entry that `code` names, by the rule of `Lang::from_code`; `None`
/// when no language matches (no fallback to English).
pub fn lookup_code<'a>(reg: &'a Vec<LangEntry>, code: &str) -> (r: Option<&'a LangEntry>)
    ensures
        match r {
            Some(e) => exists|i: int| 0 <= i < reg@.len() && reg@[i] == *e && i == spec_resolve_code(reg@, code@)
                && spec_code_matches(*e, code@),
            None => forall|j: int| 0 <= j < reg@.len() ==> !spec_code_matches(#[trigger] reg@[j], code@),
        },
{
    match first_match(reg, code) {
        Some(i) => {
            let r = resolve_code(reg, code);
            assert(r == i) by {
                let k = choose|k: int|
                    0 <= k < reg@.len() && spec_code_matches(#[trigger] reg@[k], code@) && forall|j: int|
                        0 <= j < k ==> !spec_code_matches(#[trigger] reg@[j], code@);
                if k < i {
                    assert(!spec_code_matches(reg@[k], code@));
                }
                if i < k {
                    assert(!spec_code_matches(reg@[i as int], code@));
                }
            }
            Some(&reg[i])
        },
        None => None,
    }
}

/// A registered language, as its position in the registry.
#[derive(Debug, Clone, Copy, PartialEq, Eq, Structural)]
pub struct Lang(pub usize);

impl Default for Lang {
    /// English, which is always first.
    fn default() -> (l: Self)
        ensures
            l.0 == 0,
    {
        Lang(0)
    }
}

impl Lang {
    /// The language that `s` names; English for an unknown code.
    pub fn from_code(reg: &Vec<LangEntry>, s: &str) -> (l: Self)
        ensures
            l.0 == spec_resolve_code(reg@, s@),
    {
        Lang(resolve_code(reg, s))
    }

    /// The entry of this language; English when the position is outside
    /// the registry.
    pub fn entry<'a>(self, reg: &'a Vec<LangEntry>) -> (e: &'a LangEntry)
        requires
            reg@.len() > 0,
        ensures
            *e == (if self.0 < reg@.len() {
                reg@[self.0 as int]
            } else {
                reg@[0]
            }),
    {
        if self.0 < reg.len() {
            &reg[self.0]
        } else {
            &reg[0]
        }
    }

    /// The code of this language.
    pub fn code<'a>(self, reg: &'a Vec<LangEntry>) -> (c: &'a str)
        requires
            reg@.len() > 0,
        ensures
            c@ == (if self.0 < reg@.len() {
                reg@[self.0 as int]
            } else {
                reg@[0]
            }).id@,
    {
        self.entry(reg).id.as_str()
    }
}

/// The tray strings of `lang`.
pub fn strings<'a>(reg: &'a Vec<LangEntry>, lang: Lang) -> (s: &'a UiStrings)
    requires
        reg@.len() > 0,
    ensures
        *s == (if lang.0 < reg@.len() {
            reg@[lang.0 as int]
        } else {
            reg@[0]
        }).strings,
        labels_complete(reg@) ==> s.interval_labels@.len() == 6,
{
    &lang.entry(reg).strings
}

/// The settings window strings of `lang`.
pub fn config_strings<'a>(reg: &'a Vec<LangEntry>, lang: Lang) -> (s: &'a ConfigStrings)
    requires
        reg@.len() > 0,
    ensures
        *s == (if lang.0 < reg@.len() {
            reg@[lang.0 as int]
        } else {
            reg@[0]
        }).config,
{
    &lang.entry(reg).config
}

/// The bundled Japanese file: the keys it translates, field by field;
/// the others fall back to English.
pub open spec fn is_bundled_ja(f: LangFile) -> bool {
    &&& f.display_name matches Some(n) && n@ == "日本語"@
    &&& f.gui_visible is None
    &&& f.tray.next_wallpaper matches Some(v) && v@ == "次の壁紙"@
    &&& f.tray.prev_wallpaper matches Some(v) && v@ == "前の壁紙"@
    &&& f.tray.pause matches Some(v) && v@ == "一時停止"@
    &&& f.tray.resume matches Some(v) && v@ == "再開"@
    &&& f.tray.display_mode matches Some(v) && v@ == "表示モード"@
    &&& f.tray.interval matches Some(v) && v@ == "切り替え間隔"@
    &&& f.tray.open_current matches Some(v) && v@ == "現在の壁紙を開く"@
    &&& f.tray.delete_current matches Some(v) && v@ == "ゴミ箱に移動"@
    &&& f.tray.blacklist_current matches Some(v) && v@ == "二度と表示しない"@
    &&& f.tray.copy_to_favorites matches Some(v) && v@ == "お気に入りに追加"@
    &&& f.tray.quit matches Some(v) && v@ == "終了"@
    &&& f.tray.open_settings matches Some(v) && v@ == "設定を開く"@
    &&& f.tray.images is None
    &&& f.tray.tooltip_current matches Some(v) && v@ == "現在: {}"@
    &&& f.tray.tooltip_error matches Some(v) && v@ == "エラー: {}"@
    &&& f.tray.notify_failed matches Some(v) && v@ == "壁紙の設定に失敗しました"@
    &&& f.tray.notify_warning matches Some(v) && v@ == "kabekami 警告"@
    &&& f.tray.notify_fetch_title is None
    &&& f.tray.notify_fetch_body is None
    &&& f.tray.reload_config matches Some(v) && v@ == "設定を再読み込み"@
    &&& f.tray.fetch_now is None
    &&& f.tray.interval_labels matches Some(l) && texts(l@) == seq!["10秒"@, "30秒"@, "5分"@, "30分"@, "1時間"@, "3時間"@]
    &&& f.config.dialog_select_folder is None
    &&& f.config.dialog_select_image is None
    &&& f.config.browse is None
    &&& f.config.kdialog_missing is None
    &&& f.config.save_button is None
    &&& f.config.add is None
    &&& f.config.saved matches Some(v) && v@ == "設定を保存しました"@
    &&& f.config.save_failed is None
    &&& f.config.preview_error is None
    &&& f.config.tab_sources is None
    &&& f.config.tab_online is None
    &&& f.config.tab_rotation is None
    &&& f.config.tab_display is None
    &&& f.config.tab_cache is None
    &&& f.config.tab_ui is None
    &&& f.config.sources_heading is None
    &&& f.config.recursive is None
    &&& f.config.favorites_dir is None
    &&& f.config.favorites_hint is None
    &&& f.config.directories is None
    &&& f.config.rotation_heading is None
    &&& f.config.interval_secs is None
    &&& f.config.order is None
    &&& f.config.order_random is None
    &&& f.config.order_sequential is None
    &&& f.config.change_on_start is None
    &&& f.config.prefetch is None
    &&& f.config.display_heading is None
    &&& f.config.mode_blurpad is None
    &&& f.config.mode_smart is None
    &&& f.config.mode_fill is None
    &&& f.config.mode_fit is None
    &&& f.config.mode_stretch is None
    &&& f.config.blur_sigma is None
    &&& f.config.bg_darken is None
    &&& f.config.preview_image is None
    &&& f.config.preview_button is None
    &&& f.config.cache_heading is None
    &&& f.config.cache_directory is None
    &&& f.config.max_size_mb is None
    &&& f.config.unlimited_hint is None
    &&& f.config.refresh is None
    &&& f.config.clear_cache is None
    &&& f.config.current_size_unknown is None
    &&& f.config.current_size is None
    &&& f.config.unlimited is None
    &&& f.config.online_heading is None
    &&& f.config.online_desc is None
    &&& f.config.remove is None
    &&& f.config.count is None
    &&& f.config.interval_hours is None
    &&& f.config.download_dir is None
    &&& f.config.add_provider is None
    &&& f.config.add_provider_button is None
    &&& f.config.download_dir_hint is None
    &&& f.config.api_key is None
    &&& f.config.query is None
    &&& f.config.subreddit is None
    &&& f.config.locale is None
    &&& f.config.quality is None
    &&& f.config.interval_default_hint is None
    &&& f.config.default_option is None
    &&& f.config.unknown_language is None
    &&& f.config.image_filter_label is None
    &&& f.config.ui_heading is None
    &&& f.config.language is None
    &&& f.config.warn_notify is None
    &&& f.config.notify_fetch is None
    &&& f.config.enable_blacklist is None
}

/// The built-in Japanese language file.
pub fn bundled_ja() -> (f: LangFile)
    ensures
        is_bundled_ja(f),
{
    let mut f = LangFile::new();
    f.display_name = Some(owned("日本語"));
    f.tray.next_wallpaper = Some(owned("次の壁紙"));
    f.tray.prev_wallpaper = Some(owned("前の壁紙"));
    f.tray.pause = Some(owned("一時停止"));
    f.tray.resume = Some(owned("再開"));
    f.tray.display_mode = Some(owned("表示モード"));
    f.tray.interval = Some(owned("切り替え間隔"));
    f.tray.open_current = Some(owned("現在の壁紙を開く"));
    f.tray.delete_current = Some(owned("ゴミ箱に移動"));
    f.tray.blacklist_current = Some(owned("二度と表示しない"));
    f.tray.copy_to_favorites = Some(owned("お気に入りに追加"));
    f.tray.quit = Some(owned("終了"));
    f.tray.open_settings = Some(owned("設定を開く"));
    f.tray.tooltip_current = Some(owned("現在: {}"));
    f.tray.tooltip_error = Some(owned("エラー: {}"));
    f.tray.notify_failed = Some(owned("壁紙の設定に失敗しました"));
    f.tray.notify_warning = Some(owned("kabekami 警告"));
    f.tray.reload_config = Some(owned("設定を再読み込み"));
    f.tray.interval_labels = Some(vec![owned("10秒"), owned("30秒"), owned("5分"), owned("30分"), owned("1時間"), owned("3時間")]);
    f.config.saved = Some(owned("設定を保存しました"));
    assert(texts(f.tray.interval_labels->0@) =~= seq!["10秒"@, "30秒"@, "5分"@, "30分"@, "1時間"@, "3時間"@]);
    f
}

#[verifier::rlimit(60)]
/// The registry of the built-in languages: English and Japanese. The
/// daemon builds the full one with `build_registry`, adding the language
/// files of the search directories after `bundled_ja`.
pub fn registry() -> (reg: Vec<LangEntry>)
    ensures
        reg@.len() == 2,
        reg@[0].id@ == "en"@,
        reg@[0].display_name@ == "English"@,
        reg@[0].strings.quit@ == "Quit"@,
        reg@[0].gui_visible,
        reg@[1].id@ == "ja"@,
        reg@[1].display_name@ == "日本語"@,
        reg@[1].strings.quit@ == "終了"@,
        reg@[1].strings.pause@ == "一時停止"@,
        reg@[1].config.saved@ == "設定を保存しました"@,
        reg@[1].gui_visible,
        labels_complete(reg@),
{
    let f = bundled_ja();
    let ghost g = f;
    let layers = vec![(owned("ja"), f)];
    let ghost l = layers@;
    let bu = en_strings();
    let bc = en_config_strings();
    let reg = build_registry(layers, &bu, &bc);
    proof {
        reveal_strlit("en");
        reveal_strlit("ja");
        assert(l[0].0@ == "ja"@);
        assert(l[0].1 == g);
        assert("ja"@ != "en"@) by {
            assert("ja"@[0] != "en"@[0]);
        }
        assert(!has_layer(l, "en"@)) by {
            if has_layer(l, "en"@) {
                let w = choose|w: int| 0 <= w < l.len() && #[trigger] l[w].0@ == "en"@;
                assert(w == 0);
            }
        }
        lemma_combined_absent(l, "en"@);
        assert(l.drop_last().len() == 0);
        assert(l.last() == l[0]);
        assert(combined(l.drop_last(), "ja"@) == lang_file_empty());
        assert(combined(l, "ja"@) == lang_file_over(lang_file_empty(), g));
        let k = choose|k: int| 1 <= k < reg@.len() && #[trigger] reg@[k].id@ == l[0].0@;
        assert(reg@.len() >= 2);
        if reg@.len() > 2 {
            assert(has_layer(l, reg@[1].id@));
            assert(has_layer(l, reg@[2].id@));
            let w1 = choose|w: int| 0 <= w < l.len() && #[trigger] l[w].0@ == reg@[1].id@;
            let w2 = choose|w: int| 0 <= w < l.len() && #[trigger] l[w].0@ == reg@[2].id@;
            assert(w1 == 0 && w2 == 0);
            assert(text_less(reg@[1].id@, reg@[2].id@));
            lemma_text_less_total(reg@[1].id@, reg@[1].id@);
        }
        assert(has_layer(l, reg@[1].id@));
        let w = choose|w: int| 0 <= w < l.len() && #[trigger] l[w].0@ == reg@[1].id@;
        assert(w == 0);
    }
    reg
}

// ---- laws ------------------------------------------------------------------

/// `Lang::from_code` and `lookup_code` follow one rule: when some entry
/// matches `code`, the position that `from_code` resolves to is the first
/// such entry (the one `lookup_code` returns); when none does, it is
/// English.
pub proof fn lemma_from_code_agrees_with_lookup(reg: Seq<LangEntry>, code: Seq<char>)
    ensures
        (exists|i: int| 0 <= i < reg.len() && spec_code_matches(#[trigger] reg[i], code)) ==> {
            let r = spec_resolve_code(reg, code);
            &&& 0 <= r < reg.len()
            &&& spec_code_matches(reg[r], code)
            &&& forall|j: int| 0 <= j < r ==> !spec_code_matches(#[trigger] reg[j], code)
        },
        !(exists|i: int| 0 <= i < reg.len() && spec_code_matches(#[trigger] reg[i], code)) ==> spec_resolve_code(
            reg,
            code,
        ) == 0,
{
    if exists|i: int| 0 <= i < reg.len() && spec_code_matches(#[trigger] reg[i], code) {
        let i = choose|i: int| 0 <= i < reg.len() && spec_code_matches(#[trigger] reg[i], code);
        lemma_first_match_exists(reg, code, i);
    }
}

proof fn lemma_first_match_exists(reg: Seq<LangEntry>, code: Seq<char>, i: int)
    requires
        0 <= i < reg.len(),
        spec_code_matches(reg[i], code),
    ensures
        exists|k: int|
            0 <= k < reg.len() && spec_code_matches(#[trigger] reg[k], code) && forall|j: int|
                0 <= j < k ==> !spec_code_matches(#[trigger] reg[j], code),
    decreases i,
{
    if exists|j: int| 0 <= j < i && spec_code_matches(#[trigger] reg[j], code) {
        let j = choose|j: int| 0 <= j < i && spec_code_matches(#[trigger] reg[j], code);
        lemma_first_match_exists(reg, code, j);
    } else {
        assert(spec_code_matches(reg[i], code) && forall|j: int|
            0 <= j < i ==> !spec_code_matches(#[trigger] reg[j], code));
    }
}

/// Each language's own code resolves to it, when the codes are distinct,
/// in lower case and without surrounding white space (as the codes of
/// language files are).
pub proof fn lemma_code_resolves_to_itself(reg: Seq<LangEntry>, i: int)
    requires
        0 <= i < reg.len(),
        forall|k: int| 0 <= k < reg.len() ==> lower_seq((#[trigger] reg[k]).id@) == reg[k].id@,
        forall|a: int, b: int| 0 <= a < b < reg.len() ==> reg[a].id@ != reg[b].id@,
        trim(reg[i].id@) == reg[i].id@,
    ensures
        spec_resolve_code(reg, reg[i].id@) == i,
{
    let code = reg[i].id@;
    assert(spec_code_matches(reg[i], code));
    assert forall|j: int| 0 <= j < reg.len() && spec_code_matches(#[trigger] reg[j], code) implies j == i by {
        assert(lower_seq(reg[j].id@) == lower_seq(trim(code)));
        assert(reg[j].id@ == reg[i].id@);
    }
    lemma_from_code_agrees_with_lookup(reg, code);
}
} // verus!

//! The two-language string tables of the tray and the notifications.
//!
//! The language is chosen by `KABEKAMI_LANG` (`"en"` / `"ja"`), then by
//! `[ui] language` of the configuration; English is the default.

use vstd::prelude::*;

use crate::text::{chars_of, lower_seq, range_eq_ignore_case, trim, trim_range};

verus! {

/// Supported languages; English by default.
#[derive(Debug, Clone, Copy, PartialEq, Eq, Structural)]
pub enum Lang {
    Ja,
    En,
}

impl Default for Lang {
    fn default() -> (l: Self)
        ensures
            l == Lang::En,
    {
        Lang::En
    }
}

impl Lang {
    /// `Ja` for `"ja"` in any case and with surrounding white space;
    /// anything else is `En`.
    pub fn from_str(s: &str) -> (l: Self)
        ensures
            l == (if lower_seq(trim(s@)) == "ja"@ {
                Lang::Ja
            } else {
                Lang::En
            }),
    {
        let v = chars_of(s);
        assert(v@.subrange(0, v@.len() as int) =~= s@);
        let (a, b) = trim_range(&v, 0, v.len());
        let ja = chars_of("ja");
        proof {
            reveal_strlit("ja");
            assert(lower_seq("ja"@) =~= "ja"@);
        }
        if range_eq_ignore_case(&v, a, b, &ja) {
            Lang::Ja
        } else {
            Lang::En
        }
    }
}

/// The strings of the tray menu and of the notifications.
/// `tooltip_current` and `tooltip_error` hold one `{}`.
#[derive(Debug, Clone)]
pub struct UiStrings {
    pub next_wallpaper: &'static str,
    pub prev_wallpaper: &'static str,
    pub pause: &'static str,
    pub resume: &'static str,
    /// Heading of the display mode submenu.
    pub display_mode: &'static str,
    /// Heading of the interval submenu.
    pub interval: &'static str,
    pub open_current: &'static str,
    pub quit: &'static str,
    /// `{}` is the file name.
    pub tooltip_current: &'static str,
    /// `{}` is the error.
    pub tooltip_error: &'static str,
    /// Summary of the notification when a wallpaper cannot be applied.
    pub notify_failed: &'static str,
    /// Summary of a warning notification.
    pub notify_warning: &'static str,
    /// Labels of the interval presets of the tray, in the same order.
    pub interval_labels: Vec<&'static str>,
    pub reload_config: &'static str,
}

/// The Japanese strings, field by field.
pub open spec fn is_ja_table(t: UiStrings) -> bool {
    &&& t.next_wallpaper@ == "次の壁紙"@
    &&& t.prev_wallpaper@ == "前の壁紙"@
    &&& t.pause@ == "一時停止"@
    &&& t.resume@ == "再開"@
    &&& t.display_mode@ == "表示モード"@
    &&& t.interval@ == "切り替え間隔"@
    &&& t.open_current@ == "現在の壁紙を開く"@
    &&& t.quit@ == "終了"@
    &&& t.tooltip_current@ == "現在: {}"@
    &&& t.tooltip_error@ == "エラー: {}"@
    &&& t.notify_failed@ == "壁紙の設定に失敗しました"@
    &&& t.notify_warning@ == "kabekami 警告"@
    &&& t.reload_config@ == "設定を再読み込み"@
    &&& t.interval_labels@.len() == 6
    &&& t.interval_labels@[0]@ == "10秒"@
    &&& t.interval_labels@[1]@ == "30秒"@
    &&& t.interval_labels@[2]@ == "5分"@
    &&& t.interval_labels@[3]@ == "30分"@
    &&& t.interval_labels@[4]@ == "1時間"@
    &&& t.interval_labels@[5]@ == "3時間"@
}

/// The Japanese table.
pub fn ja() -> (t: UiStrings)
    ensures
        is_ja_table(t),
{
    UiStrings {
        next_wallpaper: "次の壁紙",
        prev_wallpaper: "前の壁紙",
        pause: "一時停止",
        resume: "再開",
        display_mode: "表示モード",
        interval: "切り替え間隔",
        open_current: "現在の壁紙を開く",
        quit: "終了",
        tooltip_current: "現在: {}",
        tooltip_error: "エラー: {}",
        notify_failed: "壁紙の設定に失敗しました",
        notify_warning: "kabekami 警告",
        interval_labels: vec!["10秒", "30秒", "5分", "30分", "1時間", "3時間"],
        reload_config: "設定を再読み込み",
    }
}

/// The English strings, field by field.
pub open spec fn is_en_table(t: UiStrings) -> bool {
    &&& t.next_wallpaper@ == "Next Wallpaper"@
    &&& t.prev_wallpaper@ == "Previous Wallpaper"@
    &&& t.pause@ == "Pause"@
    &&& t.resume@ == "Resume"@
    &&& t.display_mode@ == "Display Mode"@
    &&& t.interval@ == "Rotation Interval"@
    &&& t.open_current@ == "Open Current Wallpaper"@
    &&& t.quit@ == "Quit"@
    &&& t.tooltip_current@ == "Current: {}"@
    &&& t.tooltip_error@ == "Error: {}"@
    &&& t.notify_failed@ == "Wallpaper apply failed"@
    &&& t.notify_warning@ == "kabekami Warning"@
    &&& t.reload_config@ == "Reload Config"@
    &&& t.interval_labels@.len() == 6
    &&& t.interval_labels@[0]@ == "10s"@
    &&& t.interval_labels@[1]@ == "30s"@
    &&& t.interval_labels@[2]@ == "5m"@
    &&& t.interval_labels@[3]@ == "30m"@
    &&& t.interval_labels@[4]@ == "1h"@
    &&& t.interval_labels@[5]@ == "3h"@
}

/// The English table.
pub fn en() -> (t: UiStrings)
    ensures
        is_en_table(t),
{
    UiStrings {
        next_wallpaper: "Next Wallpaper",
        prev_wallpaper: "Previous Wallpaper",
        pause: "Pause",
        resume: "Resume",
        display_mode: "Display Mode",
        interval: "Rotation Interval",
        open_current: "Open Current Wallpaper",
        quit: "Quit",
        tooltip_current: "Current: {}",
        tooltip_error: "Error: {}",
        notify_failed: "Wallpaper apply failed",
        notify_warning: "kabekami Warning",
        interval_labels: vec!["10s", "30s", "5m", "30m", "1h", "3h"],
        reload_config: "Reload Config",
    }
}

/// The table of `lang`.
pub fn strings(lang: Lang) -> (t: UiStrings)
    ensures
        match lang {
            Lang::Ja => is_ja_table(t),
            Lang::En => is_en_table(t),
        },
{
    match lang {
        Lang::Ja => ja(),
        Lang::En => en(),
    }
}

} // verus!

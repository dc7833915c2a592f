//! The tray icon: the commands it sends to the daemon, its tooltip and
//! its context menu, as values. The daemon renders them with the
//! StatusNotifierItem protocol and sends the command of an activated item
//! over its channel.

use vstd::prelude::*;

use crate::config::DisplayMode;
use crate::i18n::{texts, UiStrings};
use crate::screen::Monitor;
use crate::text::{chars_of, dec, decimal, owned, push_char, push_str, string_of};

verus! {

/// Commands for the daemon's main loop.
#[derive(Debug, Clone)]
pub enum TrayCmd {
    Next,
    Prev,
    TogglePause,
    SetMode(DisplayMode),
    /// Interval in seconds.
    SetInterval(u64),
    /// Open the current wallpaper file.
    OpenCurrent,
    /// Move the current wallpaper to the trash.
    DeleteCurrent,
    /// Never show the current wallpaper again.
    BlacklistCurrent,
    CopyToFavorites,
    ReloadConfig,
    OpenSettings,
    /// Fetch the online sources now, whatever their interval.
    FetchNow,
    Quit,
    /// Plasma restarted: apply the wallpaper again.
    PlasmaRestarted,
    /// The monitors changed.
    ScreensChanged(Vec<Monitor>),
}

/// The interval presets of the tray, in seconds.
pub open spec fn presets() -> Seq<u64> {
    seq![10, 30, 300, 1800, 3600, 10800]
}

pub fn interval_presets() -> (v: Vec<u64>)
    ensures
        v@ == presets(),
{
    let v = vec![10, 30, 300, 1800, 3600, 10800];
    assert(v@ =~= presets());
    v
}

/// The display modes of the tray, in menu order.
pub open spec fn menu_modes() -> Seq<DisplayMode> {
    seq![DisplayMode::Fill, DisplayMode::Fit, DisplayMode::Stretch, DisplayMode::BlurPad, DisplayMode::Smart]
}

/// The selected option of the display mode group: the position of `mode`.
pub fn mode_selected(mode: DisplayMode) -> (i: usize)
    ensures
        i < 5,
        menu_modes()[i as int] == mode,
{
    match mode {
        DisplayMode::Fill => 0,
        DisplayMode::Fit => 1,
        DisplayMode::Stretch => 2,
        DisplayMode::BlurPad => 3,
        DisplayMode::Smart => 4,
    }
}

/// The mode of option `idx` of the display mode group.
pub fn mode_at(idx: usize) -> (m: DisplayMode)
    requires
        idx < 5,
    ensures
        m == menu_modes()[idx as int],
{
    if idx == 0 {
        DisplayMode::Fill
    } else if idx == 1 {
        DisplayMode::Fit
    } else if idx == 2 {
        DisplayMode::Stretch
    } else if idx == 3 {
        DisplayMode::BlurPad
    } else {
        DisplayMode::Smart
    }
}

/// The selected option of the interval group: the position of `secs`
/// among the presets, or `usize::MAX` (none selected) for another value.
pub fn interval_selected(secs: u64) -> (i: usize)
    ensures
        i < 6 ==> presets()[i as int] == secs && forall|j: int| 0 <= j < i ==> presets()[j] != secs,
        i >= 6 ==> i == usize::MAX && forall|j: int| 0 <= j < 6 ==> presets()[j] != secs,
{
    let p = interval_presets();
    let mut i: usize = 0;
    while i < 6
        invariant
            i <= 6,
            p@ == presets(),
            forall|j: int| 0 <= j < i ==> presets()[j] != secs,
        decreases 6 - i,
    {
        if p[i] == secs {
            return i;
        }
        i = i + 1;
    }
    usize::MAX
}

/// What selecting option `idx` of the display mode group sends.
pub fn select_mode(idx: usize) -> (c: TrayCmd)
    requires
        idx < 5,
    ensures
        c matches TrayCmd::SetMode(m) && m == menu_modes()[idx as int],
{
    TrayCmd::SetMode(mode_at(idx))
}

/// What selecting option `idx` of the interval group sends.
pub fn select_interval(idx: usize) -> (c: TrayCmd)
    requires
        idx < 6,
    ensures
        c matches TrayCmd::SetInterval(s) && s == presets()[idx as int],
{
    let p = interval_presets();
    TrayCmd::SetInterval(p[idx])
}

/// What the tray shows; the daemon updates it.
#[derive(Debug, Clone)]
pub struct TrayState {
    pub paused: bool,
    pub mode: DisplayMode,
    pub interval_secs: u64,
    /// File name of the current wallpaper.
    pub current_name: String,
    /// The last error; `None` while all is well.
    pub last_error: Option<String>,
    /// Number of source images.
    pub image_count: usize,
    /// A favourites directory is configured.
    pub has_favorites_dir: bool,
    /// The blacklist is enabled.
    pub blacklist_enabled: bool,
}

/// The icon: an error icon while there is an error.
pub fn icon_name(st: &TrayState) -> (n: &'static str)
    ensures
        n@ == (if st.last_error is Some {
            "dialog-error"@
        } else {
            "preferences-desktop-wallpaper"@
        }),
{
    if st.last_error.is_some() {
        "dialog-error"
    } else {
        "preferences-desktop-wallpaper"
    }
}

/// Index of the first `{}` in `s`, or -1.
pub open spec fn first_slot(s: Seq<char>) -> int
    decreases s.len(),
{
    if s.len() < 2 {
        -1
    } else if s[0] == '{' && s[1] == '}' {
        0
    } else {
        let r = first_slot(s.drop_first());
        if r < 0 {
            -1
        } else {
            r + 1
        }
    }
}

/// `str::replacen(s, "{}", with, 1)`.
pub open spec fn fill_slot(s: Seq<char>, with: Seq<char>) -> Seq<char> {
    let i = first_slot(s);
    if i < 0 {
        s
    } else {
        s.take(i) + with + s.skip(i + 2)
    }
}

pub open spec fn slot_at(s: Seq<char>, j: int) -> bool {
    0 <= j && j + 1 < s.len() && s[j] == '{' && s[j + 1] == '}'
}

proof fn lemma_first_slot(s: Seq<char>, i: int)
    requires
        0 <= i <= s.len(),
        forall|j: int| 0 <= j < i ==> !#[trigger] slot_at(s, j),
        i + 1 < s.len() ==> slot_at(s, i),
        i + 1 >= s.len() ==> forall|j: int| !#[trigger] slot_at(s, j),
    ensures
        first_slot(s) == (if i + 1 < s.len() {
            i
        } else {
            -1
        }),
    decreases s.len(),
{
    if s.len() < 2 {
    } else if s[0] == '{' && s[1] == '}' {
        assert(slot_at(s, 0));
    } else {
        assert(!slot_at(s, 0));
        let t = s.drop_first();
        assert forall|j: int| slot_at(t, j) == slot_at(s, j + 1) by {
            if 0 <= j && j + 1 < t.len() {
                assert(t[j] == s[j + 1] && t[j + 1] == s[j + 2]);
            }
        }
        if i > 0 {
            assert forall|j: int| 0 <= j < i - 1 implies !#[trigger] slot_at(t, j) by {
                assert(!slot_at(s, j + 1));
            }
            if i + 1 >= s.len() {
                assert forall|j: int| !#[trigger] slot_at(t, j) by {
                    assert(!slot_at(s, j + 1));
                }
            } else {
                assert(slot_at(s, i));
            }
            lemma_first_slot(t, i - 1);
        } else {
            assert(i + 1 >= s.len());
        }
    }
}

/// Replaces the first `{}` of `s` by `with`.
pub fn replace_slot(s: &str, with: &str) -> (r: String)
    ensures
        r@ == fill_slot(s@, with@),
{
    let v = chars_of(s);
    let n = v.len();
    let mut i: usize = 0;
    while n - i > 1 && !(v[i] == '{' && v[i + 1] == '}')
        invariant
            i <= n == v@.len(),
            v@ == s@,
            forall|j: int| 0 <= j < i ==> !#[trigger] slot_at(s@, j),
        decreases n - i,
    {
        i = i + 1;
    }
    proof {
        if i + 1 >= n {
            assert forall|j: int| !#[trigger] slot_at(s@, j) by {
                if 0 <= j && j + 1 < n && j >= i {
                    assert(false);
                }
            }
        }
        lemma_first_slot(s@, i as int);
    }
    if n - i <= 1 {
        return owned(s);
    }
    let mut r = string_of(crate::text::slice_of(&v, 0, i).as_slice());
    push_str(&mut r, with);
    let tail = string_of(crate::text::slice_of(&v, i + 2, n).as_slice());
    push_str(&mut r, tail.as_str());
    assert(s@.skip(i + 2) =~= v@.subrange(i + 2, n as int));
    assert(s@.take(i as int) =~= v@.subrange(0, i as int));
    r
}

/// The tooltip: the error when there is one; nothing before the first
/// wallpaper; else the current file name, followed by the number of
/// images when there are any.
pub open spec fn spec_tool_tip(st: TrayState, t: UiStrings) -> Seq<char> {
    match st.last_error {
        Some(e) => fill_slot(t.tooltip_error@, e@),
        None => if st.current_name@.len() == 0 {
            Seq::empty()
        } else if st.image_count > 0 {
            fill_slot(t.tooltip_current@, st.current_name@) + " ("@ + dec(st.image_count as nat) + " "@
                + t.images@ + ")"@
        } else {
            fill_slot(t.tooltip_current@, st.current_name@)
        },
    }
}

pub fn tool_tip(st: &TrayState, t: &UiStrings) -> (d: String)
    ensures
        d@ == spec_tool_tip(*st, *t),
{
    match &st.last_error {
        Some(e) => replace_slot(t.tooltip_error.as_str(), e.as_str()),
        None => {
            if st.current_name.as_str().unicode_len() == 0 {
                String::new()
            } else if st.image_count > 0 {
                let mut d = replace_slot(t.tooltip_current.as_str(), st.current_name.as_str());
                let ghost d0 = d@;
                push_str(&mut d, " (");
                let c = decimal(st.image_count as u64);
                push_str(&mut d, c.as_str());
                push_char(&mut d, ' ');
                push_str(&mut d, t.images.as_str());
                push_char(&mut d, ')');
                proof {
                    reveal_strlit(" ");
                    reveal_strlit(")");
                    assert(d@ =~= d0 + " ("@ + dec(st.image_count as nat) + " "@ + t.images@ + ")"@);
                }
                d
            } else {
                replace_slot(t.tooltip_current.as_str(), st.current_name.as_str())
            }
        },
    }
}

/// Which radio group a menu entry is.
#[derive(Debug, Clone, Copy, PartialEq, Eq, Structural)]
pub enum RadioGroup {
    /// Options are `menu_modes()`; selecting one sends `select_mode`.
    Mode,
    /// Options are the presets; selecting one sends `select_interval`.
    Interval,
}

/// One entry of the context menu.
#[derive(Debug, Clone)]
pub enum MenuEntry {
    /// An item that sends `cmd` when activated.
    Item { label: String, icon: &'static str, enabled: bool, cmd: TrayCmd },
    /// The pause / resume item: it flips the shown state and sends
    /// `TogglePause`.
    Toggle { label: String, icon: &'static str },
    /// A submenu with one radio group.
    Radio { label: String, group: RadioGroup, selected: usize, options: Vec<String> },
    Separator,
}

pub open spec fn is_item(e: MenuEntry, label: Seq<char>, icon: Seq<char>, enabled: bool, cmd: TrayCmd) -> bool {
    e matches MenuEntry::Item { label: l, icon: i, enabled: en, cmd: c } && l@ == label && i@ == icon && en
        == enabled && c == cmd
}

fn item(label: &String, icon: &'static str, enabled: bool, cmd: TrayCmd) -> (e: MenuEntry)
    ensures
        is_item(e, label@, icon@, enabled, cmd),
{
    MenuEntry::Item { label: label.clone(), icon, enabled, cmd }
}

fn mode_labels() -> (v: Vec<String>)
    ensures
        texts(v@) == seq!["Fill"@, "Fit"@, "Stretch"@, "BlurPad"@, "Smart"@],
{
    let v = vec![owned("Fill"), owned("Fit"), owned("Stretch"), owned("BlurPad"), owned("Smart")];
    assert(texts(v@) =~= seq!["Fill"@, "Fit"@, "Stretch"@, "BlurPad"@, "Smart"@]);
    v
}

/// The context menu: next and previous; pause or resume; the display
/// mode and interval groups; the items on the current wallpaper (enabled
/// when there is one, copying also needing a favourites directory and
/// blacklisting an enabled blacklist); reload, settings, fetch; quit.
pub fn menu(st: &TrayState, t: &UiStrings) -> (m: Vec<MenuEntry>)
    ensures
        m@.len() == 17,
        is_item(m@[0], t.next_wallpaper@, ""@, true, TrayCmd::Next),
        is_item(m@[1], t.prev_wallpaper@, ""@, true, TrayCmd::Prev),
        m@[2] is Separator,
        m@[3] matches MenuEntry::Toggle { label, icon } && label@ == (if st.paused {
            t.resume@
        } else {
            t.pause@
        }) && icon@ == (if st.paused {
            "media-playback-start"@
        } else {
            "media-playback-pause"@
        }),
        m@[4] is Separator,
        m@[5] matches MenuEntry::Radio { label, group, selected, options } && label@ == t.display_mode@
            && group == RadioGroup::Mode && selected < 5 && menu_modes()[selected as int] == st.mode
            && texts(options@) == seq!["Fill"@, "Fit"@, "Stretch"@, "BlurPad"@, "Smart"@],
        m@[6] matches MenuEntry::Radio { label, group, selected, options } && label@ == t.interval@
            && group == RadioGroup::Interval && (selected < 6 ==> presets()[selected as int]
            == st.interval_secs) && (selected >= 6 ==> selected == usize::MAX && forall|j: int| 0 <= j < 6
            ==> presets()[j] != st.interval_secs) && texts(options@) == texts(t.interval_labels@),
        m@[7] is Separator,
        is_item(m@[8], t.open_current@, "document-open"@, st.current_name@.len() > 0, TrayCmd::OpenCurrent),
        is_item(
            m@[9],
            t.copy_to_favorites@,
            "emblem-favorite"@,
            st.current_name@.len() > 0 && st.has_favorites_dir,
            TrayCmd::CopyToFavorites,
        ),
        is_item(m@[10], t.delete_current@, "edit-delete"@, st.current_name@.len() > 0, TrayCmd::DeleteCurrent),
        is_item(
            m@[11],
            t.blacklist_current@,
            "dialog-cancel"@,
            st.current_name@.len() > 0 && st.blacklist_enabled,
            TrayCmd::BlacklistCurrent,
        ),
        is_item(m@[12], t.reload_config@, "view-refresh"@, true, TrayCmd::ReloadConfig),
        is_item(m@[13], t.open_settings@, "preferences-system"@, true, TrayCmd::OpenSettings),
        is_item(m@[14], t.fetch_now@, "download"@, true, TrayCmd::FetchNow),
        m@[15] is Separator,
        is_item(m@[16], t.quit@, "application-exit"@, true, TrayCmd::Quit),
{
    let has_current = st.current_name.as_str().unicode_len() > 0;
    let mut m: Vec<MenuEntry> = Vec::new();
    m.push(item(&t.next_wallpaper, "", true, TrayCmd::Next));
    m.push(item(&t.prev_wallpaper, "", true, TrayCmd::Prev));
    m.push(MenuEntry::Separator);
    m.push(
        MenuEntry::Toggle {
            label: if st.paused {
                t.resume.clone()
            } else {
                t.pause.clone()
            },
            icon: if st.paused {
                "media-playback-start"
            } else {
                "media-playback-pause"
            },
        },
    );
    m.push(MenuEntry::Separator);
    m.push(
        MenuEntry::Radio {
            label: t.display_mode.clone(),
            group: RadioGroup::Mode,
            selected: mode_selected(st.mode),
            options: mode_labels(),
        },
    );
    m.push(
        MenuEntry::Radio {
            label: t.interval.clone(),
            group: RadioGroup::Interval,
            selected: interval_selected(st.interval_secs),
            options: crate::text::clone_strings(&t.interval_labels),
        },
    );
    m.push(MenuEntry::Separator);
    m.push(item(&t.open_current, "document-open", has_current, TrayCmd::OpenCurrent));
    m.push(item(&t.copy_to_favorites, "emblem-favorite", has_current && st.has_favorites_dir, TrayCmd::CopyToFavorites));
    m.push(item(&t.delete_current, "edit-delete", has_current, TrayCmd::DeleteCurrent));
    m.push(item(&t.blacklist_current, "dialog-cancel", has_current && st.blacklist_enabled, TrayCmd::BlacklistCurrent));
    m.push(item(&t.reload_config, "view-refresh", true, TrayCmd::ReloadConfig));
    m.push(item(&t.open_settings, "preferences-system", true, TrayCmd::OpenSettings));
    m.push(item(&t.fetch_now, "download", true, TrayCmd::FetchNow));
    m.push(MenuEntry::Separator);
    m.push(item(&t.quit, "application-exit", true, TrayCmd::Quit));
    m
}

} // verus!

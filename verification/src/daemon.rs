//! Decisions of the daemon's main loop: command-line handling, screens,
//! throttling of commands, the source directories and the effect of
//! watcher events.

use vstd::prelude::*;

use crate::blacklist::Blacklist;
use crate::config::{spec_resolved_download_dir, Config, UserDirs};
use crate::i18n::{spec_resolve_code, Lang, LangEntry};
use crate::scanner::{components, path_components};
use crate::scheduler::Scheduler;
use crate::screen::Monitor;
use crate::text::{
    chars_of, parse_u32, parse_u32_range, range_texts, split_by, trim, trim_range, CharClass,
    class_fn, find_char, find_first,
};
use crate::tray::TrayCmd;
use crate::watcher::WatchEvent;

verus! {

/// Screen size used when none can be detected.
pub const FALLBACK_SCREEN_W: u32 = 1920;

pub const FALLBACK_SCREEN_H: u32 = 1080;

/// One-shot commands that the command line sends to a running daemon.
#[derive(Debug, Clone, Copy, PartialEq, Eq, Structural)]
pub enum CliCmd {
    Next,
    Prev,
    TogglePause,
    ReloadConfig,
    TrashCurrent,
    BlacklistCurrent,
    CopyToFavorites,
    Quit,
}

/// What the command line asks for.
#[derive(Debug, Clone, Copy, PartialEq, Eq, Structural)]
pub enum CliRequest {
    /// No argument: run the daemon.
    RunDaemon,
    /// Send a command to the running daemon.
    Send(CliCmd),
    /// `--help` / `-h`: print `usage()` and exit successfully.
    Help,
}

/// The first argument is not an option of the program.
#[derive(Debug, Clone)]
pub struct UnknownOption {
    pub option: String,
}

pub open spec fn cli_option(a: Seq<char>) -> Option<CliRequest> {
    if a == "--next"@ {
        Some(CliRequest::Send(CliCmd::Next))
    } else if a == "--prev"@ {
        Some(CliRequest::Send(CliCmd::Prev))
    } else if a == "--toggle-pause"@ {
        Some(CliRequest::Send(CliCmd::TogglePause))
    } else if a == "--reload-config"@ {
        Some(CliRequest::Send(CliCmd::ReloadConfig))
    } else if a == "--trash-current"@ {
        Some(CliRequest::Send(CliCmd::TrashCurrent))
    } else if a == "--blacklist-current"@ {
        Some(CliRequest::Send(CliCmd::BlacklistCurrent))
    } else if a == "--copy-to-favorites"@ {
        Some(CliRequest::Send(CliCmd::CopyToFavorites))
    } else if a == "--quit"@ {
        Some(CliRequest::Send(CliCmd::Quit))
    } else if a == "--help"@ || a == "-h"@ {
        Some(CliRequest::Help)
    } else {
        None
    }
}

/// Reads the arguments (without the program name). Only the first one
/// counts.
pub fn parse_cli(args: &Vec<String>) -> (r: Result<CliRequest, UnknownOption>)
    ensures
        args@.len() == 0 ==> r == Ok::<CliRequest, UnknownOption>(CliRequest::RunDaemon),
        args@.len() > 0 ==> match cli_option(args@[0]@) {
            Some(q) => r == Ok::<CliRequest, UnknownOption>(q),
            None => r matches Err(e) && e.option@ == args@[0]@,
        },
{
    if args.len() == 0 {
        return Ok(CliRequest::RunDaemon);
    }
    let a = args[0].as_str();
    let eq = |p: &str| -> (b: bool)
        ensures
            b == (a@ == p@),
        { crate::text::str_eq(a, p) };
    if eq("--next") {
        Ok(CliRequest::Send(CliCmd::Next))
    } else if eq("--prev") {
        Ok(CliRequest::Send(CliCmd::Prev))
    } else if eq("--toggle-pause") {
        Ok(CliRequest::Send(CliCmd::TogglePause))
    } else if eq("--reload-config") {
        Ok(CliRequest::Send(CliCmd::ReloadConfig))
    } else if eq("--trash-current") {
        Ok(CliRequest::Send(CliCmd::TrashCurrent))
    } else if eq("--blacklist-current") {
        Ok(CliRequest::Send(CliCmd::BlacklistCurrent))
    } else if eq("--copy-to-favorites") {
        Ok(CliRequest::Send(CliCmd::CopyToFavorites))
    } else if eq("--quit") {
        Ok(CliRequest::Send(CliCmd::Quit))
    } else if eq("--help") || eq("-h") {
        Ok(CliRequest::Help)
    } else {
        Err(UnknownOption { option: args[0].clone() })
    }
}

/// The text of `--help`.
pub fn usage() -> (s: &'static str)
    ensures
        s@ == "kabekami — KDE Plasma wallpaper rotation daemon\n\nUSAGE:\n  kabekami                      start the daemon\n  kabekami --next               switch to next wallpaper\n  kabekami --prev               switch to previous wallpaper\n  kabekami --toggle-pause       pause / resume rotation\n  kabekami --reload-config      reload the configuration\n  kabekami --trash-current      move current wallpaper to trash\n  kabekami --blacklist-current  never show current wallpaper again\n  kabekami --copy-to-favorites  copy current wallpaper to favorites folder\n  kabekami --quit               quit the daemon\n"@,
{
    "kabekami — KDE Plasma wallpaper rotation daemon\n\nUSAGE:\n  kabekami                      start the daemon\n  kabekami --next               switch to next wallpaper\n  kabekami --prev               switch to previous wallpaper\n  kabekami --toggle-pause       pause / resume rotation\n  kabekami --reload-config      reload the configuration\n  kabekami --trash-current      move current wallpaper to trash\n  kabekami --blacklist-current  never show current wallpaper again\n  kabekami --copy-to-favorites  copy current wallpaper to favorites folder\n  kabekami --quit               quit the daemon\n"
}

/// The D-Bus name and object of the daemon's interface.
pub fn bus_name() -> (s: &'static str)
    ensures
        s@ == "org.kabekami.Daemon"@,
{
    "org.kabekami.Daemon"
}

pub fn object_path() -> (s: &'static str)
    ensures
        s@ == "/org/kabekami/Daemon"@,
{
    "/org/kabekami/Daemon"
}

/// The D-Bus method that carries `cmd` to the daemon.
pub fn daemon_method(cmd: CliCmd) -> (m: &'static str)
    ensures
        m@ == (match cmd {
            CliCmd::Next => "Next"@,
            CliCmd::Prev => "Prev"@,
            CliCmd::TogglePause => "TogglePause"@,
            CliCmd::ReloadConfig => "ReloadConfig"@,
            CliCmd::TrashCurrent => "TrashCurrent"@,
            CliCmd::BlacklistCurrent => "BlacklistCurrent"@,
            CliCmd::CopyToFavorites => "CopyToFavorites"@,
            CliCmd::Quit => "Quit"@,
        }),
{
    match cmd {
        CliCmd::Next => "Next",
        CliCmd::Prev => "Prev",
        CliCmd::TogglePause => "TogglePause",
        CliCmd::ReloadConfig => "ReloadConfig",
        CliCmd::TrashCurrent => "TrashCurrent",
        CliCmd::BlacklistCurrent => "BlacklistCurrent",
        CliCmd::CopyToFavorites => "CopyToFavorites",
        CliCmd::Quit => "Quit",
    }
}

/// The interface language: `KABEKAMI_LANG` when it is set (trimmed),
/// else `[ui] language` when it is not empty, else English.
pub fn resolve_lang(reg: &Vec<LangEntry>, env_lang: Option<&str>, ui_language: &str) -> (l: Lang)
    ensures
        l.0 == (match env_lang {
            Some(v) => spec_resolve_code(reg@, trim(v@)),
            None => if ui_language@.len() > 0 {
                spec_resolve_code(reg@, ui_language@)
            } else {
                0int
            },
        }),
{
    match env_lang {
        Some(v) => {
            let t = trimmed(v);
            Lang::from_code(reg, t.as_str())
        },
        None => {
            if ui_language.unicode_len() > 0 {
                Lang::from_code(reg, ui_language)
            } else {
                Lang::default()
            }
        },
    }
}

fn trimmed(s: &str) -> (r: String)
    ensures
        r@ == trim(s@),
{
    let v = chars_of(s);
    assert(v@.subrange(0, v@.len() as int) =~= s@);
    let (a, b) = trim_range(&v, 0, v.len());
    crate::text::string_of(crate::text::slice_of(&v, a, b).as_slice())
}

/// `KABEKAMI_SCREEN=WxH`: both sides, trimmed, read as positive `u32`s.
pub open spec fn spec_screen_from_env(v: Seq<char>) -> Option<(u32, u32)> {
    let e = find_first(v, class_fn(CharClass::LowerX));
    if e < v.len() {
        match (parse_u32(trim(v.take(e))), parse_u32(trim(v.skip(e + 1)))) {
            (Some(w), Some(h)) => if w > 0 && h > 0 {
                Some((w, h))
            } else {
                None
            },
            _ => None,
        }
    } else {
        None
    }
}

/// The screen size that `KABEKAMI_SCREEN` gives, if it is valid.
pub fn screen_from_env(val: &str) -> (r: Option<(u32, u32)>)
    ensures
        r == spec_screen_from_env(val@),
{
    let v = chars_of(val);
    let n = v.len();
    assert(v@.subrange(0, n as int) =~= val@);
    let e = find_char(&v, 0, n, CharClass::LowerX);
    if e == n {
        return None;
    }
    let (a1, b1) = trim_range(&v, 0, e);
    let (a2, b2) = trim_range(&v, e + 1, n);
    assert(val@.take(e as int) =~= v@.subrange(0, e as int));
    assert(val@.skip(e + 1) =~= v@.subrange(e + 1, n as int));
    match (parse_u32_range(&v, a1, b1), parse_u32_range(&v, a2, b2)) {
        (Some(w), Some(h)) => {
            if w > 0 && h > 0 {
                Some((w, h))
            } else {
                None
            }
        },
        _ => None,
    }
}

/// Seconds to wait before detection attempt `attempt` (1 to 4): none
/// before the first, then 1, 2 and 4.
pub fn detection_delay(attempt: u32) -> (s: u64)
    requires
        1 <= attempt <= 4,
    ensures
        s == (if attempt == 1 {
            0u64
        } else if attempt == 2 {
            1u64
        } else if attempt == 3 {
            2u64
        } else {
            4u64
        }),
{
    if attempt == 1 {
        0
    } else if attempt == 2 {
        1
    } else if attempt == 3 {
        2
    } else {
        4
    }
}

/// The monitors when detection gives none: one fallback screen.
pub fn fallback_screens() -> (v: Vec<Monitor>)
    ensures
        v@.len() == 1,
        v@[0].width == FALLBACK_SCREEN_W,
        v@[0].height == FALLBACK_SCREEN_H,
        v@[0].name@ == "fallback"@,
{
    vec![Monitor { name: crate::text::owned("fallback"), width: FALLBACK_SCREEN_W, height: FALLBACK_SCREEN_H }]
}

/// The single monitor that `KABEKAMI_SCREEN` describes.
pub fn env_screen(w: u32, h: u32) -> (v: Vec<Monitor>)
    ensures
        v@.len() == 1,
        v@[0].width == w,
        v@[0].height == h,
        v@[0].name@ == "env"@,
{
    vec![Monitor { name: crate::text::owned("env"), width: w, height: h }]
}

/// The directories to scan and watch: the configured ones, then the
/// download directories of the enabled online sources.
pub fn collect_source_dirs(config: &Config, d: &UserDirs) -> (r: Vec<String>)
    ensures
        r@.map_values(|s: String| s@) == config.sources.directories@.map_values(|s: String| s@) + enabled_download_dirs(
            config.online_sources@,
            *d,
        ),
{
    let mut r = crate::text::clone_strings(&config.sources.directories);
    let ghost base = r@.map_values(|s: String| s@);
    let n = config.online_sources.len();
    let mut i: usize = 0;
    assert(config.online_sources@.take(0) =~= Seq::<crate::config::OnlineSourceConfig>::empty());
    assert(base + Seq::<Seq<char>>::empty() =~= base);
    while i < n
        invariant
            i <= n == config.online_sources@.len(),
            base == config.sources.directories@.map_values(|s: String| s@),
            r@.map_values(|s: String| s@) == base + enabled_download_dirs(config.online_sources@.take(i as int), *d),
        decreases n - i,
    {
        let oc = &config.online_sources[i];
        let ghost before = r@.map_values(|s: String| s@);
        assert(config.online_sources@.take(i + 1).drop_last() =~= config.online_sources@.take(i as int));
        if oc.enabled {
            r.push(oc.resolved_download_dir(d));
            assert(r@.map_values(|s: String| s@) =~= before.push(spec_resolved_download_dir(*oc, *d)));
        }
        i = i + 1;
    }
    assert(config.online_sources@.take(n as int) =~= config.online_sources@);
    r
}

pub open spec fn enabled_download_dirs(srcs: Seq<crate::config::OnlineSourceConfig>, d: UserDirs) -> Seq<Seq<char>>
    decreases srcs.len(),
{
    if srcs.len() == 0 {
        Seq::empty()
    } else if srcs.last().enabled {
        enabled_download_dirs(srcs.drop_last(), d).push(spec_resolved_download_dir(srcs.last(), d))
    } else {
        enabled_download_dirs(srcs.drop_last(), d)
    }
}

/// The size of the first (primary) monitor; the fallback without one.
pub fn primary_size(screens: &Vec<Monitor>) -> (s: (u32, u32))
    ensures
        s == (if screens@.len() > 0 {
            (screens@[0].width, screens@[0].height)
        } else {
            (FALLBACK_SCREEN_W, FALLBACK_SCREEN_H)
        }),
{
    if screens.len() > 0 {
        (screens[0].width, screens[0].height)
    } else {
        (FALLBACK_SCREEN_W, FALLBACK_SCREEN_H)
    }
}

/// The sizes of `ms`, each once, in order of first appearance.
pub open spec fn first_sizes(ms: Seq<Monitor>) -> Seq<(u32, u32)>
    decreases ms.len(),
{
    if ms.len() == 0 {
        Seq::empty()
    } else {
        let before = first_sizes(ms.drop_last());
        let s = (ms.last().width, ms.last().height);
        if before.contains(s) {
            before
        } else {
            before.push(s)
        }
    }
}

/// The distinct sizes of the monitors, in order of first appearance; the
/// primary size (the fallback) when there is no monitor. Monitors of one
/// size share their cache entries, so images are processed once per size.
pub fn distinct_sizes(screens: &Vec<Monitor>) -> (r: Vec<(u32, u32)>)
    ensures
        r@ == (if screens@.len() > 0 {
            first_sizes(screens@)
        } else {
            seq![(FALLBACK_SCREEN_W, FALLBACK_SCREEN_H)]
        }),
{
    let mut sizes: Vec<(u32, u32)> = Vec::new();
    let n = screens.len();
    let mut i: usize = 0;
    while i < n
        invariant
            i <= n == screens@.len(),
            sizes@ == first_sizes(screens@.take(i as int)),
        decreases n - i,
    {
        let s = (screens[i].width, screens[i].height);
        let mut found = false;
        let mut k: usize = 0;
        while k < sizes.len()
            invariant
                k <= sizes@.len(),
                found == exists|j: int| 0 <= j < k && sizes@[j] == s,
            decreases sizes@.len() - k,
        {
            if sizes[k].0 == s.0 && sizes[k].1 == s.1 {
                found = true;
            }
            k = k + 1;
        }
        assert(screens@.take(i + 1).drop_last() =~= screens@.take(i as int));
        assert(screens@.take(i + 1).last() == screens@[i as int]);
        if !found {
            sizes.push(s);
        }
        i = i + 1;
    }
    assert(screens@.take(n as int) =~= screens@);
    if sizes.len() == 0 {
        proof {
            if n > 0 {
                lemma_first_sizes_nonempty(screens@);
            }
        }
        sizes.push(primary_size(screens));
    }
    sizes
}

pub proof fn lemma_first_sizes_nonempty(ms: Seq<Monitor>)
    requires
        ms.len() > 0,
    ensures
        first_sizes(ms).len() > 0,
    decreases ms.len(),
{
    if ms.len() > 1 {
        lemma_first_sizes_nonempty(ms.drop_last());
    }
}

/// The resolutions that images are made for on `screens`: each distinct
/// one in the order of first appearance, or the fallback size when no
/// screen is known.
pub open spec fn key_sizes(screens: Seq<Monitor>) -> Seq<(u32, u32)> {
    if screens.len() > 0 {
        first_sizes(screens)
    } else {
        seq![(FALLBACK_SCREEN_W, FALLBACK_SCREEN_H)]
    }
}

/// `keys` are the cache keys of `src` on `screens`: one per resolution of
/// `key_sizes(screens)`, in that order, each with the display settings.
pub open spec fn are_cache_keys(
    keys: Seq<crate::cache::CacheKey>,
    src: Seq<char>,
    screens: Seq<Monitor>,
    mode: crate::config::DisplayMode,
    blur_sigma_bits: u32,
    bg_darken_bits: u32,
) -> bool {
    let sizes = key_sizes(screens);
    &&& keys.len() == sizes.len()
    &&& forall|i: int| 0 <= i < keys.len() ==> {
        let k = #[trigger] keys[i];
        &&& k.src@ == src
        &&& (k.screen_w, k.screen_h) == sizes[i]
        &&& k.mode == mode
        &&& k.blur_sigma_bits == blur_sigma_bits
        &&& k.bg_darken_bits == bg_darken_bits
    }
}

/// The cache keys needed to show `src` on `screens`: one per distinct
/// resolution, in the order of first appearance, each with the display
/// settings. Applying a wallpaper and prefetching the next one share these
/// keys, so that what is prefetched is what is applied.
pub fn cache_keys(
    src: &str,
    screens: &Vec<Monitor>,
    mode: crate::config::DisplayMode,
    blur_sigma_bits: u32,
    bg_darken_bits: u32,
) -> (keys: Vec<crate::cache::CacheKey>)
    ensures
        are_cache_keys(keys@, src@, screens@, mode, blur_sigma_bits, bg_darken_bits),
{
    let sizes = distinct_sizes(screens);
    let mut keys: Vec<crate::cache::CacheKey> = Vec::new();
    let mut i: usize = 0;
    while i < sizes.len()
        invariant
            i <= sizes@.len(),
            keys@.len() == i,
            forall|j: int| 0 <= j < i ==> {
                let k = #[trigger] keys@[j];
                &&& k.src@ == src@
                &&& (k.screen_w, k.screen_h) == sizes@[j]
                &&& k.mode == mode
                &&& k.blur_sigma_bits == blur_sigma_bits
                &&& k.bg_darken_bits == bg_darken_bits
            },
        decreases sizes.len() - i,
    {
        let (w, h) = sizes[i];
        keys.push(crate::cache::CacheKey::new(src, w, h, mode, blur_sigma_bits, bg_darken_bits));
        i = i + 1;
    }
    keys
}

/// Commands that reflect the state of the desktop rather than a user's
/// key press: they are never dropped.
pub open spec fn is_system_cmd(cmd: TrayCmd) -> bool {
    cmd is Quit || cmd is PlasmaRestarted || cmd is ReloadConfig || cmd is ScreensChanged
}

/// Throttling window, in nanoseconds: a user command that arrives within
/// 500 ms of the previous command is dropped (starting the command-line
/// program and reaching D-Bus can deliver one key press twice).
pub const THROTTLE_NANOS: u128 = 500_000_000;

/// Whether to drop `cmd`, given the time since the previous command
/// (`None` for the first one).
pub fn should_throttle(cmd: &TrayCmd, since_last: Option<u128>) -> (b: bool)
    ensures
        b == (!is_system_cmd(*cmd) && (since_last matches Some(d) && d < THROTTLE_NANOS)),
{
    let exempt = match cmd {
        TrayCmd::Quit | TrayCmd::PlasmaRestarted | TrayCmd::ReloadConfig | TrayCmd::ScreensChanged(_) => true,
        _ => false,
    };
    !exempt && match since_last {
        Some(d) => d < THROTTLE_NANOS,
        None => false,
    }
}

/// `Path::file_name`: the last component when it is a name.
pub open spec fn spec_file_name(p: Seq<char>) -> Option<Seq<char>> {
    let c = components(p);
    if c.len() > 0 && c.last().0 == 3 {
        Some(c.last().1)
    } else {
        None
    }
}

/// The wallpaper name shown by the tray: the file name, or nothing.
pub fn tray_display_name(path: Option<&str>) -> (n: String)
    ensures
        n@ == (match path {
            Some(p) => match spec_file_name(p@) {
                Some(f) => f,
                None => Seq::empty(),
            },
            None => Seq::empty(),
        }),
{
    match path {
        Some(p) => {
            let c = path_components(p);
            let k = c.len();
            if k > 0 && c[k - 1].0 == 3 {
                assert(crate::scanner::comps_view(c@).last() == (c@[k - 1].0 as int, c@[k - 1].1@));
                c[k - 1].1.clone()
            } else {
                String::new()
            }
        },
        None => String::new(),
    }
}

/// Applies one watcher event to the image list: a new image is added
/// unless it is blacklisted; a removed one leaves the list.
pub fn apply_watch_event(ev: WatchEvent, scheduler: &mut Scheduler, blacklist: &Blacklist)
    requires
        old(scheduler).wf(),
    ensures
        final(scheduler).wf(),
        match ev {
            WatchEvent::Added(p) => if blacklist.entries().contains(crate::scanner::components(p@)) {
                *final(scheduler) == *old(scheduler)
            } else {
                crate::scheduler::add_post(*old(scheduler), *final(scheduler), p@)
            },
            WatchEvent::Removed(p) => Scheduler::remove_post(*old(scheduler), *final(scheduler), p@),
        },
{
    match ev {
        WatchEvent::Added(path) => {
            if !blacklist.contains(path.as_str()) {
                scheduler.add_image(path);
            }
        },
        WatchEvent::Removed(path) => {
            scheduler.remove_image(&path);
        },
    }
}


/// The sizes that `distinct_sizes` lists for monitors `ms` hold no repeat,
/// include the size of every monitor, and each is the size of some monitor.
pub proof fn lemma_distinct_sizes_are_the_sizes(ms: Seq<Monitor>)
    ensures
        forall|i: int, j: int| 0 <= i < j < first_sizes(ms).len() ==> first_sizes(ms)[i] != first_sizes(ms)[j],
        forall|k: int| 0 <= k < ms.len() ==> first_sizes(ms).contains((#[trigger] ms[k].width, ms[k].height)),
        forall|i: int|
            0 <= i < first_sizes(ms).len() ==> exists|k: int|
                0 <= k < ms.len() && #[trigger] first_sizes(ms)[i] == (ms[k].width, ms[k].height),
    decreases ms.len(),
{
    if ms.len() > 0 {
        let pre = ms.drop_last();
        lemma_distinct_sizes_are_the_sizes(pre);
        let b = first_sizes(pre);
        let r = first_sizes(ms);
        let s = (ms.last().width, ms.last().height);
        assert forall|k: int| 0 <= k < ms.len() implies r.contains((#[trigger] ms[k].width, ms[k].height)) by {
            if k < ms.len() - 1 {
                assert(ms[k] == pre[k]);
                assert(b.contains((pre[k].width, pre[k].height)));
                if !b.contains(s) {
                    let w = choose|w: int| 0 <= w < b.len() && b[w] == (pre[k].width, pre[k].height);
                    assert(r[w] == b[w]);
                }
            } else {
                if !b.contains(s) {
                    assert(r[b.len() as int] == s);
                }
            }
        }
        assert forall|i: int| 0 <= i < r.len() implies exists|k: int|
            0 <= k < ms.len() && #[trigger] r[i] == (ms[k].width, ms[k].height) by {
            if i < b.len() {
                assert(r[i] == b[i]);
                let k = choose|k: int| 0 <= k < pre.len() && #[trigger] b[i] == (pre[k].width, pre[k].height);
                assert(ms[k] == pre[k]);
            } else {
                assert(r[i] == (ms[ms.len() - 1].width, ms[ms.len() - 1].height));
            }
        }
        assert forall|i: int, j: int| 0 <= i < j < r.len() implies r[i] != r[j] by {
            if j >= b.len() {
                assert(r[i] == b[i]);
                if r[i] == r[j] {
                    assert(b.contains(s));
                }
            } else {
                assert(r[i] == b[i] && r[j] == b[j]);
            }
        }
    }
}

} // verus!

//! Configuration model (`~/.config/kabekami/config.toml`): the sections,
//! their defaults, and the normalisation applied after loading.
//!
//! Paths are held as `String`s. Reading and parsing the TOML file, and the
//! `[display]` section (which holds floating-point settings), belong to the
//! daemon around this library.

use vstd::prelude::*;

use crate::text::{join_path, owned, path_join, starts_with, str_eq, str_starts_with, suffix_from};

verus! {

/// Lower bound of the rotation interval, in seconds.
pub const MIN_INTERVAL_SECS: u64 = 5;

/// Rotation order.
#[derive(Debug, Clone, Copy, PartialEq, Eq, Structural)]
pub enum Order {
    Sequential,
    Random,
}

impl Default for Order {
    fn default() -> (o: Self)
        ensures
            o == Order::Random,
    {
        Order::Random
    }
}

/// How an image is fitted to the screen.
#[derive(Debug, Clone, Copy, PartialEq, Eq, Structural)]
pub enum DisplayMode {
    Fill,
    Fit,
    Stretch,
    BlurPad,
    Smart,
}

impl Default for DisplayMode {
    fn default() -> (m: Self)
        ensures
            m == DisplayMode::BlurPad,
    {
        DisplayMode::BlurPad
    }
}

/// Online wallpaper provider.
#[derive(Debug, Clone, Copy, PartialEq, Eq, Structural)]
pub enum ProviderKind {
    Bing,
    Unsplash,
    Wallhaven,
    Reddit,
}

pub open spec fn spec_provider_name(p: ProviderKind) -> Seq<char> {
    match p {
        ProviderKind::Bing => "bing"@,
        ProviderKind::Unsplash => "unsplash"@,
        ProviderKind::Wallhaven => "wallhaven"@,
        ProviderKind::Reddit => "reddit"@,
    }
}

pub open spec fn spec_default_interval_hours(p: ProviderKind) -> u64 {
    match p {
        ProviderKind::Reddit => 1,
        _ => 24,
    }
}

impl ProviderKind {
    /// Identifier of the provider (also its directory name).
    pub fn name(self) -> (s: &'static str)
        ensures
            s@ == spec_provider_name(self),
    {
        match self {
            ProviderKind::Bing => "bing",
            ProviderKind::Unsplash => "unsplash",
            ProviderKind::Wallhaven => "wallhaven",
            ProviderKind::Reddit => "reddit",
        }
    }

    /// Default refetch interval in hours.
    pub fn default_interval_hours(self) -> (h: u64)
        ensures
            h == spec_default_interval_hours(self),
    {
        match self {
            ProviderKind::Bing => 24,
            ProviderKind::Unsplash => 24,
            ProviderKind::Wallhaven => 24,
            ProviderKind::Reddit => 1,
        }
    }
}


// ---- directories -----------------------------------------------------------

/// The environment variables that locate the user's directories, as the
/// daemon read them (`None` when unset).
#[derive(Debug, Clone)]
pub struct UserDirs {
    /// `HOME`.
    pub home: Option<String>,
    /// `XDG_CONFIG_HOME`.
    pub config_home: Option<String>,
    /// `XDG_CACHE_HOME`.
    pub cache_home: Option<String>,
    /// `XDG_DATA_HOME`.
    pub data_home: Option<String>,
}

/// A variable that is set and not empty.
pub open spec fn set_var(v: Option<String>) -> Option<Seq<char>> {
    match v {
        Some(s) => if s@.len() > 0 {
            Some(s@)
        } else {
            None
        },
        None => None,
    }
}

pub open spec fn spec_home_dir(d: UserDirs) -> Option<Seq<char>> {
    set_var(d.home)
}

/// An XDG base directory: its variable when set and not empty, otherwise
/// `rel` under the home directory, otherwise nothing.
pub open spec fn xdg_dir(var: Option<String>, d: UserDirs, rel: Seq<char>) -> Option<Seq<char>> {
    match set_var(var) {
        Some(v) => Some(v),
        None => match spec_home_dir(d) {
            Some(h) => Some(path_join(h, rel)),
            None => None,
        },
    }
}

fn opt_var(v: &Option<String>) -> (r: Option<String>)
    ensures
        match r {
            Some(s) => set_var(*v) == Some(s@),
            None => set_var(*v) is None,
        },
{
    match v {
        Some(s) => {
            if s.as_str().unicode_len() > 0 {
                Some(s.clone())
            } else {
                None
            }
        },
        None => None,
    }
}

/// The home directory (`HOME`, when set and not empty).
pub fn home_dir(d: &UserDirs) -> (r: Option<String>)
    ensures
        match r {
            Some(s) => spec_home_dir(*d) == Some(s@),
            None => spec_home_dir(*d) is None,
        },
{
    opt_var(&d.home)
}

fn xdg(var: &Option<String>, d: &UserDirs, rel: &str) -> (r: Option<String>)
    ensures
        match r {
            Some(s) => xdg_dir(*var, *d, rel@) == Some(s@),
            None => xdg_dir(*var, *d, rel@) is None,
        },
{
    match opt_var(var) {
        Some(v) => Some(v),
        None => match home_dir(d) {
            Some(h) => Some(join_path(h.as_str(), rel)),
            None => None,
        },
    }
}

/// `$XDG_CONFIG_HOME`, or `~/.config`.
pub fn xdg_config_dir(d: &UserDirs) -> (r: Option<String>)
    ensures
        match r {
            Some(s) => xdg_dir(d.config_home, *d, ".config"@) == Some(s@),
            None => xdg_dir(d.config_home, *d, ".config"@) is None,
        },
{
    xdg(&d.config_home, d, ".config")
}

/// `$XDG_CACHE_HOME`, or `~/.cache`.
pub fn xdg_cache_dir(d: &UserDirs) -> (r: Option<String>)
    ensures
        match r {
            Some(s) => xdg_dir(d.cache_home, *d, ".cache"@) == Some(s@),
            None => xdg_dir(d.cache_home, *d, ".cache"@) is None,
        },
{
    xdg(&d.cache_home, d, ".cache")
}

/// `$XDG_DATA_HOME`, or `~/.local/share`.
pub fn xdg_data_local_dir(d: &UserDirs) -> (r: Option<String>)
    ensures
        match r {
            Some(s) => xdg_dir(d.data_home, *d, ".local/share"@) == Some(s@),
            None => xdg_dir(d.data_home, *d, ".local/share"@) is None,
        },
{
    xdg(&d.data_home, d, ".local/share")
}

/// `~/` and `~` stand for the home directory when it is known.
pub open spec fn spec_expand_tilde(p: Seq<char>, d: UserDirs) -> Seq<char> {
    match spec_home_dir(d) {
        Some(h) => if starts_with(p, "~/"@) {
            path_join(h, p.skip(2))
        } else if p == "~"@ {
            h
        } else {
            p
        },
        None => p,
    }
}

/// Expands a leading `~` of `p` to the home directory.
pub fn expand_tilde(p: &str, d: &UserDirs) -> (r: String)
    ensures
        r@ == spec_expand_tilde(p@, *d),
{
    proof {
        reveal_strlit("~/");
        reveal_strlit("~");
    }
    match home_dir(d) {
        Some(h) => {
            if str_starts_with(p, "~/") {
                let rest = suffix_from(p, 2);
                join_path(h.as_str(), rest.as_str())
            } else if str_eq(p, "~") {
                h
            } else {
                owned(p)
            }
        },
        None => owned(p),
    }
}

/// Where the cache lives by default: `kabekami` in the XDG cache
/// directory, or in `.cache` when that is unknown.
pub open spec fn spec_default_cache_dir(d: UserDirs) -> Seq<char> {
    match xdg_dir(d.cache_home, d, ".cache"@) {
        Some(c) => path_join(c, "kabekami"@),
        None => path_join(".cache"@, "kabekami"@),
    }
}

pub fn default_cache_dir(d: &UserDirs) -> (r: String)
    ensures
        r@ == spec_default_cache_dir(*d),
{
    match xdg_cache_dir(d) {
        Some(c) => join_path(c.as_str(), "kabekami"),
        None => join_path(".cache", "kabekami"),
    }
}

// ---- sections ------------------------------------------------------------

pub fn default_true() -> (b: bool)
    ensures
        b,
{
    true
}

/// Rotation interval when none is configured: 30 minutes.
pub fn default_interval_secs() -> (s: u64)
    ensures
        s == 1800,
{
    1800
}

/// Cache size limit when none is configured: 500 MB.
pub fn default_max_size_mb() -> (m: u64)
    ensures
        m == 500,
{
    500
}

/// Images kept per online source when none is configured.
pub fn default_online_count() -> (c: u32)
    ensures
        c == 10,
{
    10
}

/// `[sources]`: local directories to scan.
#[derive(Debug, Clone)]
pub struct Sources {
    pub directories: Vec<String>,
    pub recursive: bool,
    /// Where favourite wallpapers are copied; `None` turns the feature off.
    pub favorites_dir: Option<String>,
}

impl Default for Sources {
    fn default() -> (s: Self)
        ensures
            s.directories@.len() == 0,
            s.recursive,
            s.favorites_dir is None,
    {
        Sources { directories: Vec::new(), recursive: true, favorites_dir: None }
    }
}

/// `[rotation]`.
#[derive(Debug, Clone)]
pub struct Rotation {
    pub interval_secs: u64,
    pub order: Order,
    pub change_on_start: bool,
    pub prefetch: bool,
}

impl Default for Rotation {
    fn default() -> (r: Self)
        ensures
            r.interval_secs == 1800,
            r.order == Order::Random,
            r.change_on_start,
            r.prefetch,
    {
        Rotation {
            interval_secs: default_interval_secs(),
            order: Order::Random,
            change_on_start: true,
            prefetch: true,
        }
    }
}

/// `[cache]`.
#[derive(Debug, Clone)]
pub struct Cache {
    pub directory: String,
    pub max_size_mb: u64,
}

impl Cache {
    /// The defaults: the cache directory of the user, 500 MB.
    pub fn default_for(d: &UserDirs) -> (c: Self)
        ensures
            c.directory@ == spec_default_cache_dir(*d),
            c.max_size_mb == 500,
    {
        Cache { directory: default_cache_dir(d), max_size_mb: default_max_size_mb() }
    }
}

/// `[ui]`: interface language (`"ja"`, `"en"`, ...; empty for the
/// default) and whether warnings are shown as desktop notifications.
#[derive(Debug, Clone)]
pub struct Ui {
    pub language: String,
    pub warn_notify: bool,
}

impl Default for Ui {
    fn default() -> (u: Self)
        ensures
            u.language@.len() == 0,
            !u.warn_notify,
    {
        Ui { language: String::new(), warn_notify: false }
    }
}

/// One `[[online_sources]]` entry.
#[derive(Debug, Clone)]
pub struct OnlineSourceConfig {
    pub provider: ProviderKind,
    pub enabled: bool,
    /// `None`: `~/.local/share/kabekami/<provider>`.
    pub download_dir: Option<String>,
    /// Required by Unsplash; Wallhaven needs one for NSFW content only.
    pub api_key: Option<String>,
    pub query: Option<String>,
    /// Number of images to keep.
    pub count: u32,
    /// Subreddit of the Reddit provider.
    pub subreddit: Option<String>,
    /// Refetch interval in hours; `None` or 0: the provider's default.
    pub interval_hours: Option<u64>,
    /// Bing locale such as `"ja-JP"`.
    pub locale: Option<String>,
    /// Unsplash quality: `"regular"` or `"full"`.
    pub quality: Option<String>,
}

pub open spec fn spec_resolved_download_dir(c: OnlineSourceConfig, d: UserDirs) -> Seq<char> {
    match c.download_dir {
        Some(dir) => dir@,
        None => {
            let base = match xdg_dir(d.data_home, d, ".local/share"@) {
                Some(b) => b,
                None => ".local/share"@,
            };
            path_join(path_join(base, "kabekami"@), spec_provider_name(c.provider))
        },
    }
}

pub open spec fn spec_effective_interval_hours(c: OnlineSourceConfig) -> u64 {
    match c.interval_hours {
        Some(h) if h != 0 => h,
        _ => spec_default_interval_hours(c.provider),
    }
}

impl OnlineSourceConfig {
    /// The download directory: the configured one, or
    /// `kabekami/<provider>` in the user's data directory.
    pub fn resolved_download_dir(&self, d: &UserDirs) -> (r: String)
        ensures
            r@ == spec_resolved_download_dir(*self, *d),
    {
        match &self.download_dir {
            Some(dir) => dir.clone(),
            None => {
                let base = match xdg_data_local_dir(d) {
                    Some(b) => b,
                    None => owned(".local/share"),
                };
                let k = join_path(base.as_str(), "kabekami");
                join_path(k.as_str(), self.provider.name())
            },
        }
    }

    /// The refetch interval in hours: the configured one, or the
    /// provider's default when none is set or it is 0.
    pub fn effective_interval_hours(&self) -> (h: u64)
        ensures
            h == spec_effective_interval_hours(*self),
            h > 0,
    {
        match self.interval_hours {
            Some(h) if h != 0 => h,
            _ => self.provider.default_interval_hours(),
        }
    }
}

/// The configuration file, but for the `[display]` section, which holds
/// floating-point settings and is kept by the daemon.
#[derive(Debug, Clone)]
pub struct Config {
    pub sources: Sources,
    pub rotation: Rotation,
    pub cache: Cache,
    pub ui: Ui,
    pub online_sources: Vec<OnlineSourceConfig>,
}

/// What `normalize` makes of `a`: the interval raised to
/// `MIN_INTERVAL_SECS`, `~` expanded in every configured path, the rest
/// unchanged.
pub open spec fn normalized(a: Config, b: Config, d: UserDirs) -> bool {
    &&& b.rotation.interval_secs == if a.rotation.interval_secs < MIN_INTERVAL_SECS {
        MIN_INTERVAL_SECS
    } else {
        a.rotation.interval_secs
    }
    &&& b.rotation.order == a.rotation.order
    &&& b.rotation.change_on_start == a.rotation.change_on_start
    &&& b.rotation.prefetch == a.rotation.prefetch
    &&& b.sources.directories@.map_values(|p: String| p@) == expanded(a.sources.directories@, d)
    &&& b.sources.recursive == a.sources.recursive
    &&& match a.sources.favorites_dir {
        Some(f) => b.sources.favorites_dir matches Some(g) && g@ == spec_expand_tilde(f@, d),
        None => b.sources.favorites_dir is None,
    }
    &&& b.cache.directory@ == spec_expand_tilde(a.cache.directory@, d)
    &&& b.cache.max_size_mb == a.cache.max_size_mb
    &&& b.ui == a.ui
    &&& b.online_sources@.len() == a.online_sources@.len()
    &&& forall|i: int|
        0 <= i < a.online_sources@.len() ==> source_expanded(
            a.online_sources@[i],
            #[trigger] b.online_sources@[i],
            d,
        )
}

/// `dirs` with every entry passed through `spec_expand_tilde`.
pub open spec fn expanded(dirs: Seq<String>, d: UserDirs) -> Seq<Seq<char>> {
    dirs.map_values(|p: String| spec_expand_tilde(p@, d))
}

impl Config {
    /// The defaults of every section.
    pub fn default_for(d: &UserDirs) -> (c: Self)
        ensures
            c.sources.directories@.len() == 0,
            c.sources.recursive,
            c.sources.favorites_dir is None,
            c.rotation.interval_secs == 1800,
            c.rotation.order == Order::Random,
            c.rotation.change_on_start,
            c.rotation.prefetch,
            c.cache.directory@ == spec_default_cache_dir(*d),
            c.cache.max_size_mb == 500,
            c.ui.language@.len() == 0,
            !c.ui.warn_notify,
            c.online_sources@.len() == 0,
    {
        Config {
            sources: Sources::default(),
            rotation: Rotation::default(),
            cache: Cache::default_for(d),
            ui: Ui::default(),
            online_sources: Vec::new(),
        }
    }

    /// Where the configuration file is: `kabekami/config.toml` in the XDG
    /// configuration directory; `None` when that is unknown.
    pub fn config_path(d: &UserDirs) -> (r: Option<String>)
        ensures
            match r {
                Some(p) => xdg_dir(d.config_home, *d, ".config"@) matches Some(c) && p@ == path_join(
                    path_join(c, "kabekami"@),
                    "config.toml"@,
                ),
                None => xdg_dir(d.config_home, *d, ".config"@) is None,
            },
    {
        match xdg_config_dir(d) {
            Some(c) => {
                let k = join_path(c.as_str(), "kabekami");
                Some(join_path(k.as_str(), "config.toml"))
            },
            None => None,
        }
    }

    /// Normalises the values read from the file: the interval is raised to
    /// `MIN_INTERVAL_SECS`, and `~` is expanded in every configured path.
    pub fn normalize(&mut self, d: &UserDirs)
        ensures
            normalized(*old(self), *final(self), *d),
    {
        if self.rotation.interval_secs < MIN_INTERVAL_SECS {
            self.rotation.interval_secs = MIN_INTERVAL_SECS;
        }
        let n = self.sources.directories.len();
        let mut dirs: Vec<String> = Vec::new();
        let mut i: usize = 0;
        while i < n
            invariant
                i <= n == self.sources.directories@.len(),
                dirs@.len() == i,
                forall|k: int|
                    0 <= k < i ==> (#[trigger] dirs@[k])@ == spec_expand_tilde(
                        self.sources.directories@[k]@,
                        *d,
                    ),
            decreases n - i,
        {
            let e = expand_tilde(self.sources.directories[i].as_str(), d);
            dirs.push(e);
            i = i + 1;
        }
        assert(dirs@.map_values(|p: String| p@) =~= expanded(self.sources.directories@, *d));
        self.sources.directories = dirs;
        let fav = match &self.sources.favorites_dir {
            Some(f) => Some(expand_tilde(f.as_str(), d)),
            None => None,
        };
        self.sources.favorites_dir = fav;
        self.cache.directory = expand_tilde(self.cache.directory.as_str(), d);
        let m = self.online_sources.len();
        let mut srcs: Vec<OnlineSourceConfig> = Vec::new();
        let mut j: usize = 0;
        while j < m
            invariant
                j <= m == self.online_sources@.len(),
                srcs@.len() == j,
                forall|k: int| 0 <= k < j ==> source_expanded(self.online_sources@[k], #[trigger] srcs@[k], *d),
            decreases m - j,
        {
            let oc = &self.online_sources[j];
            let dl = match &oc.download_dir {
                Some(p) => Some(expand_tilde(p.as_str(), d)),
                None => None,
            };
            let c = OnlineSourceConfig {
                provider: oc.provider,
                enabled: oc.enabled,
                download_dir: dl,
                api_key: oc.api_key.clone(),
                query: oc.query.clone(),
                count: oc.count,
                subreddit: oc.subreddit.clone(),
                interval_hours: oc.interval_hours,
                locale: oc.locale.clone(),
                quality: oc.quality.clone(),
            };
            srcs.push(c);
            j = j + 1;
        }
        self.online_sources = srcs;
    }
}

/// `b` is `a` with `~` expanded in its download directory.
pub open spec fn source_expanded(a: OnlineSourceConfig, b: OnlineSourceConfig, d: UserDirs) -> bool {
    &&& b.provider == a.provider
    &&& b.enabled == a.enabled
    &&& match a.download_dir {
        Some(p) => b.download_dir matches Some(q) && q@ == spec_expand_tilde(p@, d),
        None => b.download_dir is None,
    }
    &&& opt_view(b.api_key) == opt_view(a.api_key)
    &&& opt_view(b.query) == opt_view(a.query)
    &&& b.count == a.count
    &&& opt_view(b.subreddit) == opt_view(a.subreddit)
    &&& b.interval_hours == a.interval_hours
    &&& opt_view(b.locale) == opt_view(a.locale)
    &&& opt_view(b.quality) == opt_view(a.quality)
}

pub open spec fn opt_view(o: Option<String>) -> Option<Seq<char>> {
    match o {
        Some(s) => Some(s@),
        None => None,
    }
}


// ---- laws ------------------------------------------------------------------

/// The home directory, when there is one, does not itself start with `~`.
pub open spec fn home_plain(d: UserDirs) -> bool {
    spec_home_dir(d) matches Some(h) ==> h[0] != '~'
}

/// `~` expansion changes nothing a second time.
pub proof fn lemma_expand_tilde_idempotent(p: Seq<char>, d: UserDirs)
    requires
        home_plain(d),
    ensures
        spec_expand_tilde(spec_expand_tilde(p, d), d) == spec_expand_tilde(p, d),
{
    reveal_strlit("~/");
    reveal_strlit("~");
    let e = spec_expand_tilde(p, d);
    if let Some(h) = spec_home_dir(d) {
        assert(h.len() > 0);
        if e.len() > 0 && e[0] != '~' {
            if starts_with(e, "~/"@) {
                assert(e.take(2)[0] == e[0]);
            }
            if e == "~"@ {
                assert(e[0] == '~');
            }
        }
        if starts_with(p, "~/"@) {
            let rest = p.skip(2);
            if rest.len() > 0 && rest[0] == '/' {
                assert(e == rest);
            } else {
                assert(e[0] == h[0]);
            }
        } else if p == "~"@ {
            assert(e == h);
        } else {
            assert(e == p);
        }
    }
}

/// `a` and `b` hold the same settings.
pub open spec fn same_settings(a: Config, b: Config) -> bool {
    &&& a.rotation == b.rotation
    &&& a.sources.directories@.map_values(|p: String| p@) == b.sources.directories@.map_values(|p: String| p@)
    &&& a.sources.recursive == b.sources.recursive
    &&& opt_view(a.sources.favorites_dir) == opt_view(b.sources.favorites_dir)
    &&& a.cache.directory@ == b.cache.directory@
    &&& a.cache.max_size_mb == b.cache.max_size_mb
    &&& a.ui == b.ui
    &&& a.online_sources@.len() == b.online_sources@.len()
    &&& forall|i: int|
        0 <= i < a.online_sources@.len() ==> {
            let x = #[trigger] a.online_sources@[i];
            let y = b.online_sources@[i];
            &&& x.provider == y.provider
            &&& x.enabled == y.enabled
            &&& opt_view(x.download_dir) == opt_view(y.download_dir)
            &&& opt_view(x.api_key) == opt_view(y.api_key)
            &&& opt_view(x.query) == opt_view(y.query)
            &&& x.count == y.count
            &&& opt_view(x.subreddit) == opt_view(y.subreddit)
            &&& x.interval_hours == y.interval_hours
            &&& opt_view(x.locale) == opt_view(y.locale)
            &&& opt_view(x.quality) == opt_view(y.quality)
        }
}

/// Normalising twice changes nothing the second time (for a home
/// directory that does not itself start with `~`).
pub proof fn lemma_normalize_idempotent(a: Config, b: Config, c: Config, d: UserDirs)
    requires
        normalized(a, b, d),
        normalized(b, c, d),
        home_plain(d),
    ensures
        same_settings(b, c),
{
    let bd = b.sources.directories@.map_values(|p: String| p@);
    let cd = c.sources.directories@.map_values(|p: String| p@);
    assert(bd.len() == a.sources.directories@.len());
    assert forall|i: int| 0 <= i < bd.len() implies bd[i] == cd[i] by {
        assert(bd[i] == expanded(a.sources.directories@, d)[i]);
        assert(cd[i] == expanded(b.sources.directories@, d)[i]);
        lemma_expand_tilde_idempotent(a.sources.directories@[i]@, d);
    }
    assert(bd =~= cd);
    if let Some(f) = a.sources.favorites_dir {
        lemma_expand_tilde_idempotent(f@, d);
    }
    lemma_expand_tilde_idempotent(a.cache.directory@, d);
    assert forall|i: int| 0 <= i < b.online_sources@.len() implies {
        let x = #[trigger] b.online_sources@[i];
        let y = c.online_sources@[i];
        &&& x.provider == y.provider
        &&& x.enabled == y.enabled
        &&& opt_view(x.download_dir) == opt_view(y.download_dir)
        &&& opt_view(x.api_key) == opt_view(y.api_key)
        &&& opt_view(x.query) == opt_view(y.query)
        &&& x.count == y.count
        &&& opt_view(x.subreddit) == opt_view(y.subreddit)
        &&& x.interval_hours == y.interval_hours
        &&& opt_view(x.locale) == opt_view(y.locale)
        &&& opt_view(x.quality) == opt_view(y.quality)
    } by {
        assert(source_expanded(a.online_sources@[i], b.online_sources@[i], d));
        assert(source_expanded(b.online_sources@[i], c.online_sources@[i], d));
        if let Some(p) = a.online_sources@[i].download_dir {
            lemma_expand_tilde_idempotent(p@, d);
        }
    }
}

} // verus!

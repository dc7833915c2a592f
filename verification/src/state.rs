//! The runtime state that the daemon keeps across restarts (`state.toml`
//! in the configuration directory): whether rotation is paused and which
//! wallpaper was applied last. It is kept apart from `config.toml`, so
//! writing it never triggers a configuration reload.
//!
//! Reading, writing (atomically) and TOML belong to the daemon; this module
//! decides what the state is and when it must be written.

use vstd::prelude::*;

use crate::config::opt_view;
use crate::text::{join_path, str_eq};

verus! {

/// The persisted state.
#[derive(Debug, Clone)]
pub struct DaemonState {
    /// Automatic rotation is paused.
    pub paused: bool,
    /// The wallpaper applied last.
    pub current: Option<String>,
}

impl Default for DaemonState {
    fn default() -> (s: Self)
        ensures
            !s.paused,
            s.current is None,
    {
        DaemonState { paused: false, current: None }
    }
}

/// Two states hold the same values.
pub open spec fn same_state(a: DaemonState, b: DaemonState) -> bool {
    a.paused == b.paused && opt_view(a.current) == opt_view(b.current)
}

fn opt_str_eq(a: &Option<String>, b: &Option<String>) -> (r: bool)
    ensures
        r == (opt_view(*a) == opt_view(*b)),
{
    match (a, b) {
        (Some(x), Some(y)) => str_eq(x.as_str(), y.as_str()),
        (None, None) => true,
        _ => false,
    }
}

impl DaemonState {
    /// The state read from `state.toml`; the default (running, no current
    /// wallpaper) when the file is missing or malformed, which the daemon
    /// passes as `None`.
    pub fn load(read: Option<DaemonState>) -> (s: Self)
        ensures
            match read {
                Some(r) => s == r,
                None => !s.paused && s.current is None,
            },
    {
        match read {
            Some(r) => r,
            None => DaemonState::default(),
        }
    }

    /// `state.toml` in `config_dir`.
    pub fn path(config_dir: &str) -> (p: String)
        ensures
            p@ == crate::text::path_join(config_dir@, "state.toml"@),
    {
        join_path(config_dir, "state.toml")
    }

    /// Whether both states hold the same values.
    pub fn same(&self, other: &Self) -> (r: bool)
        ensures
            r == same_state(*self, *other),
    {
        self.paused == other.paused && opt_str_eq(&self.current, &other.current)
    }
}

/// What `plan` answers for `paused` and a current wallpaper `current`:
/// `None` when that is the state written last, else that state.
pub open spec fn plan_post(w: StateWriter, paused: bool, current: Option<Seq<char>>, r: Option<DaemonState>) -> bool {
    let unchanged = paused == w.spec_last().paused && current == opt_view(w.spec_last().current);
    match r {
        Some(s) => !unchanged && s.paused == paused && opt_view(s.current) == current,
        None => unchanged,
    }
}

/// Writes `state.toml`: it remembers what was written last, so that an
/// unchanged state (the same wallpaper applied again after a Plasma
/// restart or a screen change) is not written again.
#[derive(Debug)]
pub struct StateWriter {
    dir: String,
    last: DaemonState,
}

impl StateWriter {
    pub closed spec fn spec_last(&self) -> DaemonState {
        self.last
    }

    pub closed spec fn spec_dir(&self) -> Seq<char> {
        self.dir@
    }

    /// A writer for `dir`; `initial`, the state loaded at start, counts as
    /// written.
    pub fn new(dir: String, initial: DaemonState) -> (w: Self)
        ensures
            w.spec_dir() == dir@,
            w.spec_last() == initial,
    {
        StateWriter { dir, last: initial }
    }

    /// The state to write for `paused` and `current`, or `None` when it is
    /// the state written last.
    pub fn plan(&self, paused: bool, current: Option<&str>) -> (r: Option<DaemonState>)
        ensures
            plan_post(*self, paused, match current {
                Some(c) => Some(c@),
                None => None,
            }, r),
    {
        let next = DaemonState {
            paused,
            current: match current {
                Some(c) => Some(crate::text::owned(c)),
                None => None,
            },
        };
        if next.same(&self.last) {
            None
        } else {
            Some(next)
        }
    }

    /// Records that `st` was written.
    pub fn written(&mut self, st: DaemonState)
        ensures
            final(self).spec_last() == st,
            final(self).spec_dir() == old(self).spec_dir(),
    {
        self.last = st;
    }

    /// The directory of `state.toml`.
    pub fn dir(&self) -> (d: &str)
        ensures
            d@ == self.spec_dir(),
    {
        self.dir.as_str()
    }
}

/// A state that was just written is not written again: after `written(s)`
/// the plan for the same values is `None`, and for any other values it is
/// the new state.
pub proof fn lemma_unchanged_state_is_not_rewritten(
    w: StateWriter,
    s: DaemonState,
    paused: bool,
    current: Option<Seq<char>>,
    r: Option<DaemonState>,
)
    requires
        w.spec_last() == s,
        plan_post(w, paused, current, r),
    ensures
        (paused == s.paused && current == opt_view(s.current)) <==> r is None,
        r matches Some(n) ==> n.paused == paused && opt_view(n.current) == current,
{
}

} // verus!

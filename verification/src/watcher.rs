//! Watching the source directories and the configuration file.
//!
//! The daemon registers the directories with the file watcher and turns
//! each file system event into a `FsChange`; this module decides which
//! changes reach the scheduler and whether the watch is complete.

use vstd::prelude::*;

use crate::scanner::{components, is_image, spec_is_image};

verus! {

/// What the scheduler learns from the watcher.
#[derive(Debug, Clone)]
pub enum WatchEvent {
    /// An image appeared (created, or renamed into place).
    Added(String),
    /// An image went away (removed, or renamed away).
    Removed(String),
}

/// The kinds of file system events that matter here.
#[derive(Debug, Clone, Copy, PartialEq, Eq, Structural)]
pub enum FsChange {
    Created,
    Removed,
    /// A rename, seen from its new name.
    RenamedTo,
    /// A rename, seen from its old name.
    RenamedFrom,
    /// Any other modification.
    Modified,
    /// Access and other events.
    Other,
}

/// The event that a change of `path` gives: images only; creation and
/// renaming into place add, removal and renaming away remove.
pub fn classify(change: FsChange, path: String) -> (ev: Option<WatchEvent>)
    ensures
        match ev {
            Some(WatchEvent::Added(p)) => p@ == path@ && spec_is_image(path@) && (change == FsChange::Created
                || change == FsChange::RenamedTo),
            Some(WatchEvent::Removed(p)) => p@ == path@ && spec_is_image(path@) && (change == FsChange::Removed
                || change == FsChange::RenamedFrom),
            None => !spec_is_image(path@) || change == FsChange::Modified || change == FsChange::Other,
        },
{
    if !is_image(path.as_str()) {
        return None;
    }
    match change {
        FsChange::Created | FsChange::RenamedTo => Some(WatchEvent::Added(path)),
        FsChange::Removed | FsChange::RenamedFrom => Some(WatchEvent::Removed(path)),
        _ => None,
    }
}

/// Whether an event on `paths` asks for a configuration reload: it must
/// create, modify or remove something, and one of its paths must be the
/// configuration file (by `Path`'s equality).
pub fn is_config_event(change: FsChange, paths: &Vec<String>, config_path: &str) -> (b: bool)
    ensures
        b == (change != FsChange::Other && exists|i: int|
            0 <= i < paths@.len() && components(#[trigger] paths@[i]@) == components(config_path@)),
{
    if change == FsChange::Other {
        return false;
    }
    let target = crate::scanner::path_components(config_path);
    let n = paths.len();
    let mut i: usize = 0;
    while i < n
        invariant
            i <= n == paths@.len(),
            change != FsChange::Other,
            crate::scanner::comps_view(target@) == components(config_path@),
            forall|j: int| 0 <= j < i ==> components(#[trigger] paths@[j]@) != components(config_path@),
        decreases n - i,
    {
        let c = crate::scanner::path_components(paths[i].as_str());
        if crate::scanner::same_components(&c, &target) {
            assert(components(paths@[i as int]@) == components(config_path@));
            return true;
        }
        i = i + 1;
    }
    false
}

/// The state of a directory watch.
#[derive(Debug, Clone, Copy)]
pub struct DirWatcher {
    complete: bool,
}

impl DirWatcher {
    pub closed spec fn spec_complete(&self) -> bool {
        self.complete
    }

    /// The watch after `watched` of `total` directories could be
    /// registered: none when no directory could be, else complete when all
    /// could.
    pub fn registered(watched: usize, total: usize) -> (w: Option<DirWatcher>)
        ensures
            match w {
                Some(d) => watched > 0 && d.spec_complete() == (watched == total),
                None => watched == 0,
            },
    {
        if watched == 0 {
            None
        } else {
            Some(DirWatcher { complete: watched == total })
        }
    }

    /// Whether every directory is watched. When not, changes in the others
    /// are not reported and the daemon relies on rescans.
    pub fn is_complete(&self) -> (b: bool)
        ensures
            b == self.spec_complete(),
    {
        self.complete
    }
}

} // verus!

//! Following the desktop session: logout or shutdown ends the daemon, and
//! a restart of Plasma makes it apply the wallpaper again.
//!
//! The daemon listens to `PrepareForShutdown` of `org.freedesktop.login1`
//! and to `NameOwnerChanged` of the session bus; it hands each signal to
//! these functions and sends the command they return.

use vstd::prelude::*;

use crate::tray::TrayCmd;

verus! {

/// What a `PrepareForShutdown(start)` signal asks of the daemon: to quit
/// when the shutdown starts (the watcher then stops).
pub fn on_prepare_for_shutdown(start: bool) -> (c: Option<TrayCmd>)
    ensures
        start ==> c matches Some(TrayCmd::Quit),
        !start ==> c is None,
{
    if start {
        Some(TrayCmd::Quit)
    } else {
        None
    }
}

/// What a `NameOwnerChanged(name, old, new)` signal asks of the daemon:
/// `org.kde.plasmashell` got a new owner, so Plasma restarted and the
/// wallpaper is applied again.
pub fn on_name_owner_changed(name: &str, new_owner: &str) -> (c: Option<TrayCmd>)
    ensures
        (name@ == "org.kde.plasmashell"@ && new_owner@.len() > 0) ==> c matches Some(TrayCmd::PlasmaRestarted),
        !(name@ == "org.kde.plasmashell"@ && new_owner@.len() > 0) ==> c is None,
{
    if crate::text::str_eq(name, "org.kde.plasmashell") && new_owner.unicode_len() > 0 {
        Some(TrayCmd::PlasmaRestarted)
    } else {
        None
    }
}

} // verus!

//! KDE global shortcuts: the actions the daemon registers with
//! `org.kde.KGlobalAccel` (without default keys; the user assigns them in
//! System Settings → Shortcuts → kabekami) and the commands their key
//! presses send.

use vstd::prelude::*;

use crate::text::owned;
use crate::tray::TrayCmd;

verus! {

/// The component the actions are registered under.
pub open spec fn component() -> Seq<char> {
    "kabekami"@
}

pub fn component_name() -> (s: &'static str)
    ensures
        s@ == component(),
{
    "kabekami"
}

/// The actions, as (action id, display name).
pub open spec fn actions() -> Seq<(Seq<char>, Seq<char>)> {
    seq![
        ("next_wallpaper"@, "Next Wallpaper"@),
        ("prev_wallpaper"@, "Previous Wallpaper"@),
        ("toggle_pause"@, "Pause / Resume"@),
        ("trash_current"@, "Move to Trash"@),
        ("blacklist_current"@, "Never Show Again"@),
    ]
}

/// The identifier of each action as `setShortcutKeys` takes it: the
/// component, the action id, the component again and the display name.
pub fn registrations() -> (r: Vec<Vec<String>>)
    ensures
        r@.len() == actions().len(),
        forall|i: int| 0 <= i < r@.len() ==> (#[trigger] r@[i])@.map_values(|s: String| s@) == seq![
            component(),
            actions()[i].0,
            component(),
            actions()[i].1,
        ],
{
    let ids = ["next_wallpaper", "prev_wallpaper", "toggle_pause", "trash_current", "blacklist_current"];
    let names = ["Next Wallpaper", "Previous Wallpaper", "Pause / Resume", "Move to Trash", "Never Show Again"];
    let mut r: Vec<Vec<String>> = Vec::new();
    let mut i: usize = 0;
    while i < 5
        invariant
            i <= 5,
            r@.len() == i,
            forall|k: int| 0 <= k < 5 ==> (#[trigger] ids@[k])@ == actions()[k].0 && names@[k]@ == actions()[k].1,
            forall|k: int| 0 <= k < i ==> (#[trigger] r@[k])@.map_values(|s: String| s@) == seq![
                component(),
                actions()[k].0,
                component(),
                actions()[k].1,
            ],
        decreases 5 - i,
    {
        let mut id: Vec<String> = Vec::new();
        id.push(owned(component_name()));
        id.push(owned(ids[i]));
        id.push(owned(component_name()));
        id.push(owned(names[i]));
        assert(id@.map_values(|s: String| s@) =~= seq![
            component(),
            actions()[i as int].0,
            component(),
            actions()[i as int].1,
        ]);
        r.push(id);
        i = i + 1;
    }
    r
}

/// The command of a pressed shortcut: only the component's own actions
/// count.
pub open spec fn spec_shortcut_command(component_name: Seq<char>, shortcut: Seq<char>) -> Option<TrayCmd> {
    if component_name != component() {
        None
    } else if shortcut == "next_wallpaper"@ {
        Some(TrayCmd::Next)
    } else if shortcut == "prev_wallpaper"@ {
        Some(TrayCmd::Prev)
    } else if shortcut == "toggle_pause"@ {
        Some(TrayCmd::TogglePause)
    } else if shortcut == "trash_current"@ {
        Some(TrayCmd::DeleteCurrent)
    } else if shortcut == "blacklist_current"@ {
        Some(TrayCmd::BlacklistCurrent)
    } else {
        None
    }
}

pub fn shortcut_command(component_name: &str, shortcut: &str) -> (c: Option<TrayCmd>)
    ensures
        c == spec_shortcut_command(component_name@, shortcut@),
{
    if !crate::text::str_eq(component_name, "kabekami") {
        None
    } else if crate::text::str_eq(shortcut, "next_wallpaper") {
        Some(TrayCmd::Next)
    } else if crate::text::str_eq(shortcut, "prev_wallpaper") {
        Some(TrayCmd::Prev)
    } else if crate::text::str_eq(shortcut, "toggle_pause") {
        Some(TrayCmd::TogglePause)
    } else if crate::text::str_eq(shortcut, "trash_current") {
        Some(TrayCmd::DeleteCurrent)
    } else if crate::text::str_eq(shortcut, "blacklist_current") {
        Some(TrayCmd::BlacklistCurrent)
    } else {
        None
    }
}

/// Every registered action has a command.
pub proof fn lemma_registered_actions_have_commands(i: int)
    requires
        0 <= i < actions().len(),
    ensures
        spec_shortcut_command(component(), actions()[i].0) is Some,
{
    reveal_strlit("next_wallpaper");
    reveal_strlit("prev_wallpaper");
    reveal_strlit("toggle_pause");
    reveal_strlit("trash_current");
    reveal_strlit("blacklist_current");
}

} // verus!

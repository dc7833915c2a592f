//! Applying wallpapers to KDE Plasma.
//!
//! The daemon calls `org.kde.PlasmaShell.evaluateScript` over D-Bus with
//! the scripts built here; when that fails it falls back to the
//! `plasma-apply-wallpaperimage` command. The script of a single wallpaper
//! sets every desktop:
//!
//! ```js
//! for (const desktop of desktops()) {
//!     if (desktop.screen === -1) continue;
//!     desktop.wallpaperPlugin = "org.kde.image";
//!     desktop.currentConfigGroup = ["Wallpaper", "org.kde.image", "General"];
//!     desktop.writeConfig("Image", "file:///path/to/image.webp");
//! }
//! ```

use vstd::prelude::*;

use crate::text::{chars_of, dec, decimal, push_char, push_str};

verus! {

/// A character as it appears inside a JavaScript double-quoted string.
pub open spec fn escape_char(c: char) -> Seq<char> {
    if c == '\\' {
        seq!['\\', '\\']
    } else if c == '"' {
        seq!['\\', '"']
    } else if c == '\n' {
        seq!['\\', 'n']
    } else if c == '\r' {
        seq!['\\', 'r']
    } else {
        seq![c]
    }
}

/// `s` with backslash, double quote, line feed and carriage return
/// escaped.
pub open spec fn spec_escape_js(s: Seq<char>) -> Seq<char>
    decreases s.len(),
{
    if s.len() == 0 {
        Seq::empty()
    } else {
        spec_escape_js(s.drop_last()) + escape_char(s.last())
    }
}

/// Escapes `s` for a JavaScript double-quoted string literal.
pub fn escape_js_string(s: &str) -> (r: String)
    ensures
        r@ == spec_escape_js(s@),
{
    let v = chars_of(s);
    let mut r = String::new();
    let n = v.len();
    let mut i: usize = 0;
    while i < n
        invariant
            i <= n == v@.len(),
            v@ == s@,
            r@ == spec_escape_js(s@.take(i as int)),
        decreases n - i,
    {
        let c = v[i];
        let ghost r0 = r@;
        if c == '\\' {
            push_char(&mut r, '\\');
            push_char(&mut r, '\\');
        } else if c == '"' {
            push_char(&mut r, '\\');
            push_char(&mut r, '"');
        } else if c == '\n' {
            push_char(&mut r, '\\');
            push_char(&mut r, 'n');
        } else if c == '\r' {
            push_char(&mut r, '\\');
            push_char(&mut r, 'r');
        } else {
            push_char(&mut r, c);
        }
        assert(s@.take(i + 1).drop_last() =~= s@.take(i as int));
        assert(r@ =~= r0 + escape_char(c));
        i = i + 1;
    }
    assert(s@.take(n as int) =~= s@);
    r
}

pub open spec fn single_script_text(escaped: Seq<char>) -> Seq<char> {
    "for (const desktop of desktops()) {\n    if (desktop.screen === -1) continue;\n    desktop.wallpaperPlugin = \"org.kde.image\";\n    desktop.currentConfigGroup = [\"Wallpaper\", \"org.kde.image\", \"General\"];\n    desktop.writeConfig(\"Image\", \"file://"@
        + escaped + "\");\n}"@
}

/// The script that sets `path` (an absolute path) on every desktop.
pub fn single_script(path: &str) -> (s: String)
    ensures
        s@ == single_script_text(spec_escape_js(path@)),
{
    let escaped = escape_js_string(path);
    let mut s = String::new();
    push_str(
        &mut s,
        "for (const desktop of desktops()) {\n    if (desktop.screen === -1) continue;\n    desktop.wallpaperPlugin = \"org.kde.image\";\n    desktop.currentConfigGroup = [\"Wallpaper\", \"org.kde.image\", \"General\"];\n    desktop.writeConfig(\"Image\", \"file://",
    );
    push_str(&mut s, escaped.as_str());
    push_str(&mut s, "\");\n}");
    proof {
        let a = "for (const desktop of desktops()) {\n    if (desktop.screen === -1) continue;\n    desktop.wallpaperPlugin = \"org.kde.image\";\n    desktop.currentConfigGroup = [\"Wallpaper\", \"org.kde.image\", \"General\"];\n    desktop.writeConfig(\"Image\", \"file://"@;
        assert(Seq::<char>::empty() + a + escaped@ + "\");\n}"@ =~= a + escaped@ + "\");\n}"@);
    }
    s
}

/// One entry of the wallpaper map: `"<screen>": "file://<path>"`.
pub open spec fn map_entry(screen: u64, path: Seq<char>) -> Seq<char> {
    "\""@ + dec(screen as nat) + "\": \"file://"@ + spec_escape_js(path) + "\""@
}

/// The entries of the map, separated by `", "`.
pub open spec fn map_entries(es: Seq<(u64, Seq<char>)>) -> Seq<char>
    decreases es.len(),
{
    if es.len() == 0 {
        Seq::empty()
    } else if es.len() == 1 {
        map_entry(es[0].0, es[0].1)
    } else {
        map_entries(es.drop_last()) + ", "@ + map_entry(es.last().0, es.last().1)
    }
}

pub open spec fn multi_script_text(entries: Seq<char>) -> Seq<char> {
    "const wallpapers = {"@ + entries
        + "};\nfor (const desktop of desktops()) {\n    if (desktop.screen === -1) continue;\n    const p = wallpapers[String(desktop.screen)];\n    if (!p) continue;\n    desktop.wallpaperPlugin = \"org.kde.image\";\n    desktop.currentConfigGroup = [\"Wallpaper\", \"org.kde.image\", \"General\"];\n    desktop.writeConfig(\"Image\", p);\n}"@
}

pub open spec fn entry_views(es: Seq<(u64, String)>) -> Seq<(u64, Seq<char>)> {
    es.map_values(|e: (u64, String)| (e.0, e.1@))
}

/// The script that sets each `(screen, path)` of `entries` on the desktops
/// of that screen.
pub fn multi_script(entries: &Vec<(u64, String)>) -> (s: String)
    ensures
        s@ == multi_script_text(map_entries(entry_views(entries@))),
{
    let ghost es = entry_views(entries@);
    let mut m = String::new();
    let n = entries.len();
    let mut i: usize = 0;
    assert(es.take(0) =~= Seq::<(u64, Seq<char>)>::empty());
    while i < n
        invariant
            i <= n == entries@.len(),
            es == entry_views(entries@),
            m@ == map_entries(es.take(i as int)),
        decreases n - i,
    {
        let (idx, p) = (entries[i].0, &entries[i].1);
        let ghost m0 = m@;
        if i > 0 {
            push_str(&mut m, ", ");
        }
        push_char(&mut m, '"');
        let d = decimal(idx);
        push_str(&mut m, d.as_str());
        push_str(&mut m, "\": \"file://");
        let e = escape_js_string(p.as_str());
        push_str(&mut m, e.as_str());
        push_char(&mut m, '"');
        proof {
            reveal_strlit("\"");
            let t = es.take(i + 1);
            assert(t.drop_last() =~= es.take(i as int));
            assert(t.last() == (idx, p@));
            let ent = map_entry(idx, p@);
            if i > 0 {
                assert(m@ =~= m0 + ", "@ + ent);
            } else {
                assert(m@ =~= ent);
            }
        }
        i = i + 1;
    }
    assert(es.take(n as int) =~= es);
    let mut s = String::new();
    push_str(&mut s, "const wallpapers = {");
    push_str(&mut s, m.as_str());
    push_str(
        &mut s,
        "};\nfor (const desktop of desktops()) {\n    if (desktop.screen === -1) continue;\n    const p = wallpapers[String(desktop.screen)];\n    if (!p) continue;\n    desktop.wallpaperPlugin = \"org.kde.image\";\n    desktop.currentConfigGroup = [\"Wallpaper\", \"org.kde.image\", \"General\"];\n    desktop.writeConfig(\"Image\", p);\n}",
    );
    assert(s@ =~= multi_script_text(m@));
    s
}

/// How a set of per-screen wallpapers is applied.
#[derive(Debug, Clone, PartialEq, Eq, Structural)]
pub enum ApplyPlan {
    /// No screen: nothing to do.
    Nothing,
    /// One wallpaper for every desktop (`single_script`, or the command).
    Single,
    /// One wallpaper per screen (`multi_script`); when the D-Bus call
    /// fails, the first entry's wallpaper goes to every desktop through
    /// the command.
    PerScreen,
}

/// How `set_wallpaper_multi` applies `n` entries.
pub fn apply_plan(n: usize) -> (p: ApplyPlan)
    ensures
        p == (if n == 0 {
            ApplyPlan::Nothing
        } else if n == 1 {
            ApplyPlan::Single
        } else {
            ApplyPlan::PerScreen
        }),
{
    if n == 0 {
        ApplyPlan::Nothing
    } else if n == 1 {
        ApplyPlan::Single
    } else {
        ApplyPlan::PerScreen
    }
}

} // verus!

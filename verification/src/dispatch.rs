//! The daemon's main loop as a state machine: a tray command, or the
//! outcome of work the daemon did outside (moving a file to the trash,
//! writing the blacklist, scanning the directories again, an online
//! fetch, the rotation timer), changes the rotation and yields the actions
//! the daemon then performs in order.

use vstd::prelude::*;

use crate::blacklist::Blacklist;
use crate::config::{DisplayMode, Order, MIN_INTERVAL_SECS};
use crate::control::{add_fetched, fetched_post, unlisted};
use crate::scheduler::{has_path, queue_for, Scheduler};
use crate::screen::Monitor;
use crate::tray::TrayCmd;

verus! {

/// What the daemon does after a step, in order.
#[derive(Debug)]
pub enum Action {
    /// Show this image (and, once it is shown, persist the state, update
    /// the tray and warm the next image).
    Apply(String),
    /// Start the rotation timer over.
    ResetTimer,
    /// Stop the running prefetch.
    AbortPrefetch,
    /// Write the state file.
    PersistState { paused: bool, current: Option<String> },
    /// Show the pause state in the tray.
    ShowPaused(bool),
    /// Show in the tray that no image is on screen.
    ShowNoCurrent,
    /// Show the number of images in the tray.
    ShowCount(usize),
    /// Open this file with the desktop's default program.
    Open(String),
    /// Move this file to the trash (then report with `on_trashed`).
    Trash(String),
    /// Add this file to the blacklist (then report with `on_blacklisted`).
    Blacklist(String),
    /// Copy this file to the favourites directory.
    CopyToFavorites(String),
    /// Save the display mode in the settings.
    SaveMode(DisplayMode),
    /// Save the rotation interval in the settings and use it for the timer.
    SaveInterval(u64),
    /// Read the configuration again.
    Reload,
    /// Start the settings program.
    OpenSettings,
    /// Fetch the online sources now.
    FetchNow,
    /// Use these monitors from now on.
    SetScreens(Vec<Monitor>),
    /// Tell the user how many images a fetch added.
    FetchNotice(usize),
    /// Leave the loop.
    Quit,
}

/// `Apply(p)` when there is an image `p`, nothing otherwise.
pub open spec fn apply_opt(r: Option<String>) -> Seq<Action> {
    match r {
        Some(p) => seq![Action::Apply(p)],
        None => Seq::empty(),
    }
}

/// `a(c)` for the image `c` on screen, nothing when there is none.
pub open spec fn on_current(s: Scheduler, f: spec_fn(String) -> Action) -> Seq<Action> {
    match s.spec_current() {
        Some(c) => seq![f(c)],
        None => Seq::empty(),
    }
}

/// What the timer does to the rotation: the next image unless paused.
pub open spec fn auto_post(pre: Scheduler, post: Scheduler, r: Option<String>) -> bool {
    if pre.spec_paused() {
        Scheduler::same(pre, post) && r is None
    } else {
        Scheduler::next_post(pre, post, r)
    }
}

/// What a tray command does: the rotation after it and the actions it
/// yields.
pub open spec fn command_post(pre: Scheduler, post: Scheduler, cmd: TrayCmd, acts: Seq<Action>) -> bool {
    match cmd {
        TrayCmd::Next => exists|r: Option<String>|
            Scheduler::next_post(pre, post, r) && acts == seq![Action::AbortPrefetch] + apply_opt(r) + seq![
                Action::ResetTimer,
            ],
        TrayCmd::Prev => exists|r: Option<String>|
            Scheduler::prev_post(pre, post, r) && acts == apply_opt(r) + seq![Action::ResetTimer],
        TrayCmd::TogglePause => {
            &&& post.spec_paused() == !pre.spec_paused()
            &&& post.spec_images() == pre.spec_images()
            &&& post.spec_order() == pre.spec_order()
            &&& post.spec_queue() == pre.spec_queue()
            &&& post.spec_history() == pre.spec_history()
            &&& post.spec_current() == pre.spec_current()
            &&& acts == seq![
                Action::PersistState { paused: !pre.spec_paused(), current: pre.spec_current() },
                Action::ShowPaused(!pre.spec_paused()),
            ]
        },
        TrayCmd::SetMode(m) => Scheduler::same(pre, post) && acts == seq![Action::SaveMode(m)] + on_current(
            pre,
            |c: String| Action::Apply(c),
        ),
        TrayCmd::SetInterval(secs) => Scheduler::same(pre, post) && acts == seq![
            Action::SaveInterval(if secs < MIN_INTERVAL_SECS { MIN_INTERVAL_SECS } else { secs }),
        ],
        TrayCmd::OpenCurrent => Scheduler::same(pre, post) && acts == on_current(pre, |c: String| Action::Open(c)),
        TrayCmd::DeleteCurrent => Scheduler::same(pre, post) && acts == on_current(pre, |c: String| Action::Trash(c)),
        TrayCmd::BlacklistCurrent => Scheduler::same(pre, post) && acts == on_current(
            pre,
            |c: String| Action::Blacklist(c),
        ),
        TrayCmd::CopyToFavorites => Scheduler::same(pre, post) && acts == on_current(
            pre,
            |c: String| Action::CopyToFavorites(c),
        ),
        TrayCmd::ReloadConfig => Scheduler::same(pre, post) && acts == seq![Action::Reload],
        TrayCmd::OpenSettings => Scheduler::same(pre, post) && acts == seq![Action::OpenSettings],
        TrayCmd::FetchNow => Scheduler::same(pre, post) && acts == seq![Action::FetchNow],
        TrayCmd::Quit => Scheduler::same(pre, post) && acts == seq![Action::Quit],
        TrayCmd::PlasmaRestarted => Scheduler::same(pre, post) && acts == on_current(pre, |c: String| Action::Apply(c)),
        TrayCmd::ScreensChanged(ms) => Scheduler::same(pre, post) && acts == seq![Action::SetScreens(ms)]
            + on_current(pre, |c: String| Action::Apply(c)),
    }
}

/// The image on screen, copied.
fn current_copy(s: &Scheduler) -> (r: Option<String>)
    ensures
        r == s.spec_current(),
{
    match s.current() {
        Some(c) => Some(c.clone()),
        None => None,
    }
}

/// `f(c)` for the image on screen as a one-element list, or an empty list.
fn one_if_current(s: &Scheduler, kind: u8) -> (v: Vec<Action>)
    requires
        kind < 5,
    ensures
        v@ == on_current(
            *s,
            |c: String|
                if kind == 0 {
                    Action::Apply(c)
                } else if kind == 1 {
                    Action::Open(c)
                } else if kind == 2 {
                    Action::Trash(c)
                } else if kind == 3 {
                    Action::Blacklist(c)
                } else {
                    Action::CopyToFavorites(c)
                },
        ),
{
    let mut v: Vec<Action> = Vec::new();
    match current_copy(s) {
        Some(c) => {
            let a = if kind == 0 {
                Action::Apply(c)
            } else if kind == 1 {
                Action::Open(c)
            } else if kind == 2 {
                Action::Trash(c)
            } else if kind == 3 {
                Action::Blacklist(c)
            } else {
                Action::CopyToFavorites(c)
            };
            v.push(a);
            assert(v@ =~= seq![a]);
        },
        None => {
            assert(v@ =~= Seq::<Action>::empty());
        },
    }
    v
}

/// One tray command (see `command_post`). Commands that need work outside
/// (trash, blacklist, reload, fetch) only yield it; its outcome comes back
/// through `on_trashed`, `on_blacklisted`, `on_rescanned` or `on_fetched`.
pub fn on_command(s: &mut Scheduler, cmd: TrayCmd) -> (acts: Vec<Action>)
    requires
        old(s).wf(),
    ensures
        final(s).wf(),
        command_post(*old(s), *final(s), cmd, acts@),
{
    let ghost pre = *s;
    match cmd {
        TrayCmd::Next => {
            let mut v: Vec<Action> = Vec::new();
            v.push(Action::AbortPrefetch);
            let r = s.next();
            let ghost rr = r;
            match r {
                Some(p) => v.push(Action::Apply(p)),
                None => {},
            }
            v.push(Action::ResetTimer);
            assert(v@ =~= seq![Action::AbortPrefetch] + apply_opt(rr) + seq![Action::ResetTimer]);
            assert(Scheduler::next_post(pre, *s, rr) && v@ == seq![Action::AbortPrefetch] + apply_opt(rr)
                + seq![Action::ResetTimer]);
            v
        },
        TrayCmd::Prev => {
            let mut v: Vec<Action> = Vec::new();
            let r = s.prev();
            let ghost rr = r;
            match r {
                Some(p) => v.push(Action::Apply(p)),
                None => {},
            }
            v.push(Action::ResetTimer);
            assert(v@ =~= apply_opt(rr) + seq![Action::ResetTimer]);
            v
        },
        TrayCmd::TogglePause => {
            if s.is_paused() {
                s.resume();
            } else {
                s.pause();
            }
            let paused = s.is_paused();
            let cur = current_copy(s);
            let v = vec![Action::PersistState { paused, current: cur }, Action::ShowPaused(paused)];
            assert(v@ =~= seq![
                Action::PersistState { paused: !pre.spec_paused(), current: pre.spec_current() },
                Action::ShowPaused(!pre.spec_paused()),
            ]);
            v
        },
        TrayCmd::SetMode(m) => {
            let mut v = vec![Action::SaveMode(m)];
            let ghost v0 = v@;
            let mut rest = one_if_current(s, 0);
            let ghost r0 = rest@;
            v.append(&mut rest);
            assert(on_current(pre, |c: String| Action::Apply(c)) =~= r0);
            assert(v0 =~= seq![Action::SaveMode(m)]);
            assert(v@ =~= seq![Action::SaveMode(m)] + r0);
            v
        },
        TrayCmd::SetInterval(secs) => {
            let v = vec![Action::SaveInterval(crate::control::interval_from_tray(secs))];
            assert(v@ =~= seq![
                Action::SaveInterval(if secs < MIN_INTERVAL_SECS { MIN_INTERVAL_SECS } else { secs }),
            ]);
            v
        },
        TrayCmd::OpenCurrent => {
            let v = one_if_current(s, 1);
            assert(on_current(pre, |c: String| Action::Open(c)) =~= v@);
            v
        },
        TrayCmd::DeleteCurrent => {
            let v = one_if_current(s, 2);
            assert(on_current(pre, |c: String| Action::Trash(c)) =~= v@);
            v
        },
        TrayCmd::BlacklistCurrent => {
            let v = one_if_current(s, 3);
            assert(on_current(pre, |c: String| Action::Blacklist(c)) =~= v@);
            v
        },
        TrayCmd::CopyToFavorites => {
            let v = one_if_current(s, 4);
            assert(on_current(pre, |c: String| Action::CopyToFavorites(c)) =~= v@);
            v
        },
        TrayCmd::ReloadConfig => {
            let v = vec![Action::Reload];
            assert(v@ =~= seq![Action::Reload]);
            v
        },
        TrayCmd::OpenSettings => {
            let v = vec![Action::OpenSettings];
            assert(v@ =~= seq![Action::OpenSettings]);
            v
        },
        TrayCmd::FetchNow => {
            let v = vec![Action::FetchNow];
            assert(v@ =~= seq![Action::FetchNow]);
            v
        },
        TrayCmd::Quit => {
            let v = vec![Action::Quit];
            assert(v@ =~= seq![Action::Quit]);
            v
        },
        TrayCmd::PlasmaRestarted => {
            let v = one_if_current(s, 0);
            assert(on_current(pre, |c: String| Action::Apply(c)) =~= v@);
            v
        },
        TrayCmd::ScreensChanged(ms) => {
            let mut v = vec![Action::SetScreens(ms)];
            let ghost v0 = v@;
            let mut rest = one_if_current(s, 0);
            let ghost r0 = rest@;
            v.append(&mut rest);
            assert(on_current(pre, |c: String| Action::Apply(c)) =~= r0);
            assert(v0 =~= seq![Action::SetScreens(ms)]);
            assert(v@ =~= seq![Action::SetScreens(ms)] + r0);
            v
        },
    }
}

/// What follows when the image `p` is gone for good: it leaves the
/// rotation, the prefetch stops, the next image is shown (or, with
/// `clear_when_none`, the tray shows that none is left), the tray shows
/// the new count and the timer starts over.
pub open spec fn gone_post(
    pre: Scheduler,
    post: Scheduler,
    p: Seq<char>,
    clear_when_none: bool,
    acts: Seq<Action>,
) -> bool {
    exists|mid: Scheduler, r: Option<String>|
        {
            &&& Scheduler::remove_post(pre, mid, p)
            &&& Scheduler::next_post(mid, post, r)
            &&& acts == seq![Action::AbortPrefetch] + (if r is None && clear_when_none {
                seq![Action::ShowNoCurrent]
            } else {
                apply_opt(r)
            }) + seq![Action::ShowCount(post.spec_images().len() as usize), Action::ResetTimer]
        }
}

fn remove_and_advance(s: &mut Scheduler, p: &String, clear_when_none: bool) -> (acts: Vec<Action>)
    requires
        old(s).wf(),
    ensures
        final(s).wf(),
        gone_post(*old(s), *final(s), p@, clear_when_none, acts@),
{
    let ghost pre = *s;
    s.remove_image(p);
    let ghost mid = *s;
    let mut v: Vec<Action> = Vec::new();
    v.push(Action::AbortPrefetch);
    let r = s.next();
    let ghost rr = r;
    let ghost tail = if rr is None && clear_when_none {
        seq![Action::ShowNoCurrent]
    } else {
        apply_opt(rr)
    };
    match r {
        Some(q) => v.push(Action::Apply(q)),
        None => {
            if clear_when_none {
                v.push(Action::ShowNoCurrent);
            }
        },
    }
    let n = s.image_count();
    v.push(Action::ShowCount(n));
    v.push(Action::ResetTimer);
    assert(v@ =~= seq![Action::AbortPrefetch] + tail + seq![
        Action::ShowCount(s.spec_images().len() as usize),
        Action::ResetTimer,
    ]);
    assert(Scheduler::remove_post(pre, mid, p@) && Scheduler::next_post(mid, *s, rr));
    v
}

/// The outcome of moving `p`, the image that was on screen, to the
/// trash: when it worked, `p` leaves the rotation and the next image is
/// shown (see `gone_post`); when it failed, nothing changes.
pub fn on_trashed(s: &mut Scheduler, p: &String, ok: bool) -> (acts: Vec<Action>)
    requires
        old(s).wf(),
    ensures
        final(s).wf(),
        ok ==> gone_post(*old(s), *final(s), p@, false, acts@),
        !ok ==> Scheduler::same(*old(s), *final(s)) && acts@.len() == 0,
{
    if ok {
        remove_and_advance(s, p, false)
    } else {
        Vec::new()
    }
}

/// The outcome of adding `p`, the image that was on screen, to the
/// blacklist: when the file was written, `p` leaves the rotation and the
/// next image is shown, or the tray shows that none is left (see
/// `gone_post`); when it could not be written, nothing changes.
pub fn on_blacklisted(s: &mut Scheduler, p: &String, saved: bool) -> (acts: Vec<Action>)
    requires
        old(s).wf(),
    ensures
        final(s).wf(),
        saved ==> gone_post(*old(s), *final(s), p@, true, acts@),
        !saved ==> Scheduler::same(*old(s), *final(s)) && acts@.len() == 0,
{
    if saved {
        remove_and_advance(s, p, true)
    } else {
        Vec::new()
    }
}

/// `s` is a new rotation over `images` in `order` that keeps the pause of
/// `old` and, when it is still among the images, its image on screen.
pub open spec fn rebuilt(old: Scheduler, s: Scheduler, images: Seq<String>, order: Order) -> bool {
    &&& s.wf()
    &&& s.spec_images() == images
    &&& s.spec_order() == order
    &&& queue_for(images, order, None, s.spec_queue())
    &&& s.spec_history().len() == 0
    &&& s.spec_paused() == old.spec_paused()
    &&& (s.spec_current() is Some <==> (old.spec_current() matches Some(c) && has_path(images, c@)))
    &&& (s.spec_current() matches Some(x) ==> (old.spec_current() matches Some(c) && x@ == c@))
}

/// The rotation after a reload scanned the directories again: `None`
/// (keep the old one) when the scan found no image; otherwise a new
/// rotation over `images` in `order` that keeps the pause and, when it is
/// still among the images, the image on screen.
pub fn on_rescanned(old: &Scheduler, images: Vec<String>, order: Order) -> (r: Option<Scheduler>)
    ensures
        images@.len() == 0 ==> r is None,
        images@.len() > 0 ==> (r matches Some(s) && rebuilt(*old, s, images@, order)),
{
    if images.len() == 0 {
        return None;
    }
    let mut s = Scheduler::new(images, order);
    if old.is_paused() {
        s.pause();
    }
    match current_copy(old) {
        Some(c) => {
            s.restore_current(&c);
        },
        None => {},
    }
    Some(s)
}

/// The rotation timer fired: the next image, unless the rotation is
/// paused.
pub fn on_tick(s: &mut Scheduler) -> (acts: Vec<Action>)
    requires
        old(s).wf(),
    ensures
        final(s).wf(),
        exists|r: Option<String>| auto_post(*old(s), *final(s), r) && acts@ == apply_opt(r),
{
    let r = s.auto_next();
    let ghost rr = r;
    let mut v: Vec<Action> = Vec::new();
    match r {
        Some(p) => v.push(Action::Apply(p)),
        None => {},
    }
    assert(v@ =~= apply_opt(rr));
    v
}

/// What an online fetch does: the images it brought that are not
/// blacklisted join the rotation, the tray shows the new count, the user
/// is told how many were added (when any were), and when nothing was
/// shown and nothing was waiting before, the first of them is shown
/// (unless the rotation is paused).
pub open spec fn fetched_step(
    pre: Scheduler,
    post: Scheduler,
    bl: Set<Seq<(int, Seq<char>)>>,
    new_paths: Seq<String>,
    added: usize,
    acts: Seq<Action>,
) -> bool {
    let ps = unlisted(new_paths, bl);
    let was_empty = pre.spec_current() is None && pre.spec_queue().len() == 0;
    exists|mid: Scheduler, r: Option<String>|
        #![trigger fetched_post(pre, mid, ps), apply_opt(r)]
        {
            &&& fetched_post(pre, mid, ps)
            &&& added == ps.len()
            &&& (was_empty ==> auto_post(mid, post, r))
            &&& (!was_empty ==> post == mid && r is None)
            &&& acts == seq![Action::ShowCount(mid.spec_images().len() as usize)] + (if added > 0 {
                seq![Action::FetchNotice(added)]
            } else {
                Seq::empty()
            }) + apply_opt(r)
        }
}

/// One online fetch result (see `fetched_step`); returns how many images
/// were added and the actions. A fetch that brought nothing changes
/// nothing.
pub fn on_fetched(s: &mut Scheduler, blacklist: &Blacklist, new_paths: &Vec<String>) -> (out: (usize, Vec<Action>))
    requires
        old(s).wf(),
    ensures
        final(s).wf(),
        new_paths@.len() == 0 ==> Scheduler::same(*old(s), *final(s)) && out.0 == 0 && out.1@.len() == 0,
        new_paths@.len() > 0 ==> fetched_step(*old(s), *final(s), blacklist.entries(), new_paths@, out.0, out.1@),
{
    if new_paths.len() == 0 {
        return (0, Vec::new());
    }
    let ghost pre = *s;
    let was_empty = s.current().is_none() && s.peek_next().is_none();
    let added = add_fetched(s, blacklist, new_paths);
    let ghost mid = *s;
    let mut v: Vec<Action> = Vec::new();
    v.push(Action::ShowCount(s.image_count()));
    if added > 0 {
        v.push(Action::FetchNotice(added));
    }
    let ghost head = v@;
    let mut r: Option<String> = None;
    if was_empty {
        r = s.auto_next();
    }
    let ghost rr = r;
    match r {
        Some(p) => v.push(Action::Apply(p)),
        None => {},
    }
    assert(v@ =~= head + apply_opt(rr));
    proof {
        let ps = unlisted(new_paths@, blacklist.entries());
        assert(fetched_post(pre, mid, ps));
        if was_empty {
            assert(auto_post(mid, *s, rr));
        } else {
            assert(*s == mid && rr is None);
        }
        assert(was_empty == (pre.spec_current() is None && pre.spec_queue().len() == 0));
        assert(added == ps.len());
        assert(v@ == seq![Action::ShowCount(mid.spec_images().len() as usize)] + (if added > 0 {
            seq![Action::FetchNotice(added)]
        } else {
            Seq::empty()
        }) + apply_opt(rr));
    }
    assert(head =~= seq![Action::ShowCount(mid.spec_images().len() as usize)] + (if added > 0 {
        seq![Action::FetchNotice(added)]
    } else {
        Seq::empty()
    }));
    (added, v)
}

} // verus!

//! Following the monitor configuration: after each wallpaper change the
//! daemon may detect the monitors again (at most once a minute), and when
//! they differ from the known ones it switches to them and applies the
//! wallpaper again. This also picks up the right resolution when Plasma
//! was not up at start and the fallback was used. With `KABEKAMI_SCREEN`
//! set there is no watching.

use vstd::prelude::*;

use crate::screen::{monitor_views, Monitor};

verus! {

/// The least time between two detections, in nanoseconds.
pub const MIN_INTERVAL_NANOS: u128 = 60_000_000_000;

/// The state of the watcher: the known monitors and the time of the last
/// detection (nanoseconds on the daemon's monotonic clock).
pub struct ScreenWatch {
    current: Vec<Monitor>,
    last_detect: Option<u128>,
}

impl ScreenWatch {
    pub closed spec fn known(self) -> Seq<(Seq<char>, u32, u32)> {
        monitor_views(self.current@)
    }

    pub closed spec fn last(self) -> Option<u128> {
        self.last_detect
    }

    pub fn new(initial: Vec<Monitor>) -> (w: Self)
        ensures
            w.known() == monitor_views(initial@),
            w.last() is None,
    {
        ScreenWatch { current: initial, last_detect: None }
    }

    /// Whether a trigger at `now` leads to a detection: the first one
    /// does, later ones once a minute has passed since the last.
    pub fn should_detect(&self, now: u128) -> (b: bool)
        ensures
            b == match self.last() {
                None => true,
                Some(t) => now >= t + MIN_INTERVAL_NANOS,
            },
    {
        match self.last_detect {
            None => true,
            Some(t) => now >= t && now - t >= MIN_INTERVAL_NANOS,
        }
    }

    /// Takes the monitors detected at `now`: an empty detection (the
    /// detector not answering) changes nothing; a different one becomes
    /// the known configuration and is returned for the daemon to apply.
    pub fn detected(&mut self, found: Vec<Monitor>, now: u128) -> (r: Option<Vec<Monitor>>)
        ensures
            final(self).last() == Some(now),
            match r {
                Some(v) => monitor_views(v@) == monitor_views(found@) && found@.len() > 0
                    && monitor_views(found@) != old(self).known() && final(self).known() == monitor_views(found@),
                None => (found@.len() == 0 || monitor_views(found@) == old(self).known()) && final(self).known()
                    == old(self).known(),
            },
    {
        self.last_detect = Some(now);
        if found.len() == 0 {
            return None;
        }
        if same_monitors(&found, &self.current) {
            return None;
        }
        let copy = clone_monitors(&found);
        self.current = found;
        Some(copy)
    }
}

fn clone_monitors(v: &Vec<Monitor>) -> (r: Vec<Monitor>)
    ensures
        monitor_views(r@) == monitor_views(v@),
{
    let mut r: Vec<Monitor> = Vec::new();
    let mut i: usize = 0;
    while i < v.len()
        invariant
            i <= v@.len(),
            monitor_views(r@) == monitor_views(v@.take(i as int)),
        decreases v.len() - i,
    {
        let m = &v[i];
        let c = Monitor { name: m.name.clone(), width: m.width, height: m.height };
        assert(crate::screen::monitor_view(c) == crate::screen::monitor_view(v@[i as int]));
        let ghost before = r@;
        r.push(c);
        assert(v@.take(i + 1) =~= v@.take(i as int).push(v@[i as int]));
        assert(monitor_views(r@) =~= monitor_views(before).push(crate::screen::monitor_view(c)));
        assert(monitor_views(v@.take(i + 1)) =~= monitor_views(v@.take(i as int)).push(crate::screen::monitor_view(v@[i as int])));
        i = i + 1;
    }
    assert(v@.take(v@.len() as int) =~= v@);
    r
}

/// Whether two monitor lists are the same, monitor by monitor.
pub fn same_monitors(a: &Vec<Monitor>, b: &Vec<Monitor>) -> (r: bool)
    ensures
        r == (monitor_views(a@) == monitor_views(b@)),
{
    if a.len() != b.len() {
        assert(monitor_views(a@).len() != monitor_views(b@).len());
        return false;
    }
    let mut i: usize = 0;
    while i < a.len()
        invariant
            i <= a@.len() == b@.len(),
            forall|k: int| 0 <= k < i ==> monitor_views(a@)[k] == monitor_views(b@)[k],
        decreases a.len() - i,
    {
        if !(crate::text::str_eq(a[i].name.as_str(), b[i].name.as_str()) && a[i].width == b[i].width
            && a[i].height == b[i].height) {
            assert(monitor_views(a@)[i as int] != monitor_views(b@)[i as int]);
            return false;
        }
        i = i + 1;
    }
    assert(monitor_views(a@) =~= monitor_views(b@));
    true
}

} // verus!

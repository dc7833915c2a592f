//! Desktop notifications through `org.freedesktop.Notifications`.
//!
//! An error notification replaces the previous one (its id is passed as
//! `replaces_id`), so that a run of errors shows one notification; it
//! stays in the notification center (`resident`), carries the category
//! `device.error` and, when a file is concerned, its URL
//! (`x-kde-origin-url`). Warnings are collected the same way and expire
//! after five seconds; information notices are never collected.
//!
//! The daemon sends what these functions build and reports the id that
//! came back.

use vstd::prelude::*;

use crate::lang::UiStrings;
use crate::text::{owned, push_str};

verus! {

/// A hint value.
#[derive(Debug, Clone, PartialEq, Eq)]
pub enum Hint {
    Bool(bool),
    Str(String),
}

/// The arguments of one `Notify` call (the application name is always
/// `kabekami`, and there are no actions).
#[derive(Debug)]
pub struct Notification {
    pub icon: String,
    pub summary: String,
    pub body: String,
    /// Milliseconds; -1 for the server's default.
    pub expire_ms: i32,
    pub replaces_id: u32,
    pub hints: Vec<(String, Hint)>,
}

/// Hint `i` of `h` is `key` with the text `value`.
pub open spec fn str_hint(h: Seq<(String, Hint)>, i: int, key: Seq<char>, value: Seq<char>) -> bool {
    &&& h[i].0@ == key
    &&& h[i].1 matches Hint::Str(v) && v@ == value
}

/// The ids of the notifications shown last, and the summaries.
pub struct Notifier {
    /// The id of the last error notification (0: none).
    last_id: u32,
    summary: String,
    /// The id of the last warning notification (0: none).
    warn_last_id: u32,
    warn_summary: String,
}

impl Notifier {
    pub closed spec fn error_id(self) -> u32 {
        self.last_id
    }

    pub closed spec fn warn_id(self) -> u32 {
        self.warn_last_id
    }

    pub closed spec fn summaries(self) -> (Seq<char>, Seq<char>) {
        (self.summary@, self.warn_summary@)
    }

    /// A notifier with the summaries of the language of `t`.
    pub fn new(t: &UiStrings) -> (n: Self)
        ensures
            n.error_id() == 0,
            n.warn_id() == 0,
            n.summaries() == (t.notify_failed@, t.notify_warning@),
    {
        Notifier { last_id: 0, summary: owned(t.notify_failed), warn_last_id: 0, warn_summary: owned(t.notify_warning) }
    }

    /// The error notification for `body`, about the file `origin_path`
    /// if any.
    pub fn error(&self, body: &str, origin_path: Option<&str>) -> (n: Notification)
        ensures
            n.icon@ == "dialog-error"@,
            n.summary@ == self.summaries().0,
            n.body@ == body@,
            n.expire_ms == -1,
            n.replaces_id == self.error_id(),
            n.hints@.len() == (if origin_path is Some {
                3int
            } else {
                2int
            }),
            n.hints@[0].0@ == "resident"@ && n.hints@[0].1 == Hint::Bool(true),
            str_hint(n.hints@, 1, "category"@, "device.error"@),
            origin_path matches Some(p) ==> str_hint(n.hints@, 2, "x-kde-origin-url"@, "file://"@ + p@),
    {
        let mut hints: Vec<(String, Hint)> = Vec::new();
        hints.push((owned("resident"), Hint::Bool(true)));
        hints.push((owned("category"), Hint::Str(owned("device.error"))));
        if let Some(p) = origin_path {
            let mut url = owned("file://");
            push_str(&mut url, p);
            hints.push((owned("x-kde-origin-url"), Hint::Str(url)));
        }
        Notification {
            icon: owned("dialog-error"),
            summary: self.summary.clone(),
            body: owned(body),
            expire_ms: -1,
            replaces_id: self.last_id,
            hints,
        }
    }

    /// Records the id the server gave the error notification: the next
    /// one replaces it.
    pub fn error_shown(&mut self, id: u32)
        ensures
            final(self).error_id() == id,
            final(self).warn_id() == old(self).warn_id(),
            final(self).summaries() == old(self).summaries(),
    {
        self.last_id = id;
    }

    /// The error is over: the next error notification is a new one.
    pub fn clear(&mut self)
        ensures
            final(self).error_id() == 0,
            final(self).warn_id() == old(self).warn_id(),
            final(self).summaries() == old(self).summaries(),
    {
        self.last_id = 0;
    }

    /// The warning notification for `body`.
    pub fn warn(&self, body: &str) -> (n: Notification)
        ensures
            n.icon@ == "dialog-warning"@,
            n.summary@ == self.summaries().1,
            n.body@ == body@,
            n.expire_ms == 5000,
            n.replaces_id == self.warn_id(),
            n.hints@.len() == 1,
            str_hint(n.hints@, 0, "category"@, "device.warning"@),
    {
        let mut hints: Vec<(String, Hint)> = Vec::new();
        hints.push((owned("category"), Hint::Str(owned("device.warning"))));
        Notification {
            icon: owned("dialog-warning"),
            summary: self.warn_summary.clone(),
            body: owned(body),
            expire_ms: 5000,
            replaces_id: self.warn_last_id,
            hints,
        }
    }

    /// Records the id the server gave the warning notification.
    pub fn warn_shown(&mut self, id: u32)
        ensures
            final(self).warn_id() == id,
            final(self).error_id() == old(self).error_id(),
            final(self).summaries() == old(self).summaries(),
    {
        self.warn_last_id = id;
    }
}

/// An information notice, such as the summary of an online fetch: it
/// expires after five seconds and never replaces another.
pub fn info(summary: &str, body: &str) -> (n: Notification)
    ensures
        n.icon@ == "preferences-desktop-wallpaper"@,
        n.summary@ == summary@,
        n.body@ == body@,
        n.expire_ms == 5000,
        n.replaces_id == 0,
        n.hints@.len() == 0,
{
    Notification {
        icon: owned("preferences-desktop-wallpaper"),
        summary: owned(summary),
        body: owned(body),
        expire_ms: 5000,
        replaces_id: 0,
        hints: Vec::new(),
    }
}

} // verus!

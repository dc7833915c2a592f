//! kabekami: the rules of a KDE Plasma wallpaper rotation daemon.
//!
//! The daemon itself (D-Bus, tray icon, timers, file system, image
//! processing) lives around this library; the library holds the decisions:
//! the rotation queue, configuration defaults and normalisation, the
//! parsers for screen descriptions, the host checks for downloads, the
//! language tables and the small state machines of the daemon.

mod text;

pub mod config;
pub mod scheduler;
pub mod screen;
pub mod provider;
pub mod lang;
pub mod i18n;
pub mod blacklist;
pub mod state;
pub mod scanner;
pub mod plasma;
pub mod tray;
pub mod watcher;
pub mod daemon;
pub mod cache;
pub mod session;
pub mod shortcuts;
pub mod screen_watcher;
pub mod notify;
pub mod control;
pub mod layout;
pub mod dispatch;
pub mod shuffle;

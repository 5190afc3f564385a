//! A notifier that turns RSS feed entries into Discord messages, with the
//! configuration checks, message formatting, duplicate tracking and
//! bookmark-count parsing that decide what gets posted.

pub mod text;
pub mod decimal;
pub mod hatena;
pub mod config;
pub mod state;
pub mod time;
pub mod rss;
pub mod formatter;
pub mod google_alert;
pub mod notify;
pub mod mentions;

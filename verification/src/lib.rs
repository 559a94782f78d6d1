//! Core of a kiosk-style time-and-attendance terminal: employees tap an RFID
//! badge, the terminal reports the scan to an attendance server, and when the
//! server is unreachable it buffers scans locally and replays them in order.
//!
//! This crate holds the verified event core: the screen state machine, the
//! bounded FIFO offline buffer, the sync-pass replay policy, the badge
//! debouncer, the API response classification and retry discipline, and the
//! wire formats (the JSON scan protocol and RFC 3339 UTC timestamps).
//! Process shells around it (HTTP, the database file, the badge reader
//! thread, rendering, audio) live outside and drive this core with plain
//! values.

pub mod api;
pub mod buffer;
pub mod config;
pub mod json;
pub mod machine;
pub mod rfid;
pub mod screens;
pub mod strutil;
pub mod sync_worker;
pub mod timestamp;

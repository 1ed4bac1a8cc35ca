//! Verified core of a desktop sticky-notes application: the note model, the
//! last-writer-wins merge used by WebDAV synchronisation, the decisions of the
//! synchronisation engine, CSV export and the query logic over stored notes.
pub mod text;
pub mod db;
pub mod sync;
pub mod commands;
pub mod sync_cmd;
pub mod win32;
pub mod tray_icon;

//! Appends timestamped memos to date-named Markdown notes.
//!
//! The library holds the verified logic: the heading-boundary scan that finds
//! where an entry goes, the splice that inserts it, date-template expansion,
//! note-path construction and the settings and error types.  File access,
//! settings parsing and the command line live in the application around it.
pub mod config;
pub mod memo;
pub mod obsidian;
pub mod path;
pub mod text;

//! The ranking core of an application launcher: fuzzy matching of entries
//! against a query, their ranking, command mode, and a launch history.
pub mod entry;
pub mod history;
pub mod launcher;
pub mod matcher;
pub mod text;

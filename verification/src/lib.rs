//! Core logic of a directory organizer: files in a working directory are
//! classified by media type and regrouped into one subdirectory per type
//! label.
//!
//! The library holds everything that can be stated and proved over plain
//! values: turning raw classifier output into a filesystem-safe label
//! (`label`), the fixed exclusion rules applied to file names (`pattern`),
//! grouping scanned entries into a move plan (`plan`), and deriving the
//! filesystem actions a plan calls for (`actions`). The surrounding binary
//! performs the actual I/O: enumerating the directory, invoking the external
//! classifier, creating directories and renaming files.

pub mod actions;
pub mod label;
pub mod laws;
pub mod pattern;
pub mod plan;

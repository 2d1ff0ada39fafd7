//! Inspect and edit a colon-delimited search-path string (the POSIX `PATH`
//! convention): split and join path lists, find verbatim and resolved
//! duplicates, deduplicate while preserving order, probe directories, and
//! validate new entries before they are appended or prepended.

pub mod addition;
pub mod codec;
pub mod dups;
pub mod probe;
pub mod strs;

//! A page-break preprocessor for rendered book sources.
//!
//! Chapter text may carry the marker token `{{---}}`. Wherever that token
//! begins a line it stands for an intended page break: depending on the
//! target output format it is replaced by an HTML fragment or removed.
//! Occurrences that do not begin a line are left untouched.

pub mod book;
pub mod preprocessor;
pub mod replacer;

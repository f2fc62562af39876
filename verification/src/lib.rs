//! Walks a directory tree under a concurrency limit, selects files by a match
//! rule and brings each selected file to UTF-8.
//!
//! The crate holds the decisions only: which entries become work, when a unit
//! of work may start, and what a file's bytes become. Reading directories and
//! files, and running the work concurrently, is left to the caller, who feeds
//! the results back.

pub mod cmd;
pub mod text;
pub mod utf8s;

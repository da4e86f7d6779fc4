//! A verified line-search library: given a literal pattern, a set of boolean
//! flags and a list of named text inputs, it returns the lines that match,
//! optionally prefixed with their file name and 1-based line number.
//!
//! Reading files from disk is left to the caller; the library works on the
//! file contents as plain strings, so that every decision it makes is
//! verified.

pub mod laws;
pub mod lines;
pub mod matching;
pub mod render;
pub mod search;

pub use lines::split_lines;
pub use matching::Flags;
pub use matching::line_contains;
pub use matching::line_equals;
pub use matching::line_matches;
pub use matching::matches_line;
pub use search::GrepError;
pub use search::collect_contents;
pub use search::do_the_thing;
pub use search::file_matches;
pub use search::grep;
pub use search::grep_reads;

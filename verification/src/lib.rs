//! A breadth-first search over a directory tree, bounded by a maximum depth,
//! that reports the entries whose base name matches a regular expression.
//!
//! The traversal engine itself is a step machine in [`engine`]: a driver
//! (the command-line front end) asks it for the next frontier path, performs
//! the filesystem lookups, and hands the answers back to [`engine::Searcher::step`],
//! which makes every decision: whether the entry is reported, and which
//! children enter the queue at which depth.

pub mod engine;
pub mod matcher;
pub mod paths;

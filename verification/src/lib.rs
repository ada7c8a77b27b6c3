//! Interactive find and replace: the verified core.
//!
//! A corpus of text files is scanned for the matches of a list of
//! find/replace patterns. Every match becomes a hit that the user takes,
//! skips or leaves undecided, and a commit rewrites exactly the taken matches.
//! Nothing here touches a terminal or a file system: callers hand over file
//! contents and key events as plain values and receive the rows to paint and
//! the file contents to write.
//!
//! - [`text`]: characters, lines, trimming, numerals
//! - [`model`]: patterns, files, hits and their views
//! - [`pattern`]: reading and compiling the find/replace pairs
//! - [`matcher`]: the matches of a pattern in a line, by the `regex` crate
//! - [`scan`]: from a corpus to its hits
//! - [`app`], [`app_laws`]: the session, its commands and what holds of them
//! - [`viewport`]: the window that keeps the cursor in the middle
//! - [`ui`]: the rows that a session shows
//! - [`commit`], [`commit_laws`]: the new contents of the files, and what
//!   holds of them

pub mod app;
pub mod app_laws;
pub mod commit;
pub mod commit_laws;
pub mod matcher;
pub mod model;
pub mod pattern;
pub mod scan;
pub mod text;
pub mod ui;
pub mod viewport;

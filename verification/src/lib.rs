//! Locates requirement markers, such as `REQ-123`, in the comments of source
//! files of many languages, records the code around each occurrence and the
//! named scopes that enclose it, and attributes occurrences to the revision
//! history.
//!
//! The scanner ([`scan`]) reads a parse tree as an arena of nodes
//! ([`scan::tree`]), finds the comment nodes ([`scan::comments`]), matches
//! the marker pattern in their text ([`scan::marker`]), and records each
//! identifier once for a line of a file ([`scan::dedup`]) together with its
//! contexts ([`scan::context`]) and its scope chain ([`scan::scope`]). The
//! result is a mapping from identifiers to occurrences ([`scan::result`]).
//!
//! The attribution engine ([`git`]) derives one history query for each file
//! with occurrences, reads the tool's per-line output, and assigns each
//! occurrence the record of its line. [`filter`] decides which files a scan
//! takes in, [`path`] says where a file lies below the scan root, [`config`]
//! combines the command line with a configuration file, and [`output`]
//! writes reports through the JSON writer of [`json`].
//!
//! The library does no input or output of its own: files are handed to it
//! as text, and the outcomes of queries to the history tool as values.

pub mod args;
pub mod config;
pub mod filter;
pub mod git;
pub mod json;
pub mod output;
pub mod path;
pub mod scan;
pub mod search;
pub mod text;

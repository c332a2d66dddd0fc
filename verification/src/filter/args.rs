//! The file filter's settings.

use vstd::prelude::*;

verus! {

/// Which files a scan takes in.
#[derive(Debug, Default)]
pub struct FilterArgs {
    /// Take in files that are marked as vendored.
    pub include_vendored: bool,
    /// Take in files that are marked as generated.
    pub include_generated: bool,
    /// Walk into submodules.
    pub include_submodules: bool,
    /// If not empty, take in only files that match one of these patterns.
    pub include_globs: Vec<String>,
    /// Leave out files that match one of these patterns.
    pub exclude_globs: Vec<String>,
}

} // verus!

//! The settings given on the command line.

use crate::filter::FilterArgs;
use crate::output::OutputFormat;
use crate::scan::ScanArgs;
use vstd::prelude::*;

verus! {

/// What the command line says. A setting that the command line leaves open
/// is taken from the configuration file, or has its default.
#[derive(Debug)]
pub struct Args {
    /// The root directory to scan.
    pub root: Option<String>,
    /// A file to write the report to, besides the standard output.
    pub output: Option<String>,
    /// Do not print the report.
    pub quiet: bool,
    /// Do not look for a configuration file.
    pub no_config: bool,
    /// The form of the report.
    pub format: Option<OutputFormat>,
    /// Add the state of the repository to the report.
    pub include_git_meta: bool,
    /// Attribute every occurrence to the revision that last changed its line.
    pub include_blame: bool,
    /// Which files are taken in.
    pub filter: FilterArgs,
    /// What is looked for.
    pub scan: ScanArgs,
}

} // verus!

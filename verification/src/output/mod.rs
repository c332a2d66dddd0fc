//! The reports: the result mapping written as JSON, as JSON lines, as CSV
//! and as SARIF.

pub mod csv;
pub mod jsonl;
pub mod records;
pub mod sarif;

pub use crate::json::OutputError;
pub use csv::{csv_escape, format_csv};
pub use jsonl::format_jsonl;
pub use records::format_json;
pub use sarif::format_sarif;

use crate::git::{GitMeta, GitMetaView};
use crate::json::{rendered};
use crate::output::csv::{csv_lines};
use crate::output::jsonl::{jsonl_lines};
use crate::output::records::{meta_view, report_tokens};
use crate::output::sarif::sarif_tokens;
use crate::scan::result::{GroupView, ScanResult};
use crate::text::join;
use vstd::prelude::*;

verus! {

/// The form of a report.
#[derive(Clone, Copy, Debug, PartialEq, Eq, Structural)]
pub enum OutputFormat {
    Json,
    Jsonl,
    Csv,
    Sarif,
}

/// The text of a report in the given form.
pub open spec fn report_text(
    format: OutputFormat,
    meta: Option<GitMetaView>,
    groups: Seq<GroupView>,
) -> Seq<char> {
    match format {
        OutputFormat::Json => rendered(report_tokens(meta, groups), true),
        OutputFormat::Jsonl => join(jsonl_lines(meta, groups), "\n"@),
        OutputFormat::Csv => join(csv_lines(meta, groups), "\n"@),
        OutputFormat::Sarif => rendered(sarif_tokens(meta, groups), true),
    }
}

/// Writes the report on `results` in the given form, with the repository
/// state if it is given. Writing never fails.
pub fn format_output(format: OutputFormat, meta: Option<&GitMeta>, results: &ScanResult) -> (r:
    Result<String, OutputError>)
    ensures
        r is Ok,
        r->Ok_0@ == report_text(format, meta_view(meta), results.groups()),
{
    match format {
        OutputFormat::Json => format_json(meta, results),
        OutputFormat::Jsonl => format_jsonl(meta, results),
        OutputFormat::Csv => format_csv(meta, results),
        OutputFormat::Sarif => format_sarif(meta, results),
    }
}

} // verus!

//! The scanner's settings.

use vstd::prelude::*;

verus! {

/// What to look for: the marker prefixes. A prefix `REQ` finds identifiers
/// such as `REQ-123`.
#[derive(Debug)]
pub struct ScanArgs {
    pub slug: Vec<String>,
}

} // verus!

//! The ways in which a scan fails.

use vstd::prelude::*;
use vstd::string::StringExecFns;

verus! {

/// A failure that ends a scan.
#[derive(Debug)]
pub enum ScanError {
    /// No marker prefix was configured.
    NoMarkers,
    /// The marker prefixes do not make a pattern that compiles.
    InvalidPattern { message: String },
    /// A selected file could not be read.
    ReadFile { path: String, message: String },
}

impl ScanError {
    /// The message shown to the user.
    pub fn message(&self) -> (r: String)
        ensures
            r@ == self.message_text(),
    {
        match self {
            ScanError::NoMarkers => "no slug pattern given".to_owned(),
            ScanError::InvalidPattern { message } => {
                let mut r = "invalid slug pattern: ".to_owned();
                r.append(message.as_str());
                r
            },
            ScanError::ReadFile { path, message } => {
                let mut r = "failed to read file ".to_owned();
                r.append(path.as_str());
                r.append(": ");
                r.append(message.as_str());
                r
            },
        }
    }

    /// The text of the message.
    pub open spec fn message_text(&self) -> Seq<char> {
        match self {
            ScanError::NoMarkers => "no slug pattern given"@,
            ScanError::InvalidPattern { message } => "invalid slug pattern: "@ + message@,
            ScanError::ReadFile { path, message } => "failed to read file "@ + path@ + ": "@
                + message@,
        }
    }
}

} // verus!

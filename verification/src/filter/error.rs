//! The ways in which collecting files fails.

use vstd::prelude::*;
use vstd::string::StringExecFns;

verus! {

/// A failure that ends the collection of files.
#[derive(Debug)]
pub enum FilterError {
    /// The directory walk failed.
    Walk { message: String },
    /// A pattern of the settings is no valid glob.
    Pattern { pattern: String, message: String },
}

impl FilterError {
    /// The text of the message shown to the user.
    pub open spec fn message_text(&self) -> Seq<char> {
        match self {
            FilterError::Walk { message } => "failed to walk directory: "@ + message@,
            FilterError::Pattern { pattern, message } => "invalid glob pattern "@ + pattern@
                + ": "@ + message@,
        }
    }

    /// The message shown to the user.
    pub fn message(&self) -> (r: String)
        ensures
            r@ == self.message_text(),
    {
        match self {
            FilterError::Walk { message } => {
                let mut r = "failed to walk directory: ".to_owned();
                r.append(message.as_str());
                r
            },
            FilterError::Pattern { pattern, message } => {
                let mut r = "invalid glob pattern ".to_owned();
                r.append(pattern.as_str());
                r.append(": ");
                r.append(message.as_str());
                r
            },
        }
    }
}

} // verus!

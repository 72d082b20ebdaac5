//! What can go wrong before any project is touched.

use vstd::prelude::*;
use vstd::string::*;

verus! {

/// A failure that ends the invocation.
#[derive(Debug, Clone, Copy, PartialEq, Eq, Structural)]
pub enum SwitchError {
    /// The user's configuration directory cannot be determined.
    NoConfigDir,
    /// The path of the login shell has no file name.
    NoShellName,
}

impl SwitchError {
    /// The text that describes the failure.
    pub open spec fn message_text(self) -> Seq<char> {
        match self {
            SwitchError::NoConfigDir => "Could not find config directory"@,
            SwitchError::NoShellName => "Failed to get shell file name"@,
        }
    }

    /// The text that describes the failure.
    pub fn message(&self) -> (m: String)
        ensures
            m@ == self.message_text(),
    {
        match self {
            SwitchError::NoConfigDir => "Could not find config directory".to_owned(),
            SwitchError::NoShellName => "Failed to get shell file name".to_owned(),
        }
    }
}

} // verus!

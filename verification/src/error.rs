//! Why a model could not be read.

use vstd::prelude::*;
use vstd::string::StringExecFns;

verus! {

/// Why a model could not be read.
#[derive(Clone, Copy, Debug, PartialEq, Eq, Structural)]
pub enum ObjLoadError {
    /// The path cannot name a file, or the file could not be opened.
    InvalidPath,
    /// The model was opened and could not be read to its end.
    ParsingFailed,
}

impl ObjLoadError {
    /// The text that stands for the error: the name of its variant.
    pub open spec fn text(self) -> Seq<char> {
        match self {
            ObjLoadError::InvalidPath => "InvalidPath"@,
            ObjLoadError::ParsingFailed => "ParsingFailed"@,
        }
    }

    /// The error as text: the name of its variant.
    pub fn to_string(&self) -> (s: String)
        ensures
            s@ == self.text(),
    {
        match self {
            ObjLoadError::InvalidPath => String::from_str("InvalidPath"),
            ObjLoadError::ParsingFailed => String::from_str("ParsingFailed"),
        }
    }
}

} // verus!

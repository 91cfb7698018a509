//! What can go wrong in a run.

use vstd::prelude::*;

verus! {

/// The errors of the library.
#[derive(Debug)]
pub enum Error {
    /// Reading or writing failed; the text says how.
    Io(String),
    /// The path cannot be used; the text is the path.
    InvalidPath(String),
    /// No file was left to count.
    NoSourceFiles,
    /// The configuration cannot be used; the text says why.
    InvalidConfig(String),
}

impl Error {
    /// What the error says, as a sequence of characters.
    pub open spec fn text(self) -> Seq<char> {
        match self {
            Error::Io(cause) => "IO error: "@ + cause@,
            Error::InvalidPath(path) => "Invalid path: "@ + path@,
            Error::NoSourceFiles => "No source files found"@,
            Error::InvalidConfig(reason) => "Invalid configuration: "@ + reason@,
        }
    }

    /// What the error says.
    pub fn message(&self) -> (r: String)
        ensures
            r@ == self.text(),
    {
        match self {
            Error::Io(cause) => String::from_str("IO error: ").concat(cause.as_str()),
            Error::InvalidPath(path) => String::from_str("Invalid path: ").concat(path.as_str()),
            Error::NoSourceFiles => String::from_str("No source files found"),
            Error::InvalidConfig(reason) => String::from_str("Invalid configuration: ").concat(
                reason.as_str(),
            ),
        }
    }
}

} // verus!

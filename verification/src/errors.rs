//! The fatal conditions of the supervisor.

use vstd::prelude::*;
use vstd::string::*;

verus! {

/// A condition that ends the whole program.
#[derive(Debug, PartialEq)]
pub enum Error {
    /// The watch root does not exist or cannot be examined.
    PathProblem,
    /// The output stream of a spawned child could not be obtained.
    FailedStdoutCapture,
    /// A required command-line option, given by its long name, is absent.
    MissingArg(String),
}

/// The one-line description of an error.
pub open spec fn message_text(e: Error) -> Seq<char> {
    match e {
        Error::PathProblem => "Dir does not exist or insufficient permissions."@,
        Error::FailedStdoutCapture => "Failed to capture parent's stdout."@,
        Error::MissingArg(name) => "Missing -"@ + name@ + " argument."@,
    }
}

impl Error {
    /// The text shown to the user when this error ends the program.
    pub fn message(&self) -> (text: String)
        ensures
            text@ == message_text(*self),
    {
        match self {
            Error::PathProblem => String::from_str(
                "Dir does not exist or insufficient permissions.",
            ),
            Error::FailedStdoutCapture => String::from_str("Failed to capture parent's stdout."),
            Error::MissingArg(name) => {
                let head = String::from_str("Missing -");
                let body = head.concat(name.as_str());
                body.concat(" argument.")
            },
        }
    }
}

} // verus!

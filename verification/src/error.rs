//! Errors of the library's own logic.
use vstd::prelude::*;

verus! {

/// What went wrong in a decision of the library.
#[derive(Debug, Clone, PartialEq, Eq)]
pub enum BitpartError {
    /// The conversation interpreter cannot go on (unknown flow, bad event...).
    Interpreter(String),
    /// A bot or bot version that was asked for is not there.
    Manager(String),
    /// The Signal channel got something it cannot handle.
    Signal(String),
    /// A value could not be read from or written as JSON.
    Serde,
    /// A user id is neither a UUID nor a group master key of 32 bytes.
    InvalidRecipient,
}

} // verus!

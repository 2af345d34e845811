//! The error reported for a structurally inconsistent Markdown event stream.

use vstd::prelude::*;

verus! {

/// A structural inconsistency in the Markdown event stream.
#[derive(Debug, Clone, PartialEq, Eq)]
pub struct ParseError {
    message: String,
}

impl ParseError {
    /// The description of the inconsistency.
    pub closed spec fn spec_message(&self) -> Seq<char> {
        self.message@
    }

    /// Creates an error with the given description.
    pub fn new(message: &str) -> (r: Self)
        ensures
            r.spec_message() == message@,
    {
        ParseError { message: message.to_string() }
    }

    /// Returns the description of the inconsistency.
    pub fn message(&self) -> (r: &str)
        ensures
            r@ == self.spec_message(),
    {
        self.message.as_str()
    }
}

} // verus!

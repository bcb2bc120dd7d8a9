//! Error type of the parsers.
use vstd::prelude::*;

verus! {

/// Error raised when a post or list file cannot be parsed.
///
/// It holds a message that describes the error in more detail.
#[derive(Debug)]
pub struct ParseError(pub String);

impl ParseError {
    /// Builds an error with the given message.
    pub fn new(message: &str) -> (e: ParseError)
        ensures
            e.0@ == message@,
    {
        ParseError(String::from_str(message))
    }

    /// The text shown for this error: `Parse error: ` and the message.
    pub fn to_string(&self) -> (s: String)
        ensures
            s@ == "Parse error: "@ + self.0@,
    {
        let mut s = String::from_str("Parse error: ");
        s.append(self.0.as_str());
        s
    }
}

} // verus!

//! The error type of a second, serde-style JSON exercise: a free-form
//! message next to a handful of fixed decoding failures.

use vstd::prelude::*;

verus! {

#[derive(Debug)]
pub enum Error {
    Message(String),
    Eof,
    ExpectedMap,
    ExpectedMapComma,
    ExpectedMapColon,
    ExpectedMapEnd,
    TrailingCharacters,
}

impl Error {
    /// Wraps a caller-supplied message, the way a serializer framework
    /// reports custom failures.
    pub fn custom(msg: String) -> (r: Error)
        ensures
            r == Error::Message(msg),
    {
        Error::Message(msg)
    }

    /// The display text: the carried message, a note about trailing
    /// characters, or a bare end-of-input marker for everything else.
    pub fn message(&self) -> (r: String)
        ensures
            self is Message ==> r@ == self->Message_0@,
            self is TrailingCharacters ==> r@ == "trailing characters"@,
            !(self is Message) && !(self is TrailingCharacters) ==> r@ == "EOF"@,
    {
        match self {
            Error::Message(msg) => msg.clone(),
            Error::TrailingCharacters => "trailing characters".to_owned(),
            _ => "EOF".to_owned(),
        }
    }
}

} // verus!

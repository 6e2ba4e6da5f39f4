//! What can go wrong while decoding: the end of input arriving early, or a
//! token other than the expected one.

use vstd::prelude::*;

verus! {

#[derive(Debug, PartialEq, Eq, Structural, Clone, Copy)]
pub enum Error {
    Eof,
    ExpectedBoolean,
    ExpectedInteger,
    ExpectedString,
    ExpectedArray,
    ExpectedArrayComma,
    ExpectedArrayEnd,
    ExpectedMap,
    ExpectedMapComma,
    ExpectedMapColon,
    ExpectedMapEnd,
}

impl Error {
    /// A short description; every variant reads the same way.
    pub fn message(&self) -> (r: String)
        ensures
            r@ == "Error"@,
    {
        "Error".to_owned()
    }
}

} // verus!

use vstd::prelude::*;

verus! {

/// Why a font, a table or a field could not be decoded.
#[derive(Debug, Clone, Copy, PartialEq, Eq, Structural)]
pub enum FontParseError {
    /// A required byte range reaches past the end of the data at hand.
    UnexpectedEof,
}

/// No glyph is registered for a variation sequence.
#[derive(Debug, Clone, Copy, PartialEq, Eq, Structural)]
pub struct NotFound;

impl FontParseError {
    /// The message that describes the failure.
    pub fn message(&self) -> (text: &'static str)
        ensures
            text@ == "unexpected end of file"@,
    {
        "unexpected end of file"
    }
}

} // verus!

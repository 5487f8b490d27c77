use vstd::prelude::*;

verus! {

/// Where a token or a fault sits in the source text: a 1-based line and
/// column, and the 0-based index of the character.
#[derive(Debug, PartialEq, Eq, Structural, Clone, Copy)]
pub struct JsonTokenInfo {
    pub line: i64,
    pub column: i64,
    pub char: i64,
}

impl JsonTokenInfo {
    pub fn new(line: i64, column: i64, char: i64) -> (r: JsonTokenInfo)
        ensures
            r.line == line,
            r.column == column,
            r.char == char,
    {
        JsonTokenInfo { line, column, char }
    }
}

/// The lexical faults, each with the location where it was found.
#[derive(Debug, PartialEq, Eq)]
pub enum Error {
    MultipleDecimalSeparators(JsonTokenInfo),
    DecimalAfterExponent(JsonTokenInfo),
    InvalidNumberCharacter(JsonTokenInfo, char),
    MultipleExponentCharacters(JsonTokenInfo),
    UnknownJsonCharacter(JsonTokenInfo, char),
    UnclosedString(JsonTokenInfo),
    NumbersCannotStartWithZero(JsonTokenInfo),
    InvalidJson { location: JsonTokenInfo, message: String },
}

} // verus!

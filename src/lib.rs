//! A single-pass scanner that splits JSON text into located tokens, and the
//! value-tree types that a structural parser over those tokens produces.
use vstd::prelude::*;

pub mod shared;
pub mod tokenizer;
pub mod laws;

use crate::shared::{Error, JsonTokenInfo};

verus! {

/// The kind of a scalar JSON value.
#[derive(Debug, PartialEq, Eq)]
pub enum JsonValue {
    String,
    Float,
    Int,
    Bool,
}

/// One key of an object and the structure of its value.
#[derive(Debug, PartialEq, Eq)]
pub struct JsonPair {
    pub key: String,
    pub value: Box<JsonStructure>,
}

/// The shape of a JSON document.
#[derive(Debug, PartialEq, Eq)]
pub enum JsonStructure {
    Array(Box<JsonStructure>),
    // dictionaries and objects are kept apart: they are rendered as
    // slightly different types
    Dictionary(JsonPair),
    Object(Vec<JsonPair>),
    Value(JsonValue),
    Unknown,
}

/// Assembling a value tree from the token stream is not provided yet: every
/// call fails with `InvalidJson` at location (0, 0, 0) and the message
/// "Not implemented".
pub fn convert_sample_json(json: &str) -> (r: Result<JsonStructure, Error>)
    ensures
        (r matches Err(Error::InvalidJson { location, message }) && location == (JsonTokenInfo {
            line: 0,
            column: 0,
            char: 0,
        }) && message@ == "Not implemented"@),
{
    broadcast use vstd::string::to_string_from_display_ensures_for_str;

    Err(
        Error::InvalidJson {
            location: JsonTokenInfo::new(0, 0, 0),
            message: "Not implemented".to_string(),
        },
    )
}

} // verus!

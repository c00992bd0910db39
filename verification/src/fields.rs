//! The API's stringly-typed fields: booleans written as `"0"` / `"1"` and
//! numbers (platform, car count, delay) written as numeric strings.

use vstd::prelude::*;
use vstd::string::*;

use crate::decimal::{parse_decimal, parse_unsigned, IntErrorKind};
use crate::text::str_eq;

verus! {

/// Why a field's text was rejected.
#[derive(Debug, Clone)]
pub enum FieldError {
    /// A flag was neither `"0"` nor `"1"`; holds the text that was found.
    NotAFlag(String),
    /// A numeric field was not a number that fits its type.
    Number(IntErrorKind),
}

impl FieldError {
    pub open spec fn spec_text(self) -> Seq<char> {
        match self {
            FieldError::NotAFlag(s) => "expected '0' or '1', got '"@ + s@ + "'"@,
            FieldError::Number(k) => k.spec_message(),
        }
    }

    /// Describes the error.
    pub fn to_string(&self) -> (s: String)
        ensures
            s@ == self.spec_text(),
    {
        match self {
            FieldError::NotAFlag(t) => {
                let mut s = "expected '0' or '1', got '".to_owned();
                s.append(t.as_str());
                s.append("'");
                s
            },
            FieldError::Number(k) => k.message().to_owned(),
        }
    }
}

/// Reads a flag: `"1"` is true, `"0"` is false, anything else is an error
/// that carries the text.
pub fn flag_bool(s: &str) -> (r: Result<bool, FieldError>)
    ensures
        s@ == "1"@ ==> r == Ok::<bool, FieldError>(true),
        s@ == "0"@ ==> r == Ok::<bool, FieldError>(false),
        s@ != "1"@ && s@ != "0"@ ==> (r matches Err(FieldError::NotAFlag(t)) && t@ == s@),
{
    proof {
        reveal_strlit("0");
        reveal_strlit("1");
        assert("0"@[0] != "1"@[0]);
    }
    if str_eq(s, "1") {
        Ok(true)
    } else if str_eq(s, "0") {
        Ok(false)
    } else {
        Err(FieldError::NotAFlag(s.to_owned()))
    }
}

/// Reads a numeric field that must fit in a `u8`.
pub fn numeric_str_u8(s: &str) -> (r: Result<u8, FieldError>)
    ensures
        match parse_unsigned(s.spec_bytes(), u8::MAX as nat) {
            Ok(n) => r == Ok::<u8, FieldError>(n as u8),
            Err(k) => r == Err::<u8, FieldError>(FieldError::Number(k)),
        },
{
    match parse_decimal(s, 255) {
        Ok(n) => Ok(n as u8),
        Err(k) => Err(FieldError::Number(k)),
    }
}

/// Reads a numeric field that must fit in a `u32`.
pub fn numeric_str_u32(s: &str) -> (r: Result<u32, FieldError>)
    ensures
        match parse_unsigned(s.spec_bytes(), u32::MAX as nat) {
            Ok(n) => r == Ok::<u32, FieldError>(n as u32),
            Err(k) => r == Err::<u32, FieldError>(FieldError::Number(k)),
        },
{
    match parse_decimal(s, u32::MAX) {
        Ok(n) => Ok(n),
        Err(k) => Err(FieldError::Number(k)),
    }
}

} // verus!

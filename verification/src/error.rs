//! Error types for the BART client.

use vstd::prelude::*;
use vstd::string::*;

verus! {

/// Errors that can occur when using the BART client.
#[derive(Debug, Clone)]
pub enum Error {
    /// An HTTP or network-level error, with its description.
    Http(String),
    /// A JSON deserialization error (unexpected response shape), with its description.
    Json(String),
    /// An error returned by the BART API itself.
    Api(String),
}

impl Error {
    /// The text that describes the error.
    pub open spec fn spec_text(self) -> Seq<char> {
        match self {
            Error::Http(m) => "HTTP error: "@ + m@,
            Error::Json(m) => "JSON error: "@ + m@,
            Error::Api(m) => "API error: "@ + m@,
        }
    }

    /// Describes the error, as `Display` does for the client's errors.
    pub fn to_string(&self) -> (s: String)
        ensures
            s@ == self.spec_text(),
    {
        let (mut s, m) = match self {
            Error::Http(m) => ("HTTP error: ".to_owned(), m),
            Error::Json(m) => ("JSON error: ".to_owned(), m),
            Error::Api(m) => ("API error: ".to_owned(), m),
        };
        s.append(m.as_str());
        s
    }
}

/// Convenience alias for results whose error is the client's [`Error`].
pub type Result<T> = core::result::Result<T, Error>;

} // verus!

//! Reading BART API response envelopes.
//!
//! Every response is a JSON envelope under `root`. The API returns HTTP 200
//! even for errors; the error lives in the body at [`ERROR_POINTER`]. These
//! functions decide, from what the envelope holds at those places, whether a
//! response is an error and which node carries the payload.

use vstd::prelude::*;
use vstd::string::*;

use crate::error::Error;

verus! {

/// Where the API puts an application-level error.
pub const ERROR_POINTER: &'static str = "/root/message/error";
/// Where the stations endpoint puts its list of stations.
pub const STATIONS_POINTER: &'static str = "/root/stations/station";
/// Where the routes endpoint puts its list of routes.
pub const ROUTES_POINTER: &'static str = "/root/routes/route";
/// Where the ETD endpoint puts its list of stations with estimates.
pub const ETD_POINTER: &'static str = "/root/station";

/// What an application-level error node holds: its `text` and `details`
/// members, each present only when it is a string.
#[derive(Debug, Clone)]
pub struct ApiErrorNode {
    pub text: Option<String>,
    pub details: Option<String>,
}

/// The message reported for an API error: the text (or `"unknown error"`),
/// followed by `": "` and the details when there are any.
pub open spec fn api_error_message(node: ApiErrorNode) -> Seq<char> {
    let text = match node.text {
        Some(t) => t@,
        None => "unknown error"@,
    };
    let details = match node.details {
        Some(d) => d@,
        None => Seq::<char>::empty(),
    };
    if details.len() == 0 {
        text
    } else {
        text + ": "@ + details
    }
}

/// The message reported when the payload node is missing.
pub open spec fn missing_field_message(pointer: Seq<char>) -> Seq<char> {
    "missing field at '"@ + pointer + "'"@
}

/// Whether `r` is an API error whose message is `msg`.
pub open spec fn is_api_error<T>(r: Result<T, Error>, msg: Seq<char>) -> bool {
    match r {
        Err(Error::Api(m)) => m@ == msg,
        _ => false,
    }
}

/// Surfaces an application-level error if the envelope holds one.
pub fn check_api_error(error: Option<&ApiErrorNode>) -> (r: Result<(), Error>)
    ensures
        match error {
            None => r is Ok,
            Some(e) => is_api_error(r, api_error_message(*e)),
        },
{
    match error {
        None => Ok(()),
        Some(e) => {
            let mut msg = match &e.text {
                Some(t) => t.clone(),
                None => "unknown error".to_owned(),
            };
            match &e.details {
                Some(d) => {
                    if d.as_str().is_empty() {
                    } else {
                        msg.append(": ");
                        msg.append(d.as_str());
                    }
                },
                None => {},
            }
            Err(Error::Api(msg))
        },
    }
}

/// Takes the payload node found at `pointer`, or reports that it is missing.
pub fn extract<T>(node: Option<T>, pointer: &str) -> (r: Result<T, Error>)
    ensures
        match node {
            Some(v) => r == Ok::<T, Error>(v),
            None => is_api_error(r, missing_field_message(pointer@)),
        },
{
    match node {
        Some(v) => Ok(v),
        None => {
            let mut msg = "missing field at '".to_owned();
            msg.append(pointer);
            msg.append("'");
            Err(Error::Api(msg))
        },
    }
}

/// What reading an envelope gives: its API error if it holds one, else the
/// payload node, else a missing-field error for `pointer`.
pub open spec fn envelope_result<T>(
    error: Option<ApiErrorNode>,
    node: Option<T>,
    pointer: Seq<char>,
    r: Result<T, Error>,
) -> bool {
    match error {
        Some(e) => is_api_error(r, api_error_message(e)),
        None => match node {
            Some(v) => r == Ok::<T, Error>(v),
            None => is_api_error(r, missing_field_message(pointer)),
        },
    }
}

fn read_envelope<T>(error: Option<&ApiErrorNode>, node: Option<T>, pointer: &str) -> (r: Result<T, Error>)
    ensures
        envelope_result(
            match error {
                Some(e) => Some(*e),
                None => None,
            },
            node,
            pointer@,
            r,
        ),
{
    match check_api_error(error) {
        Err(e) => Err(e),
        Ok(()) => extract(node, pointer),
    }
}

/// Reads a stations response: `node` is what the envelope holds at [`STATIONS_POINTER`].
pub fn stations<T>(error: Option<&ApiErrorNode>, node: Option<T>) -> (r: Result<T, Error>)
    ensures
        envelope_result(
            match error {
                Some(e) => Some(*e),
                None => None,
            },
            node,
            STATIONS_POINTER@,
            r,
        ),
{
    read_envelope(error, node, STATIONS_POINTER)
}

/// Reads a routes response: `node` is what the envelope holds at [`ROUTES_POINTER`].
pub fn routes<T>(error: Option<&ApiErrorNode>, node: Option<T>) -> (r: Result<T, Error>)
    ensures
        envelope_result(
            match error {
                Some(e) => Some(*e),
                None => None,
            },
            node,
            ROUTES_POINTER@,
            r,
        ),
{
    read_envelope(error, node, ROUTES_POINTER)
}

/// Reads an ETD response: `node` is what the envelope holds at [`ETD_POINTER`].
pub fn etd<T>(error: Option<&ApiErrorNode>, node: Option<T>) -> (r: Result<T, Error>)
    ensures
        envelope_result(
            match error {
                Some(e) => Some(*e),
                None => None,
            },
            node,
            ETD_POINTER@,
            r,
        ),
{
    read_envelope(error, node, ETD_POINTER)
}

} // verus!

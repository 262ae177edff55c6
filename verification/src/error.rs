//! The framework's error type.

use vstd::prelude::*;

use crate::text::{chars_of, push_all, string_of};
use serde_json::Error as JsonError;

verus! {

#[verifier::external_type_specification]
#[verifier::external_body]
pub struct ExIoError(std::io::Error);

#[verifier::external_type_specification]
#[verifier::external_body]
pub struct ExJsonError(JsonError);

/// Every error the framework reports.
#[derive(Debug)]
pub enum Error {
    /// I/O error from networking or file operations.
    Io(std::io::Error),
    /// HTTP parsing error.
    Parse(String),
    /// JSON serialization/deserialization error.
    Json(JsonError),
    /// Route not found.
    NotFound(String),
    /// Method not allowed for the given route.
    MethodNotAllowed(String),
    /// Request body too large.
    PayloadTooLarge,
    /// Request timeout.
    Timeout,
    /// Internal server error.
    Internal(String),
    /// Bad request.
    BadRequest(String),
    /// TLS configuration error.
    Tls(String),
    /// Template rendering error.
    Template(String),
    /// WebSocket error.
    WebSocket(String),
}

/// The status code an error is answered with.
pub open spec fn error_status(e: Error) -> u16 {
    match e {
        Error::NotFound(_) => 404,
        Error::MethodNotAllowed(_) => 405,
        Error::BadRequest(_) | Error::Parse(_) => 400,
        Error::PayloadTooLarge => 413,
        Error::Timeout => 408,
        Error::Json(_) => 422,
        _ => 500,
    }
}

/// The reason phrase an error is answered with.
pub open spec fn error_reason(e: Error) -> Seq<char> {
    match e {
        Error::NotFound(_) => "Not Found"@,
        Error::MethodNotAllowed(_) => "Method Not Allowed"@,
        Error::BadRequest(_) | Error::Parse(_) => "Bad Request"@,
        Error::PayloadTooLarge => "Payload Too Large"@,
        Error::Timeout => "Request Timeout"@,
        Error::Json(_) => "Unprocessable Entity"@,
        _ => "Internal Server Error"@,
    }
}

/// The text of an error whose payload is a string.
pub open spec fn error_message_text(e: Error) -> Option<Seq<char>> {
    match e {
        Error::Parse(m) => Some("Parse error: "@ + m@),
        Error::NotFound(m) => Some("Not found: "@ + m@),
        Error::MethodNotAllowed(m) => Some("Method not allowed: "@ + m@),
        Error::PayloadTooLarge => Some("Payload too large"@),
        Error::Timeout => Some("Request timeout"@),
        Error::Internal(m) => Some("Internal error: "@ + m@),
        Error::BadRequest(m) => Some("Bad request: "@ + m@),
        Error::Tls(m) => Some("TLS error: "@ + m@),
        Error::Template(m) => Some("Template error: "@ + m@),
        Error::WebSocket(m) => Some("WebSocket error: "@ + m@),
        _ => None,
    }
}

/// `std::io::Error` as text (its `Display` output).
#[verifier::external_body]
fn io_error_text(e: &std::io::Error) -> String {
    e.to_string()
}

/// `serde_json::Error` as text (its `Display` output).
#[verifier::external_body]
fn json_error_text(e: &JsonError) -> String {
    e.to_string()
}

fn concat(prefix: &str, rest: &str) -> (s: String)
    ensures
        s@ == prefix@ + rest@,
{
    let mut v = chars_of(prefix);
    let r = chars_of(rest);
    push_all(&mut v, r.as_slice());
    string_of(v.as_slice())
}

impl Error {
    /// The HTTP status code for this error.
    pub fn status_code(&self) -> (c: u16)
        ensures
            c == error_status(*self),
    {
        match self {
            Error::NotFound(_) => 404,
            Error::MethodNotAllowed(_) => 405,
            Error::BadRequest(_) | Error::Parse(_) => 400,
            Error::PayloadTooLarge => 413,
            Error::Timeout => 408,
            Error::Json(_) => 422,
            _ => 500,
        }
    }

    /// The HTTP status text for this error.
    pub fn status_text(&self) -> (s: &str)
        ensures
            s@ == error_reason(*self),
    {
        match self {
            Error::NotFound(_) => "Not Found",
            Error::MethodNotAllowed(_) => "Method Not Allowed",
            Error::BadRequest(_) | Error::Parse(_) => "Bad Request",
            Error::PayloadTooLarge => "Payload Too Large",
            Error::Timeout => "Request Timeout",
            Error::Json(_) => "Unprocessable Entity",
            _ => "Internal Server Error",
        }
    }

    /// A human-readable description, e.g. `Parse error: <message>`.
    pub fn to_string(&self) -> (s: String)
        ensures
            error_message_text(*self) matches Some(t) ==> s@ == t,
    {
        match self {
            Error::Io(e) => {
                let t = io_error_text(e);
                concat("I/O error: ", t.as_str())
            },
            Error::Parse(m) => concat("Parse error: ", m.as_str()),
            Error::Json(e) => {
                let t = json_error_text(e);
                concat("JSON error: ", t.as_str())
            },
            Error::NotFound(m) => concat("Not found: ", m.as_str()),
            Error::MethodNotAllowed(m) => concat("Method not allowed: ", m.as_str()),
            Error::PayloadTooLarge => "Payload too large".to_owned(),
            Error::Timeout => "Request timeout".to_owned(),
            Error::Internal(m) => concat("Internal error: ", m.as_str()),
            Error::BadRequest(m) => concat("Bad request: ", m.as_str()),
            Error::Tls(m) => concat("TLS error: ", m.as_str()),
            Error::Template(m) => concat("Template error: ", m.as_str()),
            Error::WebSocket(m) => concat("WebSocket error: ", m.as_str()),
        }
    }
}

/// The status code and reason phrase of every error agree with the
/// standard reason phrase for that code.
pub proof fn law_error_status_consistent(e: Error)
    ensures
        error_reason(e) == crate::response::status_reason(error_status(e)),
{
}

} // verus!

verus! {

impl From<std::io::Error> for Error {
    fn from(e: std::io::Error) -> (r: Self) {
        Error::Io(e)
    }
}

impl vstd::std_specs::convert::FromSpecImpl<std::io::Error> for Error {
    open spec fn obeys_from_spec() -> bool {
        true
    }

    open spec fn from_spec(e: std::io::Error) -> Self {
        Error::Io(e)
    }
}

impl From<JsonError> for Error {
    fn from(e: JsonError) -> (r: Self) {
        Error::Json(e)
    }
}

impl vstd::std_specs::convert::FromSpecImpl<JsonError> for Error {
    open spec fn obeys_from_spec() -> bool {
        true
    }

    open spec fn from_spec(e: JsonError) -> Self {
        Error::Json(e)
    }
}

} // verus!

verus! {

/// Each error is answered with its HTTP status and that status's reason
/// phrase: 404 for a missing route, 405 for a method not allowed, 400 for a
/// bad or unparsable request, 413 for a body too large, 408 for a timeout,
/// 422 for a body that is not the JSON expected, and 500 for everything
/// else (I/O, internal, TLS, template and WebSocket errors).
pub proof fn law_error_statuses(e: Error)
    ensures
        e is NotFound ==> error_status(e) == 404 && error_reason(e) == "Not Found"@,
        e is MethodNotAllowed ==> error_status(e) == 405 && error_reason(e) == "Method Not Allowed"@,
        e is BadRequest || e is Parse ==> error_status(e) == 400 && error_reason(e) == "Bad Request"@,
        e is PayloadTooLarge ==> error_status(e) == 413 && error_reason(e) == "Payload Too Large"@,
        e is Timeout ==> error_status(e) == 408 && error_reason(e) == "Request Timeout"@,
        e is Json ==> error_status(e) == 422 && error_reason(e) == "Unprocessable Entity"@,
        e is Io || e is Internal || e is Tls || e is Template || e is WebSocket ==> error_status(e) == 500
            && error_reason(e) == "Internal Server Error"@,
{
}

} // verus!

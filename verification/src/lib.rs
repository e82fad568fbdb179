//! resty: routing, request and response handling for a small REST framework,
//! and the generation of its OpenAPI description.
use vstd::prelude::*;

pub mod __private;
pub mod args;
pub mod body;
pub mod decl;
pub mod files;
pub mod http_error;
pub mod map;
pub mod meta;
pub mod method;
pub mod openapi;
pub mod paths;
pub mod request;
pub mod responses;
pub mod response;
pub mod router;
pub mod schema;
pub mod text;

verus! {

/// The errors of request and response handling.
#[derive(Debug, Clone, PartialEq, Eq)]
pub enum Error {
    SerializeError,
    WriteError(String),
    StateError,
    InvalidStatus,
    MissingContentLength,
    InvalidContentLength,
    ReadError,
    ParseError(String),
    RequestError,
    UnTypedRequest,
}

/// The text an error is shown as: its variant's name, with the message of
/// a parse or write error in brackets.
pub open spec fn error_text(e: Error) -> Seq<char> {
    match e {
        Error::SerializeError => "SerializeError"@,
        Error::WriteError(m) => "WriteError("@ + m@ + ")"@,
        Error::StateError => "StateError"@,
        Error::InvalidStatus => "InvalidStatus"@,
        Error::MissingContentLength => "MissingContentLength"@,
        Error::InvalidContentLength => "InvalidContentLength"@,
        Error::ReadError => "ReadError"@,
        Error::ParseError(m) => "ParseError("@ + m@ + ")"@,
        Error::RequestError => "RequestError"@,
        Error::UnTypedRequest => "UnTypedRequest"@,
    }
}

impl Error {
    /// The text the error is shown as.
    pub fn message(&self) -> (t: String)
        ensures
            t@ == error_text(*self),
    {
        match self {
            Error::SerializeError => String::from_str("SerializeError"),
            Error::WriteError(m) => {
                let mut t = String::from_str("WriteError(");
                t.append(m.as_str());
                t.append(")");
                t
            },
            Error::StateError => String::from_str("StateError"),
            Error::InvalidStatus => String::from_str("InvalidStatus"),
            Error::MissingContentLength => String::from_str("MissingContentLength"),
            Error::InvalidContentLength => String::from_str("InvalidContentLength"),
            Error::ReadError => String::from_str("ReadError"),
            Error::ParseError(m) => {
                let mut t = String::from_str("ParseError(");
                t.append(m.as_str());
                t.append(")");
                t
            },
            Error::RequestError => String::from_str("RequestError"),
            Error::UnTypedRequest => String::from_str("UnTypedRequest"),
        }
    }
}

/// The result of a handler.
pub type Result = core::result::Result<(), Error>;

} // verus!

//! The standard HTTP errors: the status code a name of the form
//! `HttpErrorNNN` stands for, and the reason phrase of each such error.
use vstd::prelude::*;

use crate::text::parse_u64_spec;

verus! {

/// The status code in the last three bytes of a name: their decimal value,
/// or 0 where they are not a number.
pub open spec fn code_spec(b: Seq<u8>) -> u16 {
    match parse_u64_spec(b.subrange(b.len() - 3, b.len() as int)) {
        Some(v) => v as u16,
        None => 0,
    }
}

/// The status code a name such as `HttpError404` stands for: the decimal
/// number in its last three bytes, or 0 where they are not one.
pub fn code_from_ident(s: &str) -> (code: u16)
    requires
        vstd::utf8::encode_utf8(s@).len() >= 3,
    ensures
        code == code_spec(vstd::utf8::encode_utf8(s@)),
{
    let b = s.as_bytes();
    let n = b.len();
    let digits = [b[n - 3], b[n - 2], b[n - 1]];
    assert(digits@ =~= b@.subrange(n - 3, n as int));
    match crate::text::parse_u64(&digits) {
        Some(v) => v as u16,
        None => 0,
    }
}

/// The reason phrase of each standard HTTP error.
pub open spec fn reason_spec(code: u16) -> Option<Seq<char>> {
    match code {
        400 => Some("Bad Request"@),
        401 => Some("Unauthorized"@),
        402 => Some("Payment Required"@),
        403 => Some("Forbidden"@),
        404 => Some("Not Found"@),
        405 => Some("Method Not Allowed"@),
        406 => Some("Not Acceptable"@),
        407 => Some("Proxy Authentication Required"@),
        408 => Some("Request Timeout"@),
        409 => Some("Conflict"@),
        410 => Some("Gone"@),
        411 => Some("Length Required"@),
        412 => Some("Precondition Failed"@),
        413 => Some("Payload Too Large"@),
        414 => Some("URI Too Long"@),
        415 => Some("Unsupported Media Type"@),
        416 => Some("Range Not Satisfiable"@),
        417 => Some("Expectation Failed"@),
        421 => Some("Misdirected Request"@),
        422 => Some("Unprocessable Entity"@),
        423 => Some("Locked"@),
        424 => Some("Failed Dependency"@),
        425 => Some("Too Early"@),
        426 => Some("Upgrade Required"@),
        428 => Some("Precondition Required"@),
        429 => Some("Too Many Requests"@),
        431 => Some("Request Header Fields Too Large"@),
        451 => Some("Unavailable For Legal Reasons"@),
        418 => Some("I'm a teapot"@),
        420 => Some("Policy Not Fulfilled"@),
        444 => Some("No Response"@),
        449 => Some("The request should be retried after doing the appropriate action"@),
        499 => Some("Client Closed Request"@),
        500 => Some("Internal Server Error"@),
        501 => Some("Not Implemented"@),
        502 => Some("Bad Gateway"@),
        503 => Some("Service Unavailable"@),
        504 => Some("Gateway Timeout"@),
        505 => Some("HTTP Version not supported"@),
        506 => Some("Variant Also Negotiates"@),
        507 => Some("Insufficient Storage"@),
        508 => Some("Loop Detected"@),
        509 => Some("Bandwidth Limit Exceeded"@),
        510 => Some("Not Extended"@),
        511 => Some("Network Authentication Required"@),
        _ => None,
    }
}

/// The reason phrase of the standard HTTP error with this status code.
pub fn http_error_reason(code: u16) -> (r: Option<&'static str>)
    ensures
        match r {
            Some(t) => reason_spec(code) == Some(t@),
            None => reason_spec(code) is None,
        },
{
    match code {
        400 => Some("Bad Request"),
        401 => Some("Unauthorized"),
        402 => Some("Payment Required"),
        403 => Some("Forbidden"),
        404 => Some("Not Found"),
        405 => Some("Method Not Allowed"),
        406 => Some("Not Acceptable"),
        407 => Some("Proxy Authentication Required"),
        408 => Some("Request Timeout"),
        409 => Some("Conflict"),
        410 => Some("Gone"),
        411 => Some("Length Required"),
        412 => Some("Precondition Failed"),
        413 => Some("Payload Too Large"),
        414 => Some("URI Too Long"),
        415 => Some("Unsupported Media Type"),
        416 => Some("Range Not Satisfiable"),
        417 => Some("Expectation Failed"),
        421 => Some("Misdirected Request"),
        422 => Some("Unprocessable Entity"),
        423 => Some("Locked"),
        424 => Some("Failed Dependency"),
        425 => Some("Too Early"),
        426 => Some("Upgrade Required"),
        428 => Some("Precondition Required"),
        429 => Some("Too Many Requests"),
        431 => Some("Request Header Fields Too Large"),
        451 => Some("Unavailable For Legal Reasons"),
        418 => Some("I'm a teapot"),
        420 => Some("Policy Not Fulfilled"),
        444 => Some("No Response"),
        449 => Some("The request should be retried after doing the appropriate action"),
        499 => Some("Client Closed Request"),
        500 => Some("Internal Server Error"),
        501 => Some("Not Implemented"),
        502 => Some("Bad Gateway"),
        503 => Some("Service Unavailable"),
        504 => Some("Gateway Timeout"),
        505 => Some("HTTP Version not supported"),
        506 => Some("Variant Also Negotiates"),
        507 => Some("Insufficient Storage"),
        508 => Some("Loop Detected"),
        509 => Some("Bandwidth Limit Exceeded"),
        510 => Some("Not Extended"),
        511 => Some("Network Authentication Required"),
        _ => None,
    }
}

} // verus!

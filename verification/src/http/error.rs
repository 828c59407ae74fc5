//! Client protocol errors and the kinds of I/O failure.

use vstd::prelude::*;
use vstd::string::*;

verus! {

/// `std::io::Error`, the error type of the compressor's result.
#[verifier::external_type_specification]
#[verifier::external_body]
pub struct ExIoError(std::io::Error);

/// Why a target was refused.
#[derive(Debug, Clone, Copy, PartialEq, Eq, Structural)]
pub enum InvalidTargetError {
    DoesNotStartWithSlash,
}

/// A client protocol error.
#[derive(Debug, Clone, Copy, PartialEq, Eq)]
pub enum BadRequest {
    MissingMethod,
    UnsupportedMethod,
    NotUTF8,
    BadTarget(InvalidTargetError),
    MissingHTTPVersion,
    UnsupportedHTTPVersion,
    MissingCRLF,
    MissingHeader(&'static str),
    MalformedHeader,
    MissingTarget,
}

impl InvalidTargetError {
    /// The text that describes this error.
    pub open spec fn cause(self) -> Seq<char> {
        match self {
            InvalidTargetError::DoesNotStartWithSlash => "Malformed target: does not start with '/'"@,
        }
    }

    /// Describes this error.
    pub fn to_string(&self) -> (r: String)
        ensures
            r@ == self.cause(),
    {
        match self {
            InvalidTargetError::DoesNotStartWithSlash => String::from_str(
                "Malformed target: does not start with '/'",
            ),
        }
    }
}

impl BadRequest {
    /// The text that describes this error, as a `Cause` header carries it.
    pub open spec fn cause(self) -> Seq<char> {
        match self {
            BadRequest::MissingMethod => "Request line did not have a method"@,
            BadRequest::UnsupportedMethod => "Unsupported Method"@,
            BadRequest::NotUTF8 => "Invalid utf-8"@,
            BadRequest::BadTarget(e) => e.cause(),
            BadRequest::MissingHTTPVersion => "Missing HTTP version"@,
            BadRequest::UnsupportedHTTPVersion => "Unsupported HTTP version"@,
            BadRequest::MissingCRLF => "A CRLF is missing"@,
            BadRequest::MissingHeader(name) => "Missing header: "@ + name@,
            BadRequest::MalformedHeader => "Malformed header. Recquires delimiting ': '"@,
            BadRequest::MissingTarget => "missing a target"@,
        }
    }

    /// Describes this error.
    pub fn to_string(&self) -> (r: String)
        ensures
            r@ == self.cause(),
    {
        match self {
            BadRequest::MissingMethod => String::from_str("Request line did not have a method"),
            BadRequest::UnsupportedMethod => String::from_str("Unsupported Method"),
            BadRequest::NotUTF8 => String::from_str("Invalid utf-8"),
            BadRequest::BadTarget(e) => e.to_string(),
            BadRequest::MissingHTTPVersion => String::from_str("Missing HTTP version"),
            BadRequest::UnsupportedHTTPVersion => String::from_str("Unsupported HTTP version"),
            BadRequest::MissingCRLF => String::from_str("A CRLF is missing"),
            BadRequest::MissingHeader(name) => String::from_str("Missing header: ").concat(name),
            BadRequest::MalformedHeader => String::from_str(
                "Malformed header. Recquires delimiting ': '",
            ),
            BadRequest::MissingTarget => String::from_str("missing a target"),
        }
    }
}

/// The kinds of I/O failure that the responses tell apart: what was asked
/// for is absent, or out of reach, or anything else went wrong.
#[derive(Debug, Clone, Copy, PartialEq, Eq, Structural)]
pub enum IoFailure {
    NotFound,
    PermissionDenied,
    Other,
}

} // verus!

//! The kinds of failure that the registry reports, and the error type of the
//! service boundary.

use vstd::prelude::*;
use vstd::string::*;

verus! {

/// The stable kind of a failure.
#[derive(Clone, Copy, Debug, PartialEq, Eq, Structural)]
pub enum ErrorKind {
    /// A uniqueness constraint of the store was violated: the device is
    /// already known, or a port is already assigned.
    Conflict,
    /// The pool holds too few free ports.
    ResourceExhausted,
    /// Port assignments were offered for a device that the store does not hold.
    NotFound,
    /// The store could not be reached.
    Unavailable,
    /// The input is malformed or a required parameter is missing.
    InvalidInput,
}

impl ErrorKind {
    /// The name of the kind, in words.
    pub open spec fn name(self) -> Seq<char> {
        match self {
            ErrorKind::Conflict => "conflict"@,
            ErrorKind::ResourceExhausted => "resource exhausted"@,
            ErrorKind::NotFound => "not found"@,
            ErrorKind::Unavailable => "unavailable"@,
            ErrorKind::InvalidInput => "invalid input"@,
        }
    }

    /// Renders the kind as text.
    pub fn to_string(&self) -> (text: String)
        ensures
            text@ == self.name(),
    {
        match self {
            ErrorKind::Conflict => String::from_str("conflict"),
            ErrorKind::ResourceExhausted => String::from_str("resource exhausted"),
            ErrorKind::NotFound => String::from_str("not found"),
            ErrorKind::Unavailable => String::from_str("unavailable"),
            ErrorKind::InvalidInput => String::from_str("invalid input"),
        }
    }
}

/// A failure as the service boundary reports it.
///
/// The last four variants stand for failures of the surrounding machinery;
/// each holds the message of the failure it stands for.
#[derive(Debug)]
pub enum ApiError {
    BadRequest(String),
    NotFound(String),
    InternalServerError(String),
    /// An input or output operation failed.
    IoError(String),
    /// The relational store reported a failure.
    DieselError(String),
    /// A JSON document could not be read or written.
    SerdeJsonError(String),
    /// The web framework reported a failure.
    ActixWebError(String),
}

impl ApiError {
    /// The words that introduce the message of each variant.
    pub open spec fn label(self) -> Seq<char> {
        match self {
            ApiError::BadRequest(_) => "Bad Request: "@,
            ApiError::NotFound(_) => "Not Found: "@,
            ApiError::InternalServerError(_) => "Internal Server Error: "@,
            ApiError::IoError(_) => "IO Error: "@,
            ApiError::DieselError(_) => "Diesel Error: "@,
            ApiError::SerdeJsonError(_) => "Serde JSON Error: "@,
            ApiError::ActixWebError(_) => "Actix Web Error: "@,
        }
    }

    /// The message that the variant holds.
    pub open spec fn detail(self) -> Seq<char> {
        match self {
            ApiError::BadRequest(e) => e@,
            ApiError::NotFound(e) => e@,
            ApiError::InternalServerError(e) => e@,
            ApiError::IoError(e) => e@,
            ApiError::DieselError(e) => e@,
            ApiError::SerdeJsonError(e) => e@,
            ApiError::ActixWebError(e) => e@,
        }
    }

    /// Whether the error wraps a failure of the surrounding machinery.
    pub open spec fn wraps_cause(self) -> bool {
        self is IoError || self is DieselError || self is SerdeJsonError || self is ActixWebError
    }

    /// The HTTP status that answers the error.
    pub open spec fn status(self) -> int {
        match self {
            ApiError::BadRequest(_) => 400,
            ApiError::NotFound(_) => 404,
            _ => 500,
        }
    }

    /// Renders the error as its label followed by its message.
    pub fn to_string(&self) -> (text: String)
        ensures
            text@ == self.label() + self.detail(),
    {
        match self {
            ApiError::BadRequest(e) => String::from_str("Bad Request: ").concat(e.as_str()),
            ApiError::NotFound(e) => String::from_str("Not Found: ").concat(e.as_str()),
            ApiError::InternalServerError(e) => String::from_str("Internal Server Error: ").concat(
                e.as_str(),
            ),
            ApiError::IoError(e) => String::from_str("IO Error: ").concat(e.as_str()),
            ApiError::DieselError(e) => String::from_str("Diesel Error: ").concat(e.as_str()),
            ApiError::SerdeJsonError(e) => String::from_str("Serde JSON Error: ").concat(
                e.as_str(),
            ),
            ApiError::ActixWebError(e) => String::from_str("Actix Web Error: ").concat(e.as_str()),
        }
    }

    /// Tells whether the error wraps a failure of the surrounding machinery.
    pub fn has_source(&self) -> (r: bool)
        ensures
            r == self.wraps_cause(),
    {
        match self {
            ApiError::IoError(_) => true,
            ApiError::DieselError(_) => true,
            ApiError::SerdeJsonError(_) => true,
            ApiError::ActixWebError(_) => true,
            _ => false,
        }
    }

    /// The HTTP status that answers the error: 400 for a bad request, 404
    /// where something was not found, 500 for everything else.
    pub fn status_code(&self) -> (code: u16)
        ensures
            code == self.status(),
    {
        match self {
            ApiError::BadRequest(_) => 400,
            ApiError::NotFound(_) => 404,
            ApiError::InternalServerError(_) => 500,
            _ => 500,
        }
    }
}

} // verus!

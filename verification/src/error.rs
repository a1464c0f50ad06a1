//! Errors of request parsing.
use vstd::prelude::*;

verus! {

/// Why a request line was refused.
#[derive(Debug, Clone, Copy, PartialEq, Eq, Structural)]
pub enum HttpRequestError {
    InvalidMethod,
    InvalidTarget,
    InvalidVersion,
    HeaderMapError(HeaderError),
}

/// Why a header line was refused.
#[derive(Debug, Clone, Copy, PartialEq, Eq, Structural)]
pub enum HeaderError {
    InvalidHeaderName,
    InvalidHeaderValue,
}

/// Why a request given as lines was refused.
#[derive(Debug, Clone, Copy, PartialEq, Eq, Structural)]
pub enum LinesError {
    /// There was no line at all.
    MissingRequestLine,
    /// The first line is not a valid request line.
    InvalidRequestLine(HttpRequestError),
    /// A header line holds no `:`.
    InvalidHeader(HeaderError),
}

impl HeaderError {
    /// The text of the error.
    pub open spec fn spec_message(self) -> Seq<char> {
        match self {
            HeaderError::InvalidHeaderName => "Error: Invalid HeaderName"@,
            HeaderError::InvalidHeaderValue => "Error: Invalid HeaderValue"@,
        }
    }

    /// The text of the error.
    pub fn message(&self) -> (m: String)
        ensures
            m@ == self.spec_message(),
    {
        match self {
            HeaderError::InvalidHeaderName => String::from_str("Error: Invalid HeaderName"),
            HeaderError::InvalidHeaderValue => String::from_str("Error: Invalid HeaderValue"),
        }
    }
}

impl HttpRequestError {
    /// The text of the error; a header error is shown as its own text.
    pub open spec fn spec_message(self) -> Seq<char> {
        match self {
            HttpRequestError::InvalidMethod => "Invalid Method"@,
            HttpRequestError::InvalidTarget => "Invalid Target path"@,
            HttpRequestError::InvalidVersion => "Invalid HTTP Version"@,
            HttpRequestError::HeaderMapError(e) => e.spec_message(),
        }
    }

    /// The text of the error.
    pub fn message(&self) -> (m: String)
        ensures
            m@ == self.spec_message(),
    {
        match self {
            HttpRequestError::InvalidMethod => String::from_str("Invalid Method"),
            HttpRequestError::InvalidTarget => String::from_str("Invalid Target path"),
            HttpRequestError::InvalidVersion => String::from_str("Invalid HTTP Version"),
            HttpRequestError::HeaderMapError(e) => e.message(),
        }
    }
}

impl HttpRequestError {
    /// The error's name as `{:?}` writes it.
    pub open spec fn spec_debug_name(self) -> Seq<char> {
        match self {
            HttpRequestError::InvalidMethod => "InvalidMethod"@,
            HttpRequestError::InvalidTarget => "InvalidTarget"@,
            HttpRequestError::InvalidVersion => "InvalidVersion"@,
            HttpRequestError::HeaderMapError(HeaderError::InvalidHeaderName) => "HeaderMapError(InvalidHeaderName)"@,
            HttpRequestError::HeaderMapError(HeaderError::InvalidHeaderValue) => "HeaderMapError(InvalidHeaderValue)"@,
        }
    }

    /// The error's name as `{:?}` writes it.
    pub fn debug_name(&self) -> (m: String)
        ensures
            m@ == self.spec_debug_name(),
    {
        match self {
            HttpRequestError::InvalidMethod => String::from_str("InvalidMethod"),
            HttpRequestError::InvalidTarget => String::from_str("InvalidTarget"),
            HttpRequestError::InvalidVersion => String::from_str("InvalidVersion"),
            HttpRequestError::HeaderMapError(HeaderError::InvalidHeaderName) => String::from_str(
                "HeaderMapError(InvalidHeaderName)",
            ),
            HttpRequestError::HeaderMapError(HeaderError::InvalidHeaderValue) => String::from_str(
                "HeaderMapError(InvalidHeaderValue)",
            ),
        }
    }
}

impl LinesError {
    /// The text reported for the error: `Request data not found` when there
    /// is no line, the refused request line's error by its `{:?}` name, and a
    /// header error by its own text.
    pub open spec fn spec_message(self) -> Seq<char> {
        match self {
            LinesError::MissingRequestLine => "Request data not found"@,
            LinesError::InvalidRequestLine(e) => e.spec_debug_name(),
            LinesError::InvalidHeader(h) => h.spec_message(),
        }
    }

    /// The text reported for the error.
    pub fn message(&self) -> (m: String)
        ensures
            m@ == self.spec_message(),
    {
        match self {
            LinesError::MissingRequestLine => String::from_str("Request data not found"),
            LinesError::InvalidRequestLine(e) => e.debug_name(),
            LinesError::InvalidHeader(h) => h.message(),
        }
    }
}

} // verus!

//! Errors that end a run before any payload is classified.

use vstd::prelude::*;

verus! {

/// A target configuration from which no request can be built.
#[derive(Debug, Clone, Copy, PartialEq, Eq, Structural)]
pub enum ConfigError {
    /// A header string without the `": "` that separates name and value.
    MalformedHeader,
    /// A header name that is no HTTP token.
    InvalidHeaderName,
    /// A header or cookie value with a character that HTTP does not allow there.
    InvalidHeaderValue,
    /// A static parameter without `=`.
    MalformedParameter,
    /// A method other than GET, DELETE, OPTIONS, POST, PUT and PATCH.
    UnsupportedMethod,
    /// A target URL that does not parse as an absolute URL.
    InvalidUrl,
    /// A URL and query too long to be encoded.
    RequestTooLarge,
    /// Parameters that cannot be written as JSON text.
    UnencodableBody,
}

} // verus!

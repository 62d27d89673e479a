//! The errors of the harness.
use vstd::prelude::*;

use crate::body::BodyFormat;

verus! {

/// How a transport failed to produce a response.
#[derive(Debug)]
pub enum TransportError {
    /// The service could not be reached.
    Connection(String),
    /// The response bytes were not a well-formed HTTP response.
    Protocol(String),
    /// The service itself reported an error.
    Service(String),
}

/// Every way a request, a decode or an assertion can fail.
#[derive(Debug)]
pub enum HarnessError {
    /// The transport failed; nothing was received.
    Transport(TransportError),
    /// The request path does not resolve against the base URL.
    InvalidUrl { base: String, path: String },
    /// The status was outside the 2xx range and failure was not expected.
    UnexpectedStatus { status: u16, request: String },
    /// A request body could not be encoded.
    Encode { format: BodyFormat, message: String },
    /// A response body does not decode in the format asked for.
    Decode { format: BodyFormat, request: String, message: String },
    /// An assertion on a response did not hold.
    Assertion { request: String, expected: String, received: String },
    /// The response has no header of this name.
    MissingHeader { name: String, request: String },
    /// The response sets no cookie of this name.
    MissingCookie { name: String, request: String },
    /// A `Set-Cookie` header of the response does not parse.
    InvalidCookie { value: String, request: String },
}

} // verus!

//! The error value that every fallible operation of this crate returns.
//!
//! A `PlurkError` carries a numeric kind code and a human-readable message.
//! The codes partition the failures of the client: transport failures are
//! reported by the (unverified) transport layer with `CODE_TRANSPORT` or
//! `CODE_READ`, while the computations in this crate report decoding,
//! protocol, configuration and authorization failures.

use vstd::prelude::*;

verus! {

/// Network connect/send failure while performing a request.
pub const CODE_TRANSPORT: usize = 1;

/// Failure while reading a response body from the transport.
pub const CODE_READ: usize = 2;

/// Response body is not valid JSON or not of the expected shape.
pub const CODE_DECODE: usize = 3;

/// A URL could not be parsed or normalized at signing time.
pub const CODE_SIGNING: usize = 4;

/// An API path could not be resolved against the base origin.
pub const CODE_ROUTING: usize = 5;

/// A well-formed transport response violates the expected wire contract.
pub const CODE_PROTOCOL: usize = 6;

/// A bootstrap/channel descriptor lacks required query fields.
pub const CODE_CONFIG: usize = 7;

/// An authorization handshake step failed.
pub const CODE_AUTH: usize = 8;

/// Error value surfaced by every fallible operation of the client.
#[derive(Debug)]
pub struct PlurkError {
    pub code: usize,
    pub message: String,
}

impl PlurkError {
    /// Builds an error from a kind code and a message.
    pub fn new(code: usize, message: String) -> (r: PlurkError)
        ensures
            r.code == code,
            r.message == message,
    {
        PlurkError { code, message }
    }

    /// The numeric kind code of this error.
    pub fn code(&self) -> (r: usize)
        ensures
            r == self.code,
    {
        self.code
    }

    /// The human-readable message of this error.
    pub fn message(&self) -> (r: &String)
        ensures
            r == self.message,
    {
        &self.message
    }
}

} // verus!

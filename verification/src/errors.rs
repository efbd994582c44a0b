//! Error kinds of the coordinator core, and their HTTP status classes.
//!
//! The kind of a failure, not the place it surfaced, decides the status
//! class: an unknown state token and a malformed opaque token string are the
//! caller's fault, while a failed provider call is not.

use vstd::prelude::*;

verus! {

/// A failure of the coordinator core.
#[derive(Clone, Copy, Debug, PartialEq, Eq, Structural)]
pub enum CoreError {
    /// The state token of a callback matches no pending flow: it is unknown,
    /// already consumed, or expired with a restart.
    FlowNotFound,
    /// A call to the provider (authorization URL build, code exchange, or
    /// playback query) failed.
    ProviderRequestFailed,
    /// An opaque token string is not a valid encoding of a token record.
    TokenDecodeFailed,
}

/// The HTTP status an error kind maps to at the request boundary.
pub open spec fn spec_status_of(e: CoreError) -> u16 {
    match e {
        CoreError::FlowNotFound => 404,
        CoreError::ProviderRequestFailed => 500,
        CoreError::TokenDecodeFailed => 400,
    }
}

/// Whether an error kind is the caller's fault (a 400-class status).
pub open spec fn spec_is_client_error(e: CoreError) -> bool {
    400 <= spec_status_of(e) < 500
}

impl CoreError {
    /// The HTTP status code for this error kind.
    pub fn http_status(&self) -> (r: u16)
        ensures
            r == spec_status_of(*self),
            400 <= r <= 599,
    {
        match self {
            CoreError::FlowNotFound => 404,
            CoreError::ProviderRequestFailed => 500,
            CoreError::TokenDecodeFailed => 400,
        }
    }

    /// Whether this error kind is the caller's fault.
    pub fn is_client_error(&self) -> (r: bool)
        ensures
            r == spec_is_client_error(*self),
    {
        let s = self.http_status();
        400 <= s && s < 500
    }
}

} // verus!

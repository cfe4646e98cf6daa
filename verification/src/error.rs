//! The library's error type.

use vstd::prelude::*;

verus! {

/// What went wrong, by kind.
#[derive(Debug, Clone, Copy, PartialEq, Eq, Structural)]
pub enum ErrorKind {
    /// Wire bytes that do not form a DNS message.
    MalformedMessage,
    /// A transport could not be established or used.
    UpstreamUnavailable,
    /// An upstream reply that is itself flagged as a request.
    ProtocolViolation,
    /// Anything else.
    Other,
}

/// An error with a kind and a human-readable description.
#[derive(Debug)]
pub struct OvenrackError {
    pub kind: ErrorKind,
    pub details: String,
}

impl OvenrackError {
    /// A generic error carrying only a description.
    pub fn new(details: String) -> (r: OvenrackError)
        ensures
            r.kind == ErrorKind::Other,
            r.details@ == details@,
    {
        OvenrackError { kind: ErrorKind::Other, details }
    }

    /// An error for bytes that do not parse as a DNS message.
    pub fn malformed(details: String) -> (r: OvenrackError)
        ensures
            r.kind == ErrorKind::MalformedMessage,
            r.details@ == details@,
    {
        OvenrackError { kind: ErrorKind::MalformedMessage, details }
    }

    /// An error for a transport failure.
    pub fn upstream_unavailable(details: String) -> (r: OvenrackError)
        ensures
            r.kind == ErrorKind::UpstreamUnavailable,
            r.details@ == details@,
    {
        OvenrackError { kind: ErrorKind::UpstreamUnavailable, details }
    }

    /// An error for an upstream reply that is itself a request.
    pub fn protocol_violation(details: String) -> (r: OvenrackError)
        ensures
            r.kind == ErrorKind::ProtocolViolation,
            r.details@ == details@,
    {
        OvenrackError { kind: ErrorKind::ProtocolViolation, details }
    }

    /// The description, for callers that log or print the error.
    pub fn message(&self) -> (r: &String)
        ensures
            r@ == self.details@,
    {
        &self.details
    }
}

} // verus!

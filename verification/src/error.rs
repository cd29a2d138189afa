//! The error taxonomy of the coordination layer.

use vstd::prelude::*;

verus! {

/// What can go wrong while serving a request or driving a node.
#[derive(Clone, Copy, Debug, PartialEq, Eq, Structural)]
pub enum KvError {
    /// The key is absent on the queried replica.
    NotFound,
    /// The precondition of a conditional write did not match.
    Conflict,
    /// The append was rejected: no leader, or the engine is not ready.
    Unavailable,
    /// The entry was not seen decided within the bounded wait.
    Timeout,
    /// A pump could not deliver to a peer; handled inside the layer.
    PeerUnreachable,
    /// A node could not be brought back after the settle retries.
    RecoveryFailed,
}

impl KvError {
    /// Whether a client may retry the request after backing off.
    pub open spec fn retryable(self) -> bool {
        self == KvError::Unavailable || self == KvError::Timeout
    }

    /// Whether the error may be shown to a client at all.
    pub open spec fn client_visible(self) -> bool {
        self != KvError::PeerUnreachable && self != KvError::RecoveryFailed
    }

    /// Tells whether the caller may retry after a backoff.
    pub fn is_retryable(&self) -> (r: bool)
        ensures
            r == self.retryable(),
    {
        match self {
            KvError::Unavailable => true,
            KvError::Timeout => true,
            _ => false,
        }
    }

    /// Tells whether the error may be shown to a client. An unreachable peer
    /// is dealt with inside the layer, and a failed recovery is reported to
    /// the operator.
    pub fn is_client_visible(&self) -> (r: bool)
        ensures
            r == self.client_visible(),
    {
        match self {
            KvError::PeerUnreachable => false,
            KvError::RecoveryFailed => false,
            _ => true,
        }
    }

    /// A short human-readable description of the error.
    pub fn message(&self) -> (s: &'static str)
        ensures
            s@ == self.message_text(),
    {
        match self {
            KvError::NotFound => "key not found",
            KvError::Conflict => "Could not CAS KV since the old value was different",
            KvError::Unavailable => "no leader available to accept the entry",
            KvError::Timeout => "entry was not decided in time",
            KvError::PeerUnreachable => "peer unreachable",
            KvError::RecoveryFailed => "node recovery failed",
        }
    }

    /// The text that `message` returns.
    pub open spec fn message_text(self) -> Seq<char> {
        match self {
            KvError::NotFound => "key not found"@,
            KvError::Conflict => "Could not CAS KV since the old value was different"@,
            KvError::Unavailable => "no leader available to accept the entry"@,
            KvError::Timeout => "entry was not decided in time"@,
            KvError::PeerUnreachable => "peer unreachable"@,
            KvError::RecoveryFailed => "node recovery failed"@,
        }
    }
}

} // verus!

//! Error kinds visible at the boundary of the verified core.

use vstd::prelude::*;

verus! {

/// Failure kinds that core operations report to their callers.
#[derive(Clone, Copy, Debug, PartialEq, Eq, Structural)]
pub enum CoreError {
    /// A required summary field is absent when it is needed.
    ConfigMissing,
    /// An `add` command named a connection id that is already present.
    DuplicateConn,
    /// A lookup or send named an id that is in neither membership map.
    UnknownTarget,
    /// A JOIN or PEERS payload, or a whole line, could not be decoded.
    ProtocolDecode,
    /// A socket, handshake, read or write failed.
    TransportError,
    /// The command channel to the actor is closed.
    ActorStopped,
}

impl CoreError {
    /// A short description, for logging by the surrounding application.
    pub fn describe(&self) -> (r: &'static str)
        ensures
            r@.len() > 0,
    {
        let s: &'static str = match self {
            CoreError::ConfigMissing => "required field is missing",
            CoreError::DuplicateConn => "conn already exists",
            CoreError::UnknownTarget => "no entry found for the given id",
            CoreError::ProtocolDecode => "could not decode the payload",
            CoreError::TransportError => "transport failure",
            CoreError::ActorStopped => "actor stopped",
        };
        proof {
            reveal_strlit("required field is missing");
            reveal_strlit("conn already exists");
            reveal_strlit("no entry found for the given id");
            reveal_strlit("could not decode the payload");
            reveal_strlit("transport failure");
            reveal_strlit("actor stopped");
        }
        s
    }
}

} // verus!

//! The decisions of the outbound dial and the inbound accept paths.
//!
//! Opening the socket, the optional TLS handshake and the spawning of
//! the connection's reader and writer happen outside; this module
//! holds the checks made before a dial and the summaries a fresh
//! connection starts with.

use vstd::prelude::*;

use crate::errors::CoreError;
use crate::manager::{has_listen_addr, PeerManager};
use crate::summary::PeerSummary;

verus! {

/// The checks made before dialing `listen_addr`: the local node must
/// advertise a listen address of its own, must not dial itself, and
/// must not dial an address already known in either membership map.
/// The check is advisory: a racing inbound accept can still produce a
/// duplicate, which registration resolves by node id.
pub fn dial_precheck(self_peer: &PeerSummary, manager: &PeerManager, listen_addr: &String) -> (r:
    Result<(), CoreError>)
    ensures
        match r {
            Ok(()) => {
                &&& self_peer@.listen_addr is Some
                &&& self_peer@.listen_addr != Some(listen_addr@)
                &&& !has_listen_addr(manager.spec_peers(), listen_addr@)
                &&& !has_listen_addr(manager.spec_conns(), listen_addr@)
            },
            Err(e) => {
                &&& (e == CoreError::ConfigMissing <==> (self_peer@.listen_addr is None
                    || self_peer@.listen_addr == Some(listen_addr@)))
                &&& (e == CoreError::DuplicateConn ==> (has_listen_addr(
                    manager.spec_peers(),
                    listen_addr@,
                ) || has_listen_addr(manager.spec_conns(), listen_addr@)))
                &&& (e == CoreError::ConfigMissing || e == CoreError::DuplicateConn)
            },
        },
{
    let own = match self_peer.listen_addr_or_err(2) {
        Ok(a) => a,
        Err(e) => {
            return Err(e);
        },
    };
    if own == *listen_addr {
        return Err(CoreError::ConfigMissing);
    }
    if manager.contains_listen_addr(listen_addr) {
        return Err(CoreError::DuplicateConn);
    }
    Ok(())
}

/// The summary a freshly dialed outbound connection starts with: only
/// the target listen address is known.
pub fn dial_summary(listen_addr: &String) -> (r: PeerSummary)
    ensures
        r@.listen_addr == Some(listen_addr@),
        r@.remote_addr is None,
        r@.node_id is None,
        r@.uname is None,
{
    PeerSummary {
        remote_addr: None,
        listen_addr: Some(listen_addr.clone()),
        node_id: None,
        uname: None,
    }
}

/// The summary a freshly accepted inbound connection starts with:
/// only the observed remote address is known.
pub fn accept_summary(remote_addr: &String) -> (r: PeerSummary)
    ensures
        r@.remote_addr == Some(remote_addr@),
        r@.listen_addr is None,
        r@.node_id is None,
        r@.uname is None,
{
    PeerSummary {
        remote_addr: Some(remote_addr.clone()),
        listen_addr: None,
        node_id: None,
        uname: None,
    }
}

} // verus!

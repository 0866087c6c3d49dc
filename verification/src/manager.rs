//! Membership state of the peer-manager actor.
//!
//! The actor owns two maps: `conns`, connections that have not yet
//! declared a node id, keyed by connection id; and `peers`, registered
//! logical peers, keyed by node id.  All mutations go through the
//! methods here, which the actor task calls one command at a time.
//! Sends are not performed here: `broadcast` and `send_to` return the
//! outbound pushes to make, so that a slow or saturated send queue can
//! never block the actor.

use vstd::prelude::*;

use crate::errors::CoreError;
use crate::summary::{opt_str_is, PeerSummary};

verus! {

/// One membership entry: a connection and the summary last observed
/// for it.  In `peers` the summary always carries the node id the
/// entry is keyed under.
#[derive(Debug)]
pub struct PeerEntry {
    pub conn_id: String,
    pub summary: PeerSummary,
}

impl PeerEntry {
    /// A copy of the entry, equal to it as a value.
    pub fn duplicate(&self) -> (r: PeerEntry)
        ensures
            r == *self,
    {
        PeerEntry { conn_id: self.conn_id.clone(), summary: self.summary.duplicate() }
    }
}

/// One outbound push decided by the actor: the message to place on the
/// send queue of the connection named by `conn_id`.
#[derive(Debug)]
pub struct Outbound {
    pub conn_id: String,
    pub msg: String,
}

/// The node id declared by an entry's summary, if any.
pub open spec fn entry_node(e: PeerEntry) -> Option<Seq<char>> {
    e.summary.node_id.deep_view()
}

/// Whether some entry of `s` has the given connection id.
pub open spec fn has_conn_id(s: Seq<PeerEntry>, id: Seq<char>) -> bool {
    exists|i: int| 0 <= i < s.len() && (#[trigger] s[i]).conn_id@ == id
}

/// Whether some entry of `s` declares the given node id.
pub open spec fn has_node_id(s: Seq<PeerEntry>, n: Seq<char>) -> bool {
    exists|i: int| 0 <= i < s.len() && entry_node(#[trigger] s[i]) == Some(n)
}

/// Whether some entry of `s` advertises the given listen address.
pub open spec fn has_listen_addr(s: Seq<PeerEntry>, a: Seq<char>) -> bool {
    exists|i: int| 0 <= i < s.len() && (#[trigger] s[i]).summary@.listen_addr == Some(a)
}

/// The single source of truth for membership.
pub struct PeerManager {
    conns: Vec<PeerEntry>,
    peers: Vec<PeerEntry>,
}

impl PeerManager {
    /// The pending connections, as the actor's history of insertions.
    pub closed spec fn spec_conns(self) -> Seq<PeerEntry> {
        self.conns@
    }

    /// The registered peers, as the actor's history of insertions.
    pub closed spec fn spec_peers(self) -> Seq<PeerEntry> {
        self.peers@
    }

    /// Well-formedness: connection ids are unique across both maps,
    /// every registered peer declares a node id, and node ids are
    /// unique among registered peers.
    pub open spec fn wf(self) -> bool {
        &&& (forall|i: int, j: int|
            0 <= i < j < self.spec_conns().len() ==> (#[trigger] self.spec_conns()[i]).conn_id@
                != (#[trigger] self.spec_conns()[j]).conn_id@)
        &&& (forall|i: int, j: int|
            0 <= i < j < self.spec_peers().len() ==> (#[trigger] self.spec_peers()[i]).conn_id@
                != (#[trigger] self.spec_peers()[j]).conn_id@)
        &&& (forall|i: int, j: int|
            0 <= i < self.spec_conns().len() && 0 <= j < self.spec_peers().len() ==> (
            #[trigger] self.spec_conns()[i]).conn_id@ != (#[trigger] self.spec_peers()[j]).conn_id@)
        &&& (forall|i: int|
            0 <= i < self.spec_peers().len() ==> entry_node(#[trigger] self.spec_peers()[i]) is Some)
        &&& (forall|i: int, j: int|
            0 <= i < j < self.spec_peers().len() ==> entry_node(#[trigger] self.spec_peers()[i])
                != entry_node(#[trigger] self.spec_peers()[j]))
    }

    /// Whether the given connection id is known at all, in either map.
    pub open spec fn knows_conn_id(self, id: Seq<char>) -> bool {
        has_conn_id(self.spec_conns(), id) || has_conn_id(self.spec_peers(), id)
    }

    /// An empty membership: no pending connections, no peers.
    pub fn new() -> (r: PeerManager)
        ensures
            r.wf(),
            r.spec_conns() == Seq::<PeerEntry>::empty(),
            r.spec_peers() == Seq::<PeerEntry>::empty(),
    {
        PeerManager { conns: Vec::new(), peers: Vec::new() }
    }

    /// Index of the entry of `s` with connection id `id`, if any.
    fn find_by_conn_id(s: &Vec<PeerEntry>, id: &String) -> (r: Option<usize>)
        ensures
            match r {
                Some(i) => i < s@.len() && s@[i as int].conn_id@ == id@,
                None => !has_conn_id(s@, id@),
            },
    {
        let mut i: usize = 0;
        while i < s.len()
            invariant
                i <= s@.len(),
                forall|j: int| 0 <= j < i ==> (#[trigger] s@[j]).conn_id@ != id@,
            decreases s@.len() - i,
        {
            if s[i].conn_id == *id {
                return Some(i);
            }
            i = i + 1;
        }
        None
    }

    /// Index of the entry of `s` declaring node id `n`, if any.
    fn find_by_node_id(s: &Vec<PeerEntry>, n: &String) -> (r: Option<usize>)
        ensures
            match r {
                Some(i) => i < s@.len() && entry_node(s@[i as int]) == Some(n@),
                None => !has_node_id(s@, n@),
            },
    {
        let mut i: usize = 0;
        while i < s.len()
            invariant
                i <= s@.len(),
                forall|j: int| 0 <= j < i ==> entry_node(#[trigger] s@[j]) != Some(n@),
            decreases s@.len() - i,
        {
            if opt_str_is(&s[i].summary.node_id, n) {
                return Some(i);
            }
            i = i + 1;
        }
        None
    }

    /// `AddConn`: build an entry for a connection that has not yet
    /// declared an identity and insert it into `conns`.  Fails when
    /// the connection id is already present in either map.
    pub fn add_conn(&mut self, conn_id: String, summary: PeerSummary) -> (r: Result<
        (),
        CoreError,
    >)
        requires
            old(self).wf(),
        ensures
            final(self).wf(),
            match r {
                Ok(()) => {
                    &&& !old(self).knows_conn_id(conn_id@)
                    &&& final(self).spec_conns() == old(self).spec_conns().push(
                        PeerEntry { conn_id, summary },
                    )
                    &&& final(self).spec_peers() == old(self).spec_peers()
                },
                Err(e) => {
                    &&& e == CoreError::DuplicateConn
                    &&& old(self).knows_conn_id(conn_id@)
                    &&& *final(self) == *old(self)
                },
            },
    {
        if Self::find_by_conn_id(&self.conns, &conn_id).is_some() {
            return Err(CoreError::DuplicateConn);
        }
        if Self::find_by_conn_id(&self.peers, &conn_id).is_some() {
            return Err(CoreError::DuplicateConn);
        }
        self.conns.push(PeerEntry { conn_id, summary });
        Ok(())
    }

    /// `AddEntry`: insert an already-built entry into `conns`, under
    /// its own connection id.  Same duplicate check as `add_conn`.
    pub fn add_entry(&mut self, conn_id: String, entry: PeerEntry) -> (r: Result<(), CoreError>)
        requires
            old(self).wf(),
            entry.conn_id@ == conn_id@,
        ensures
            final(self).wf(),
            match r {
                Ok(()) => {
                    &&& !old(self).knows_conn_id(conn_id@)
                    &&& final(self).spec_conns() == old(self).spec_conns().push(entry)
                    &&& final(self).spec_peers() == old(self).spec_peers()
                },
                Err(e) => {
                    &&& e == CoreError::DuplicateConn
                    &&& old(self).knows_conn_id(conn_id@)
                    &&& *final(self) == *old(self)
                },
            },
    {
        if Self::find_by_conn_id(&self.conns, &conn_id).is_some() {
            return Err(CoreError::DuplicateConn);
        }
        if Self::find_by_conn_id(&self.peers, &conn_id).is_some() {
            return Err(CoreError::DuplicateConn);
        }
        self.conns.push(entry);
        Ok(())
    }

    /// `RegisterNode`: promote the connection `conn_id` to a peer
    /// under the node id declared in `summary`, evicting any peer that
    /// already held that node id.  When `conn_id` is no longer pending
    /// but the node id is registered, refresh that peer's summary in
    /// place.  Fails with `ConfigMissing` when the summary declares no
    /// node id, and with `UnknownTarget` when neither map can resolve
    /// the request.
    pub fn register_node(&mut self, conn_id: String, summary: PeerSummary) -> (r: Result<
        (),
        CoreError,
    >)
        requires
            old(self).wf(),
        ensures
            final(self).wf(),
            match r {
                Ok(()) => {
                    &&& summary@.node_id is Some
                    &&& has_node_id(final(self).spec_peers(), summary@.node_id->0)
                    &&& !has_conn_id(final(self).spec_conns(), conn_id@)
                    &&& (forall|i: int|
                        0 <= i < final(self).spec_peers().len() && entry_node(
                            #[trigger] final(self).spec_peers()[i],
                        ) == Some(summary@.node_id->0) ==> final(self).spec_peers()[i].summary@
                            == summary@)
                    &&& if has_conn_id(old(self).spec_conns(), conn_id@) {
                        exists|i: int|
                            {
                                &&& 0 <= i < old(self).spec_conns().len()
                                &&& (#[trigger] old(self).spec_conns()[i]).conn_id@ == conn_id@
                                &&& final(self).spec_conns() == old(self).spec_conns().remove(i)
                                &&& final(self).spec_peers().len() >= 1
                                &&& final(self).spec_peers().last() == (PeerEntry {
                                    conn_id: old(self).spec_conns()[i].conn_id,
                                    summary,
                                })
                                &&& if has_node_id(old(self).spec_peers(), summary@.node_id->0) {
                                    exists|j: int|
                                        {
                                            &&& 0 <= j < old(self).spec_peers().len()
                                            &&& entry_node(#[trigger] old(self).spec_peers()[j])
                                                == Some(summary@.node_id->0)
                                            &&& final(self).spec_peers().drop_last() == old(
                                                self,
                                            ).spec_peers().remove(j)
                                        }
                                } else {
                                    final(self).spec_peers().drop_last() == old(self).spec_peers()
                                }
                            }
                    } else {
                        exists|j: int|
                            {
                                &&& 0 <= j < old(self).spec_peers().len()
                                &&& entry_node(#[trigger] old(self).spec_peers()[j]) == Some(
                                    summary@.node_id->0,
                                )
                                &&& final(self).spec_conns() == old(self).spec_conns()
                                &&& final(self).spec_peers() == old(self).spec_peers().update(
                                    j,
                                    (PeerEntry {
                                        conn_id: old(self).spec_peers()[j].conn_id,
                                        summary,
                                    }),
                                )
                            }
                    }
                },
                Err(e) => {
                    &&& *final(self) == *old(self)
                    &&& (e == CoreError::ConfigMissing <==> summary@.node_id is None)
                    &&& (e == CoreError::UnknownTarget ==> !has_conn_id(
                        old(self).spec_conns(),
                        conn_id@,
                    ) && !has_node_id(old(self).spec_peers(), summary@.node_id->0))
                    &&& (e == CoreError::ConfigMissing || e == CoreError::UnknownTarget)
                },
            },
    {
        let node_id = match &summary.node_id {
            Some(n) => n.clone(),
            None => {
                return Err(CoreError::ConfigMissing);
            },
        };
        match Self::find_by_conn_id(&self.conns, &conn_id) {
            Some(i) => {
                let ghost oc = self.conns@;
                let ghost op = self.peers@;
                let entry = self.conns.remove(i);
                let promoted = PeerEntry { conn_id: entry.conn_id, summary };
                proof {
                    assert(forall|k: int|
                        0 <= k < oc.remove(i as int).len() ==> #[trigger] oc.remove(i as int)[k]
                            == (if k < i {
                            oc[k]
                        } else {
                            oc[k + 1]
                        }));
                }
                if let Some(j) = Self::find_by_node_id(&self.peers, &node_id) {
                    let ghost jj = j as int;
                    self.peers.remove(j);
                    proof {
                        assert(forall|k: int|
                            0 <= k < op.remove(jj).len() ==> #[trigger] op.remove(jj)[k] == (if k
                                < jj {
                                op[k]
                            } else {
                                op[k + 1]
                            }));
                        assert(0 <= jj < op.len() && entry_node(op[jj]) == Some(node_id@)
                            && self.peers@ == op.remove(jj));
                        assert(exists|t: int|
                            0 <= t < op.len() && entry_node(#[trigger] op[t]) == Some(node_id@)
                                && self.peers@ == op.remove(t));
                    }
                }
                let ghost op2 = self.peers@;
                self.peers.push(promoted);
                proof {
                    assert(forall|k: int|
                        0 <= k < op2.len() ==> entry_node(#[trigger] op2[k]) != Some(node_id@));
                    assert(self.peers@[op2.len() as int] == promoted);
                    assert(entry_node(promoted) == Some(node_id@));
                    assert(has_node_id(self.peers@, node_id@));
                    assert(oc == old(self).spec_conns());
                    assert(op == old(self).spec_peers());
                    assert(oc[i as int].conn_id@ == conn_id@);
                    assert(has_conn_id(oc, conn_id@));
                    assert(self.conns@ == oc.remove(i as int));
                    assert(self.peers@.drop_last() =~= op2);
                    assert(self.peers@.last() == promoted);
                    assert(promoted.conn_id == oc[i as int].conn_id);
                }
                Ok(())
            },
            None => {
                match Self::find_by_node_id(&self.peers, &node_id) {
                    Some(j) => {
                        let ghost op = self.peers@;
                        let kept_conn = self.peers[j].conn_id.clone();
                        let refreshed = PeerEntry { conn_id: kept_conn, summary };
                        self.peers.set(j, refreshed);
                        proof {
                            assert(entry_node(refreshed) == Some(node_id@));
                            assert(self.peers@[j as int] == refreshed);
                            assert(has_node_id(self.peers@, node_id@));
                            assert(has_node_id(op, node_id@));
                            assert(forall|k: int|
                                0 <= k < op.len() && k != j ==> entry_node(#[trigger] op[k])
                                    != Some(node_id@));
                            assert(op == old(self).spec_peers());
                            assert(entry_node(op[j as int]) == Some(node_id@));
                            assert(self.peers@ =~= op.update(j as int, refreshed));
                            assert(refreshed.conn_id == op[j as int].conn_id);
                        }
                        Ok(())
                    },
                    None => Err(CoreError::UnknownTarget),
                }
            },
        }
    }

    /// `RemoveConn`: drop the pending connection with this id; when
    /// none is pending, drop the registered peer whose entry carries
    /// this connection id, if any.
    pub fn remove_conn(&mut self, conn_id: String)
        requires
            old(self).wf(),
        ensures
            final(self).wf(),
            !has_conn_id(final(self).spec_conns(), conn_id@),
            !has_conn_id(final(self).spec_peers(), conn_id@),
            if has_conn_id(old(self).spec_conns(), conn_id@) {
                exists|i: int|
                    {
                        &&& 0 <= i < old(self).spec_conns().len()
                        &&& (#[trigger] old(self).spec_conns()[i]).conn_id@ == conn_id@
                        &&& final(self).spec_conns() == old(self).spec_conns().remove(i)
                        &&& final(self).spec_peers() == old(self).spec_peers()
                    }
            } else if has_conn_id(old(self).spec_peers(), conn_id@) {
                exists|j: int|
                    {
                        &&& 0 <= j < old(self).spec_peers().len()
                        &&& (#[trigger] old(self).spec_peers()[j]).conn_id@ == conn_id@
                        &&& final(self).spec_peers() == old(self).spec_peers().remove(j)
                        &&& final(self).spec_conns() == old(self).spec_conns()
                    }
            } else {
                *final(self) == *old(self)
            },
    {
        match Self::find_by_conn_id(&self.conns, &conn_id) {
            Some(i) => {
                let ghost oc = self.conns@;
                self.conns.remove(i);
                proof {
                    assert(oc == old(self).spec_conns());
                    assert(0 <= (i as int) && (i as int) < oc.len() && oc[i as int].conn_id@ == conn_id@
                        && self.conns@ == oc.remove(i as int));
                    assert(forall|k: int|
                        0 <= k < final(self).spec_conns().len()
                            ==> (#[trigger] final(self).spec_conns()[k]).conn_id@ != conn_id@);
                }
            },
            None => {
                if let Some(j) = Self::find_by_conn_id(&self.peers, &conn_id) {
                    let ghost op = self.peers@;
                    self.peers.remove(j);
                    proof {
                        assert(op == old(self).spec_peers());
                        assert(0 <= (j as int) && (j as int) < op.len() && op[j as int].conn_id@ == conn_id@
                            && self.peers@ == op.remove(j as int));
                        assert(forall|k: int|
                            0 <= k < final(self).spec_peers().len()
                                ==> (#[trigger] final(self).spec_peers()[k]).conn_id@ != conn_id@);
                    }
                }
            },
        }
    }

    /// `RemoveNode`: drop the registered peer with this node id, if
    /// one is registered.
    pub fn remove_node(&mut self, node_id: String)
        requires
            old(self).wf(),
        ensures
            final(self).wf(),
            final(self).spec_conns() == old(self).spec_conns(),
            !has_node_id(final(self).spec_peers(), node_id@),
            if has_node_id(old(self).spec_peers(), node_id@) {
                exists|j: int|
                    {
                        &&& 0 <= j < old(self).spec_peers().len()
                        &&& entry_node(#[trigger] old(self).spec_peers()[j]) == Some(node_id@)
                        &&& final(self).spec_peers() == old(self).spec_peers().remove(j)
                    }
            } else {
                *final(self) == *old(self)
            },
    {
        if let Some(j) = Self::find_by_node_id(&self.peers, &node_id) {
            let ghost op = self.peers@;
            self.peers.remove(j);
            proof {
                assert(op == old(self).spec_peers());
                assert(0 <= (j as int) && (j as int) < op.len() && entry_node(op[j as int]) == Some(node_id@)
                    && self.peers@ == op.remove(j as int));
                assert(forall|k: int|
                    0 <= k < final(self).spec_peers().len() ==> entry_node(
                        #[trigger] final(self).spec_peers()[k],
                    ) != Some(node_id@));
            }
        }
    }

    /// `Broadcast`: one outbound push of `msg` for every registered
    /// peer, in map order.  The state is untouched and no queue is
    /// examined, so a saturated peer can never block the actor.
    pub fn broadcast(&self, msg: String) -> (r: Vec<Outbound>)
        ensures
            r@.len() == self.spec_peers().len(),
            forall|i: int|
                0 <= i < r@.len() ==> (#[trigger] r@[i]).conn_id@ == self.spec_peers()[i].conn_id@
                    && r@[i].msg@ == msg@,
    {
        let mut out: Vec<Outbound> = Vec::new();
        let mut i: usize = 0;
        while i < self.peers.len()
            invariant
                i <= self.peers@.len(),
                out@.len() == i,
                forall|k: int|
                    0 <= k < i ==> (#[trigger] out@[k]).conn_id@ == self.peers@[k].conn_id@
                        && out@[k].msg@ == msg@,
            decreases self.peers@.len() - i,
        {
            out.push(Outbound { conn_id: self.peers[i].conn_id.clone(), msg: msg.clone() });
            i = i + 1;
        }
        out
    }

    /// `SendTo`: resolve the target entry — by node id when one is
    /// given, else by connection id — and return the push to make.
    /// Fails with `UnknownTarget` when the chosen identifier resolves
    /// to nothing, or when neither identifier was passed.
    pub fn send_to(&self, node_id: Option<String>, conn_id: Option<String>, msg: String) -> (r:
        Result<Outbound, CoreError>)
        ensures
            match r {
                Ok(o) => {
                    &&& o.msg@ == msg@
                    &&& match node_id {
                        Some(n) => exists|i: int|
                            0 <= i < self.spec_peers().len() && entry_node(
                                #[trigger] self.spec_peers()[i],
                            ) == Some(n@) && o.conn_id@ == self.spec_peers()[i].conn_id@,
                        None => conn_id is Some && exists|i: int|
                            0 <= i < self.spec_conns().len() && (#[trigger] self.spec_conns()[i]).conn_id@
                                == conn_id->0@ && o.conn_id@ == self.spec_conns()[i].conn_id@,
                    }
                },
                Err(e) => {
                    &&& e == CoreError::UnknownTarget
                    &&& match node_id {
                        Some(n) => !has_node_id(self.spec_peers(), n@),
                        None => match conn_id {
                            Some(c) => !has_conn_id(self.spec_conns(), c@),
                            None => true,
                        },
                    }
                },
            },
    {
        if let Some(n) = node_id {
            match Self::find_by_node_id(&self.peers, &n) {
                Some(i) => {
                    let o = Outbound { conn_id: self.peers[i].conn_id.clone(), msg };
                    proof {
                        assert(entry_node(self.spec_peers()[i as int]) == Some(n@) && o.conn_id@
                            == self.spec_peers()[i as int].conn_id@);
                    }
                    Ok(o)
                },
                None => Err(CoreError::UnknownTarget),
            }
        } else if let Some(c) = conn_id {
            match Self::find_by_conn_id(&self.conns, &c) {
                Some(i) => {
                    let o = Outbound { conn_id: self.conns[i].conn_id.clone(), msg };
                    proof {
                        assert((self.spec_conns()[i as int]).conn_id@ == c@ && o.conn_id@
                            == self.spec_conns()[i as int].conn_id@);
                    }
                    Ok(o)
                },
                None => Err(CoreError::UnknownTarget),
            }
        } else {
            Err(CoreError::UnknownTarget)
        }
    }

    /// `GetPeers`: a snapshot of every registered peer's summary, in
    /// map order.  Well-formedness makes the snapshot free of node-id
    /// duplicates.
    pub fn get_peers(&self) -> (r: Vec<PeerSummary>)
        requires
            self.wf(),
        ensures
            r@.len() == self.spec_peers().len(),
            forall|i: int| 0 <= i < r@.len() ==> #[trigger] r@[i] == self.spec_peers()[i].summary,
            forall|i: int, j: int|
                0 <= i < j < r@.len() ==> (#[trigger] r@[i])@.node_id != (#[trigger] r@[j])@.node_id,
    {
        let mut out: Vec<PeerSummary> = Vec::new();
        let mut i: usize = 0;
        while i < self.peers.len()
            invariant
                self.wf(),
                i <= self.peers@.len(),
                out@.len() == i,
                forall|k: int| 0 <= k < i ==> #[trigger] out@[k] == self.peers@[k].summary,
            decreases self.peers@.len() - i,
        {
            out.push(self.peers[i].summary.duplicate());
            i = i + 1;
        }
        proof {
            assert(forall|i: int, j: int|
                0 <= i < j < out@.len() ==> entry_node(self.spec_peers()[i]) != entry_node(
                    self.spec_peers()[j],
                ));
        }
        out
    }

    /// `GetPeer`: the summary of the registered peer with this node
    /// id, or `UnknownTarget`.
    pub fn get_peer(&self, node_id: &String) -> (r: Result<PeerSummary, CoreError>)
        ensures
            match r {
                Ok(s) => exists|i: int|
                    0 <= i < self.spec_peers().len() && entry_node(#[trigger] self.spec_peers()[i])
                        == Some(node_id@) && s == self.spec_peers()[i].summary,
                Err(e) => e == CoreError::UnknownTarget && !has_node_id(
                    self.spec_peers(),
                    node_id@,
                ),
            },
    {
        match Self::find_by_node_id(&self.peers, node_id) {
            Some(i) => {
                let s = self.peers[i].summary.duplicate();
                proof {
                    assert(entry_node(self.spec_peers()[i as int]) == Some(node_id@) && s
                        == self.spec_peers()[i as int].summary);
                }
                Ok(s)
            },
            None => Err(CoreError::UnknownTarget),
        }
    }

    /// `GetConn`: the summary of the pending connection with this
    /// connection id, or `UnknownTarget`.
    pub fn get_conn(&self, conn_id: &String) -> (r: Result<PeerSummary, CoreError>)
        ensures
            match r {
                Ok(s) => exists|i: int|
                    0 <= i < self.spec_conns().len() && (#[trigger] self.spec_conns()[i]).conn_id@
                        == conn_id@ && s == self.spec_conns()[i].summary,
                Err(e) => e == CoreError::UnknownTarget && !has_conn_id(
                    self.spec_conns(),
                    conn_id@,
                ),
            },
    {
        match Self::find_by_conn_id(&self.conns, conn_id) {
            Some(i) => {
                let s = self.conns[i].summary.duplicate();
                proof {
                    assert((self.spec_conns()[i as int]).conn_id@ == conn_id@ && s
                        == self.spec_conns()[i as int].summary);
                }
                Ok(s)
            },
            None => Err(CoreError::UnknownTarget),
        }
    }

    /// `ContainsListenAddr`: whether any entry, in either map,
    /// advertises the given listen address.
    pub fn contains_listen_addr(&self, addr: &String) -> (r: bool)
        ensures
            r == (has_listen_addr(self.spec_peers(), addr@) || has_listen_addr(
                self.spec_conns(),
                addr@,
            )),
    {
        let mut i: usize = 0;
        while i < self.peers.len()
            invariant
                i <= self.peers@.len(),
                forall|k: int|
                    0 <= k < i ==> (#[trigger] self.peers@[k]).summary@.listen_addr != Some(addr@),
            decreases self.peers@.len() - i,
        {
            if opt_str_is(&self.peers[i].summary.listen_addr, addr) {
                return true;
            }
            i = i + 1;
        }
        let mut j: usize = 0;
        while j < self.conns.len()
            invariant
                j <= self.conns@.len(),
                !has_listen_addr(self.peers@, addr@),
                forall|k: int|
                    0 <= k < j ==> (#[trigger] self.conns@[k]).summary@.listen_addr != Some(addr@),
            decreases self.conns@.len() - j,
        {
            if opt_str_is(&self.conns[j].summary.listen_addr, addr) {
                return true;
            }
            j = j + 1;
        }
        false
    }
}

/// Law: in a well-formed membership state a connection id is held by
/// at most one of the two maps — and by at most one entry there.
/// Every state reachable from `PeerManager::new` through the command
/// handlers is well-formed, since each handler requires and ensures
/// `wf`.
pub proof fn lemma_conn_id_in_at_most_one_map(m: PeerManager, id: Seq<char>)
    requires
        m.wf(),
    ensures
        !(has_conn_id(m.spec_conns(), id) && has_conn_id(m.spec_peers(), id)),
{
}

} // verus!

//! The peer summary: the four-field descriptor of a node.

use vstd::prelude::*;

use crate::errors::CoreError;

verus! {

/// Mathematical image of a peer summary: each field as an optional
/// sequence of characters.
pub ghost struct SummaryView {
    pub remote_addr: Option<Seq<char>>,
    pub listen_addr: Option<Seq<char>>,
    pub node_id: Option<Seq<char>>,
    pub uname: Option<Seq<char>>,
}

/// Descriptor of a node as carried in JOIN and PEERS gossip.
///
/// A freshly accepted inbound connection knows only `remote_addr`; a
/// freshly dialed outbound connection knows only the target
/// `listen_addr`.  Both are filled in once the remote's JOIN is
/// processed.  `node_id` is the stable logical identity; `uname` is the
/// display name.
#[derive(Debug, Clone)]
pub struct PeerSummary {
    pub remote_addr: Option<String>,
    pub listen_addr: Option<String>,
    pub node_id: Option<String>,
    pub uname: Option<String>,
}

impl View for PeerSummary {
    type V = SummaryView;

    open spec fn view(&self) -> SummaryView {
        SummaryView {
            remote_addr: self.remote_addr.deep_view(),
            listen_addr: self.listen_addr.deep_view(),
            node_id: self.node_id.deep_view(),
            uname: self.uname.deep_view(),
        }
    }
}

impl DeepView for PeerSummary {
    type V = SummaryView;

    open spec fn deep_view(&self) -> SummaryView {
        self.view()
    }
}

/// Equality of two optional strings, decided on the character level.
pub fn opt_str_eq(a: &Option<String>, b: &Option<String>) -> (r: bool)
    ensures
        r == (a.deep_view() == b.deep_view()),
{
    match (a, b) {
        (Some(x), Some(y)) => *x == *y,
        (None, None) => true,
        _ => false,
    }
}

/// Whether an optional string holds exactly the given string.
pub fn opt_str_is(a: &Option<String>, key: &String) -> (r: bool)
    ensures
        r == (a.deep_view() == Some(key@)),
{
    match a {
        Some(x) => *x == *key,
        None => false,
    }
}

/// A copy of an optional string whose view equals the original's.
pub fn opt_str_copy(a: &Option<String>) -> (r: Option<String>)
    ensures
        r == *a,
{
    match a {
        Some(x) => Some(x.clone()),
        None => None,
    }
}

impl PeerSummary {
    /// A field-for-field copy, equal to `self` as a value.
    pub fn duplicate(&self) -> (r: PeerSummary)
        ensures
            r == *self,
    {
        PeerSummary {
            remote_addr: opt_str_copy(&self.remote_addr),
            listen_addr: opt_str_copy(&self.listen_addr),
            node_id: opt_str_copy(&self.node_id),
            uname: opt_str_copy(&self.uname),
        }
    }

    /// The advertised listen address, or `ConfigMissing` when the field
    /// is absent.  The tag is carried only so that callers can tell the
    /// sites apart when logging.
    pub fn listen_addr_or_err(&self, _tag: u16) -> (r: Result<String, CoreError>)
        ensures
            match r {
                Ok(a) => self@.listen_addr == Some(a@),
                Err(e) => self@.listen_addr is None && e == CoreError::ConfigMissing,
            },
    {
        match &self.listen_addr {
            Some(a) => Ok(a.clone()),
            None => Err(CoreError::ConfigMissing),
        }
    }

    /// The display name, or `ConfigMissing` when the field is absent.
    pub fn _uname_or_err(&self) -> (r: Result<String, CoreError>)
        ensures
            match r {
                Ok(u) => self@.uname == Some(u@),
                Err(e) => self@.uname is None && e == CoreError::ConfigMissing,
            },
    {
        match &self.uname {
            Some(u) => Ok(u.clone()),
            None => Err(CoreError::ConfigMissing),
        }
    }
}

impl PartialEq for PeerSummary {
    fn eq(&self, other: &Self) -> (r: bool) {
        opt_str_eq(&self.remote_addr, &other.remote_addr)
            && opt_str_eq(&self.listen_addr, &other.listen_addr)
            && opt_str_eq(&self.node_id, &other.node_id)
            && opt_str_eq(&self.uname, &other.uname)
    }
}

impl vstd::std_specs::cmp::PartialEqSpecImpl for PeerSummary {
    open spec fn obeys_eq_spec() -> bool {
        true
    }

    open spec fn eq_spec(&self, other: &Self) -> bool {
        self@ == other@
    }
}

} // verus!

//! Verified core of a peer-to-peer chat overlay.
//!
//! The crate holds the membership state machine of the peer-manager actor,
//! the JSON wire codec for peer summaries, the JOIN/PEERS gossip frames,
//! and the classification of incoming lines into peer events.  All I/O
//! (sockets, TLS, the HTTP surface) lives outside, in the surrounding
//! application, which drives these functions with plain values.

pub mod codec;
pub mod dialer;
pub mod errors;
pub mod events;
pub mod ids;
pub mod manager;
pub mod protocol;
mod strutil;
pub mod summary;

pub use errors::CoreError;
pub use events::{FrontendEvent, PeerEvent};
pub use ids::generate_unique_id;
pub use manager::{Outbound, PeerEntry, PeerManager};
pub use summary::PeerSummary;

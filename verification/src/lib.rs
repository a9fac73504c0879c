//! A verified peer-management core for a distributed ledger node.
//!
//! The crate keeps track of logical peer relationships on top of a
//! lower-level connection manager: reference-counted peers, a
//! multi-endpoint retry state machine, a tie-breaking rule for
//! simultaneous inbound and outbound connections, and the notification
//! fan-out that reports peer transitions to subscribers.
//!
//! All peer state lives in plain data structures ([`peer_map::PeerMap`],
//! [`ref_map::RefMap`], [`unreferenced::UnreferencedPeerState`]) that are
//! driven by the message handlers in [`manager`].  The surrounding actor
//! thread, channels, and the real connection manager are deliberately kept
//! outside of the library; the handlers talk to the connection manager
//! through the [`cm::ConnectionDriver`] trait and report notifications by
//! returning them.

pub mod cm;
pub mod error;
pub mod laws;
pub mod manager;
pub mod model;
pub mod peer_map;
pub mod ref_map;
pub mod notification;
pub mod peer_ref;
pub mod service;
pub mod token;
pub mod unreferenced;

//! Caller-side peer handles.
//!
//! A [`PeerRef`] stands for one outstanding reference to a peer added by
//! identity; an [`EndpointPeerRef`] for one added by endpoint only.  In
//! the running system each handle also carries a channel to the manager
//! and enqueues a removal request when dropped; that plumbing lives in the
//! surrounding application, which wraps these plain values.

use vstd::prelude::*;

use crate::token::{PairView, PeerTokenPair};

verus! {

/// A reference to a peer added by identity.
#[derive(Debug)]
pub struct PeerRef {
    pub peer_id: PeerTokenPair,
}

impl PeerRef {
    pub fn new(peer_id: PeerTokenPair) -> (r: Self)
        ensures
            r@ == peer_id@,
    {
        PeerRef { peer_id }
    }

    /// The key of the peer this handle refers to.
    pub fn peer_id(&self) -> (r: &PeerTokenPair)
        ensures
            r@ == self@,
    {
        &self.peer_id
    }
}

impl View for PeerRef {
    type V = PairView;

    open spec fn view(&self) -> PairView {
        self.peer_id@
    }
}

/// A reference to a peer added by endpoint, before its identity is known.
#[derive(Debug)]
pub struct EndpointPeerRef {
    pub endpoint: String,
    pub connection_id: String,
}

impl EndpointPeerRef {
    pub fn new(endpoint: String, connection_id: String) -> (r: Self)
        ensures
            r.endpoint_view() == endpoint@,
            r.connection_id_view() == connection_id@,
    {
        EndpointPeerRef { endpoint, connection_id }
    }

    pub open spec fn endpoint_view(&self) -> Seq<char> {
        self.endpoint@
    }

    pub open spec fn connection_id_view(&self) -> Seq<char> {
        self.connection_id@
    }

    /// The endpoint this handle refers to.
    pub fn endpoint(&self) -> (r: &String)
        ensures
            r@ == self.endpoint_view(),
    {
        &self.endpoint
    }

    /// The id of the connection that was requested for this endpoint.
    pub fn connection_id(&self) -> (r: &String)
        ensures
            r@ == self.connection_id_view(),
    {
        &self.connection_id
    }
}

} // verus!

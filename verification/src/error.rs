//! Errors surfaced by the peer manager.

use vstd::prelude::*;

use crate::cm::ConnectionManagerError;

verus! {

/// Why a peer reference could not be added.
#[derive(Debug)]
pub enum PeerRefAddError {
    /// The peer is a `Trust` identity and one of its endpoints already
    /// belongs to a different `Trust` peer.
    DuplicateEndpoint,
    /// The request supplied no endpoints for a peer that is not yet known.
    MissingEndpoints,
    /// The peer already exists with a single endpoint that cannot be
    /// reconciled with the newly requested endpoint list.
    EndpointMismatch,
    /// A reference exists for the peer but the peer map holds no metadata
    /// for it (an internal inconsistency; reported, never a panic).
    MissingMetadata,
}

/// Why an unidentified (by-endpoint) peer could not be added.  Adding by
/// endpoint cannot currently fail; the type exists for the reply channel.
#[derive(Debug)]
pub enum PeerUnknownAddError {
    AddError,
}

/// Why a peer reference could not be removed.
#[derive(Debug)]
pub enum PeerRefRemoveError {
    /// The reference map held no reference for the peer.
    UnknownPeer,
    /// The reference count dropped to zero but the peer map held no entry.
    MissingPeerMetadata,
    /// The connection manager reported that the peer's connection had
    /// already been removed.
    ConnectionAlreadyRemoved,
    /// The connection manager failed to remove the connection.
    ConnectionError { err: ConnectionManagerError },
}

/// Why a list request failed.  Listing cannot currently fail; the type
/// exists for the reply channel.
#[derive(Debug)]
pub enum PeerListError {
    ListError,
}

/// Why a connection-id table request failed.  It cannot currently fail;
/// the type exists for the reply channel.
#[derive(Debug)]
pub enum PeerConnectionIdError {
    LookupError,
}

/// Why a lookup failed.  Lookups cannot currently fail; the type exists
/// for the reply channel.
#[derive(Debug)]
pub enum PeerLookupError {
    LookupError,
}

/// A general peer-manager failure.
#[derive(Debug)]
pub enum PeerManagerError {
    /// The peer manager could not be started.
    StartUpError { context: String },
}

} // verus!

//! The connection-manager boundary.
//!
//! The peer manager consumes a connection manager: it asks it to open and
//! close physical connections and receives notifications about connection
//! lifecycle events.  The connection manager itself (transports, framing,
//! authorization) is outside this library; the handlers reach it through
//! the [`ConnectionDriver`] trait, which the surrounding application
//! implements.  The trait's methods carry no contract: every property the
//! library proves holds for every implementation and every outcome of
//! these calls.

use vstd::prelude::*;

use crate::token::PeerAuthorizationToken;

verus! {

/// Classification of a failed connection attempt, at the granularity the
/// peer manager cares about.
#[derive(Debug)]
pub enum ConnectionErrorKind {
    ConnectionRefused,
    Other,
}

/// An error reported by the connection manager.
#[derive(Debug)]
pub enum ConnectionManagerError {
    /// The connection could not be created.
    ConnectionCreationError { context: String, error_kind: Option<ConnectionErrorKind> },
    /// Any other connection-manager failure.
    Unclassified { message: String },
}

/// A connection lifecycle event delivered by the connection manager.
#[derive(Debug)]
pub enum ConnectionManagerNotification {
    /// An outbound connection completed authorization.
    Connected {
        endpoint: String,
        connection_id: String,
        identity: PeerAuthorizationToken,
        local_identity: PeerAuthorizationToken,
    },
    /// A remote node connected to this node and completed authorization.
    InboundConnection {
        endpoint: String,
        connection_id: String,
        identity: PeerAuthorizationToken,
        local_identity: PeerAuthorizationToken,
    },
    /// A connection was lost.
    Disconnected { endpoint: String, identity: PeerAuthorizationToken, connection_id: String },
    /// A reconnection attempt failed; the connection manager keeps trying.
    NonFatalConnectionError { endpoint: String, attempts: u64, connection_id: String },
    /// The connection failed and the connection manager gave up on it.
    FatalConnectionError { connection_id: String, error: String },
}

/// The requests the peer manager makes of the connection manager.
///
/// Implementations live outside the library (a real connection manager, or
/// a scripted double in tests).  No contract constrains them: the handlers
/// are verified for every possible outcome of these calls.
pub trait ConnectionDriver {
    /// Asks for a connection to `endpoint` under the given connection id.
    /// The call is idempotent on `(endpoint, connection_id)`; an `Err` is a
    /// synchronous failure and the attempt may be retried later.
    fn request_connection(
        &mut self,
        endpoint: &str,
        connection_id: &str,
        expected_remote: Option<&PeerAuthorizationToken>,
        local_authorization: Option<&PeerAuthorizationToken>,
    ) -> Result<(), ConnectionManagerError>;

    /// Asks to close the connection with the given id.  `Ok(true)` means a
    /// connection was removed, `Ok(false)` that none was there.
    fn remove_connection(
        &mut self,
        endpoint: &str,
        connection_id: &str,
    ) -> Result<bool, ConnectionManagerError>;
}

/// The log line the peer manager emits for a failed `request_connection`
/// call, classified by error kind.  A connection refused is expected noise
/// (the remote may simply not be up yet); everything else keeps its
/// context.
#[derive(Debug)]
pub enum ConnectRequestLog {
    CreationFailed { peer: PeerAuthorizationToken, context: String },
    Refused { peer: PeerAuthorizationToken, endpoint: String },
    Failed { peer: PeerAuthorizationToken, context: String },
    Errored { peer: PeerAuthorizationToken, message: String },
}

/// Classifies a failed connection request for logging.
pub fn log_connect_request_err(
    err: ConnectionManagerError,
    peer_id: &PeerAuthorizationToken,
    endpoint: &str,
) -> (r: ConnectRequestLog)
    ensures
        match err {
            ConnectionManagerError::ConnectionCreationError { context, error_kind } => match error_kind {
                Option::None => r matches ConnectRequestLog::CreationFailed { peer, context: c }
                    && peer@ == peer_id@ && c@ == context@,
                Option::Some(ConnectionErrorKind::ConnectionRefused) => r matches ConnectRequestLog::Refused { peer, endpoint: e }
                    && peer@ == peer_id@ && e@ == endpoint@,
                Option::Some(ConnectionErrorKind::Other) => r matches ConnectRequestLog::Failed { peer, context: c }
                    && peer@ == peer_id@ && c@ == context@,
            },
            ConnectionManagerError::Unclassified { message } => r matches ConnectRequestLog::Errored { peer, message: m }
                && peer@ == peer_id@ && m@ == message@,
        },
{
    match err {
        ConnectionManagerError::ConnectionCreationError { context, error_kind: Option::None } => {
            ConnectRequestLog::CreationFailed { peer: peer_id.clone(), context }
        },
        ConnectionManagerError::ConnectionCreationError {
            context: _,
            error_kind: Option::Some(ConnectionErrorKind::ConnectionRefused),
        } => ConnectRequestLog::Refused { peer: peer_id.clone(), endpoint: endpoint.to_owned() },
        ConnectionManagerError::ConnectionCreationError {
            context,
            error_kind: Option::Some(ConnectionErrorKind::Other),
        } => ConnectRequestLog::Failed { peer: peer_id.clone(), context },
        ConnectionManagerError::Unclassified { message } => ConnectRequestLog::Errored {
            peer: peer_id.clone(),
            message,
        },
    }
}

} // verus!

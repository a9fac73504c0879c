use splinter_peer::cm::{
    ConnectionDriver, ConnectionErrorKind, ConnectionManagerError, ConnectionManagerNotification,
};
use splinter_peer::error::{PeerRefAddError, PeerRefRemoveError};
use splinter_peer::manager::{
    add_peer, add_unidentified, handle_notifications, handle_request, remove_peer,
    remove_peer_by_endpoint, retry_pending, PeerManagerReply, PeerManagerRequest,
};
use splinter_peer::notification::{PeerManagerNotification, SubscriberMap};
use splinter_peer::peer_map::PeerMap;
use splinter_peer::ref_map::RefMap;
use splinter_peer::token::{PeerAuthorizationToken, PeerTokenPair};
use splinter_peer::unreferenced::UnreferencedPeerState;

const RETRY_FREQUENCY: u64 = 10;
const MAX_RETRY_FREQUENCY: u64 = 300;
const MAX_RETRY_ATTEMPTS: u64 = 5;
const ENDPOINT_RETRY_FREQUENCY: u64 = 60;

/// A connection manager double: refuses the endpoints it is told to
/// refuse, records every request, and answers removals as configured.
struct ScriptedDriver {
    refuse: Vec<String>,
    requests: Vec<(String, String)>,
    removals: Vec<(String, String)>,
    removal_reply: Result<bool, ()>,
}

impl ScriptedDriver {
    fn new() -> Self {
        ScriptedDriver {
            refuse: Vec::new(),
            requests: Vec::new(),
            removals: Vec::new(),
            removal_reply: Ok(true),
        }
    }

    fn refusing(endpoints: &[&str]) -> Self {
        let mut d = Self::new();
        d.refuse = endpoints.iter().map(|e| e.to_string()).collect();
        d
    }
}

impl ConnectionDriver for ScriptedDriver {
    fn request_connection(
        &mut self,
        endpoint: &str,
        connection_id: &str,
        _expected_remote: Option<&PeerAuthorizationToken>,
        _local_authorization: Option<&PeerAuthorizationToken>,
    ) -> Result<(), ConnectionManagerError> {
        self.requests
            .push((endpoint.to_string(), connection_id.to_string()));
        if self.refuse.iter().any(|e| e == endpoint) {
            Err(ConnectionManagerError::ConnectionCreationError {
                context: format!("unable to connect to {}", endpoint),
                error_kind: Some(ConnectionErrorKind::ConnectionRefused),
            })
        } else {
            Ok(())
        }
    }

    fn remove_connection(
        &mut self,
        endpoint: &str,
        connection_id: &str,
    ) -> Result<bool, ConnectionManagerError> {
        self.removals
            .push((endpoint.to_string(), connection_id.to_string()));
        match self.removal_reply {
            Ok(b) => Ok(b),
            Err(()) => Err(ConnectionManagerError::Unclassified {
                message: "removal failed".to_string(),
            }),
        }
    }
}

struct State {
    peers: PeerMap,
    unreferenced: UnreferencedPeerState,
    refs: RefMap,
    subscribers: SubscriberMap,
}

fn new_state() -> State {
    State {
        peers: PeerMap::new(RETRY_FREQUENCY),
        unreferenced: UnreferencedPeerState::new(ENDPOINT_RETRY_FREQUENCY, 0),
        refs: RefMap::new(),
        subscribers: SubscriberMap::new(),
    }
}

fn trust(name: &str) -> PeerAuthorizationToken {
    PeerAuthorizationToken::from_peer_id(name)
}

fn pair(remote: &str, local: &str) -> PeerTokenPair {
    PeerTokenPair::new(trust(remote), trust(local))
}

fn connection_id_of(state: &State, remote: &str, local: &str) -> String {
    state
        .peers
        .get_by_peer_id(&pair(remote, local))
        .expect("peer not in peer map")
        .connection_id
        .clone()
}

/// Completes an outbound connection: delivers the `Connected`
/// notification the connection manager would send for the peer's
/// current connection id.
fn connect_peer(
    state: &mut State,
    driver: &mut ScriptedDriver,
    endpoint: &str,
    remote: &str,
    local: &str,
    now: u64,
) -> Vec<PeerManagerNotification> {
    let connection_id = connection_id_of(state, remote, local);
    handle_notifications(
        ConnectionManagerNotification::Connected {
            endpoint: endpoint.to_string(),
            connection_id,
            identity: trust(remote),
            local_identity: trust(local),
        },
        &mut state.unreferenced,
        &mut state.peers,
        driver,
        MAX_RETRY_ATTEMPTS,
        &mut state.refs,
        RETRY_FREQUENCY,
        MAX_RETRY_FREQUENCY,
        now,
    )
}

fn list_peers(state: &mut State, driver: &mut ScriptedDriver) -> Vec<PeerAuthorizationToken> {
    let (reply, _) = handle_request(
        PeerManagerRequest::ListPeers,
        driver,
        &mut state.unreferenced,
        &mut state.peers,
        &mut state.refs,
        &mut state.subscribers,
        true,
        0,
    );
    match reply {
        PeerManagerReply::Peers(Ok(ids)) => ids,
        _ => panic!("unexpected reply to ListPeers"),
    }
}

// Adding a peer hands back a reference carrying the peer's key, and the
// completed connection is announced exactly once.
#[test]
fn test_peer_manager_add_peer() {
    let mut state = new_state();
    let mut driver = ScriptedDriver::new();

    let (res, notes) = add_peer(
        trust("test_peer"),
        vec!["inproc://test".to_string()],
        &mut driver,
        &mut state.unreferenced,
        &mut state.peers,
        &mut state.refs,
        trust("my_id"),
        0,
    );
    let peer_ref = res.expect("Unable to add peer");
    assert_eq!(peer_ref.peer_id(), &pair("test_peer", "my_id"));
    assert!(notes.is_empty());

    let notes = connect_peer(&mut state, &mut driver, "inproc://test", "test_peer", "my_id", 1);
    assert_eq!(notes.len(), 1);
    assert!(
        notes[0]
            == PeerManagerNotification::Connected {
                peer: pair("test_peer", "my_id"),
            }
    );

    assert_eq!(list_peers(&mut state, &mut driver), vec![trust("test_peer")]);
}

// A different `Trust` peer may not claim an endpoint that an existing
// `Trust` peer already holds.
#[test]
fn test_peer_manager_add_peer_duplicate_endpoint() {
    let mut state = new_state();
    let mut driver = ScriptedDriver::new();

    let (res, _) = add_peer(
        trust("test_peer"),
        vec!["inproc://test".to_string()],
        &mut driver,
        &mut state.unreferenced,
        &mut state.peers,
        &mut state.refs,
        trust("my_id"),
        0,
    );
    res.expect("Unable to add peer");
    connect_peer(&mut state, &mut driver, "inproc://test", "test_peer", "my_id", 1);

    let (res, _) = add_peer(
        trust("different_peer"),
        vec!["inproc://test".to_string()],
        &mut driver,
        &mut state.unreferenced,
        &mut state.peers,
        &mut state.refs,
        trust("my_id"),
        2,
    );
    match res {
        Err(PeerRefAddError::DuplicateEndpoint) => {}
        _ => panic!(
            "Should not have been able to add a different trust peer with duplicate endpoint"
        ),
    }
}

// When the first endpoint is refused, the next configured endpoint
// becomes the active one.
#[test]
fn test_peer_manager_add_peer_endpoints() {
    let mut state = new_state();
    let mut driver = ScriptedDriver::refusing(&["inproc://bad_endpoint"]);

    let (res, _) = add_peer(
        trust("test_peer"),
        vec![
            "inproc://bad_endpoint".to_string(),
            "inproc://test".to_string(),
        ],
        &mut driver,
        &mut state.unreferenced,
        &mut state.peers,
        &mut state.refs,
        trust("my_id"),
        0,
    );
    let peer_ref = res.expect("Unable to add peer");
    assert_eq!(peer_ref.peer_id(), &pair("test_peer", "my_id"));

    // both endpoints were tried, in order, under one connection id
    assert_eq!(driver.requests.len(), 2);
    assert_eq!(driver.requests[0].0, "inproc://bad_endpoint");
    assert_eq!(driver.requests[1].0, "inproc://test");
    assert_eq!(driver.requests[0].1, driver.requests[1].1);

    let meta = state
        .peers
        .get_by_peer_id(&pair("test_peer", "my_id"))
        .expect("peer missing");
    assert_eq!(meta.active_endpoint, "inproc://test".to_string());

    let notes = connect_peer(&mut state, &mut driver, "inproc://test", "test_peer", "my_id", 1);
    assert!(
        notes[0]
            == PeerManagerNotification::Connected {
                peer: pair("test_peer", "my_id"),
            }
    );
}

// The same peer can be added more than once; the extra reference simply
// re-announces the connected peer.
#[test]
fn test_peer_manager_add_peer_multiple_times() {
    let mut state = new_state();
    let mut driver = ScriptedDriver::new();

    let (res, _) = add_peer(
        trust("test_peer"),
        vec!["inproc://test".to_string()],
        &mut driver,
        &mut state.unreferenced,
        &mut state.peers,
        &mut state.refs,
        trust("my_id"),
        0,
    );
    let peer_ref = res.expect("Unable to add peer");
    assert_eq!(peer_ref.peer_id(), &pair("test_peer", "my_id"));
    connect_peer(&mut state, &mut driver, "inproc://test", "test_peer", "my_id", 1);

    let (res, notes) = add_peer(
        trust("test_peer"),
        vec!["inproc://test".to_string()],
        &mut driver,
        &mut state.unreferenced,
        &mut state.peers,
        &mut state.refs,
        trust("my_id"),
        2,
    );
    let peer_ref = res.expect("Unable to add peer");
    assert_eq!(peer_ref.peer_id(), &pair("test_peer", "my_id"));
    assert_eq!(notes.len(), 1);
    assert!(
        notes[0]
            == PeerManagerNotification::Connected {
                peer: pair("test_peer", "my_id"),
            }
    );
}

// Listing peers returns every added peer.
#[test]
fn test_peer_manager_list_peer() {
    let mut state = new_state();
    let mut driver = ScriptedDriver::new();

    for (peer, endpoint) in [("test_peer", "inproc://test"), ("next_peer", "inproc://test_2")] {
        let (res, _) = add_peer(
            trust(peer),
            vec![endpoint.to_string()],
            &mut driver,
            &mut state.unreferenced,
            &mut state.peers,
            &mut state.refs,
            trust("my_id"),
            0,
        );
        res.expect("Unable to add peer");
        let notes = connect_peer(&mut state, &mut driver, endpoint, peer, "my_id", 1);
        assert_eq!(notes.len(), 1);
    }

    let mut peer_list = list_peers(&mut state, &mut driver);
    peer_list.sort_by_key(|t| match t {
        PeerAuthorizationToken::Trust { peer_id } => peer_id.clone(),
        PeerAuthorizationToken::Challenge { .. } => String::new(),
    });
    assert_eq!(peer_list, vec![trust("next_peer"), trust("test_peer")]);
}

// The connection-id table pairs every peer with its connection.
#[test]
fn test_peer_manager_connection_ids() {
    let mut state = new_state();
    let mut driver = ScriptedDriver::new();

    for (peer, endpoint) in [("test_peer", "inproc://test"), ("next_peer", "inproc://test_2")] {
        let (res, _) = add_peer(
            trust(peer),
            vec![endpoint.to_string()],
            &mut driver,
            &mut state.unreferenced,
            &mut state.peers,
            &mut state.refs,
            trust("my_id"),
            0,
        );
        res.expect("Unable to add peer");
        connect_peer(&mut state, &mut driver, endpoint, peer, "my_id", 1);
    }

    let peers = state.peers.connection_ids();
    assert!(peers.get_by_key(&pair("next_peer", "my_id")).is_some());
    assert!(peers.get_by_key(&pair("test_peer", "my_id")).is_some());
    // and back from the connection id to the peer
    let cid = connection_id_of(&state, "test_peer", "my_id");
    assert_eq!(peers.get_by_value(&cid), Some(&pair("test_peer", "my_id")));
}

// Dropping the only reference removes the peer and closes its
// connection.
#[test]
fn test_peer_manager_drop_peer_ref() {
    let mut state = new_state();
    let mut driver = ScriptedDriver::new();

    let (res, _) = add_peer(
        trust("test_peer"),
        vec!["inproc://test".to_string()],
        &mut driver,
        &mut state.unreferenced,
        &mut state.peers,
        &mut state.refs,
        trust("my_id"),
        0,
    );
    let peer_ref = res.expect("Unable to add peer");
    connect_peer(&mut state, &mut driver, "inproc://test", "test_peer", "my_id", 1);
    assert_eq!(list_peers(&mut state, &mut driver), vec![trust("test_peer")]);

    // dropping the handle sends the removal the destructor would enqueue
    let removed = remove_peer(
        peer_ref.peer_id().clone(),
        &mut driver,
        &mut state.unreferenced,
        &mut state.peers,
        &mut state.refs,
        true,
    );
    removed.expect("Unable to remove peer");

    assert_eq!(
        list_peers(&mut state, &mut driver),
        Vec::<PeerAuthorizationToken>::new()
    );
    assert!(!driver.removals.is_empty());
}

// An endpoint reference keeps the peer alive after the identified
// reference is dropped; dropping the endpoint reference removes it.
#[test]
fn test_peer_manager_drop_endpoint_peer_ref() {
    let mut state = new_state();
    let mut driver = ScriptedDriver::new();

    let endpoint_peer_ref = add_unidentified(
        "inproc://test".to_string(),
        &mut driver,
        &mut state.unreferenced,
        &state.peers,
        &mut state.refs,
        trust("my_id"),
    );
    assert_eq!(endpoint_peer_ref.endpoint(), &"inproc://test".to_string());

    // the connection comes up and the identity is learned
    let notes = handle_notifications(
        ConnectionManagerNotification::Connected {
            endpoint: "inproc://test".to_string(),
            connection_id: endpoint_peer_ref.connection_id().clone(),
            identity: trust("test_peer"),
            local_identity: trust("my_id"),
        },
        &mut state.unreferenced,
        &mut state.peers,
        &mut driver,
        MAX_RETRY_ATTEMPTS,
        &mut state.refs,
        RETRY_FREQUENCY,
        MAX_RETRY_FREQUENCY,
        1,
    );
    assert_eq!(notes.len(), 1);
    assert!(
        notes[0]
            == PeerManagerNotification::Connected {
                peer: pair("test_peer", "my_id"),
            }
    );

    let (res, _) = add_peer(
        trust("test_peer"),
        vec!["inproc://test".to_string()],
        &mut driver,
        &mut state.unreferenced,
        &mut state.peers,
        &mut state.refs,
        trust("my_id"),
        2,
    );
    let peer_ref = res.expect("Unable to add peer");
    assert_eq!(peer_ref.peer_id(), &pair("test_peer", "my_id"));
    assert_eq!(list_peers(&mut state, &mut driver), vec![trust("test_peer")]);

    // dropping the identified reference leaves the endpoint reference
    let removed = remove_peer(
        peer_ref.peer_id().clone(),
        &mut driver,
        &mut state.unreferenced,
        &mut state.peers,
        &mut state.refs,
        true,
    );
    removed.expect("Unable to remove peer");
    assert_eq!(list_peers(&mut state, &mut driver), vec![trust("test_peer")]);

    // dropping the endpoint reference removes the peer
    let cid = connection_id_of(&state, "test_peer", "my_id");
    let removed = remove_peer_by_endpoint(
        "inproc://test".to_string(),
        cid,
        &mut driver,
        &mut state.peers,
        &mut state.refs,
        true,
    );
    removed.expect("Unable to remove peer by endpoint");
    assert_eq!(
        list_peers(&mut state, &mut driver),
        Vec::<PeerAuthorizationToken>::new()
    );
}

// After the active endpoint dies and its retries are exhausted, the
// manager connects on the peer's other endpoint.
#[test]
fn test_peer_manager_update_active_endpoint() {
    let mut state = new_state();
    let mut driver = ScriptedDriver::new();
    let endpoint = "tcp://localhost:5000";
    let endpoint2 = "tcp://localhost:5001";

    let (res, _) = add_peer(
        trust("test_peer"),
        vec![endpoint.to_string(), endpoint2.to_string()],
        &mut driver,
        &mut state.unreferenced,
        &mut state.peers,
        &mut state.refs,
        trust("my_id"),
        0,
    );
    res.expect("Unable to add peer");
    let notes = connect_peer(&mut state, &mut driver, endpoint, "test_peer", "my_id", 1);
    assert!(
        notes[0]
            == PeerManagerNotification::Connected {
                peer: pair("test_peer", "my_id"),
            }
    );

    // the connection is torn down
    let cid = connection_id_of(&state, "test_peer", "my_id");
    let notes = handle_notifications(
        ConnectionManagerNotification::Disconnected {
            endpoint: endpoint.to_string(),
            identity: trust("test_peer"),
            connection_id: cid.clone(),
        },
        &mut state.unreferenced,
        &mut state.peers,
        &mut driver,
        1,
        &mut state.refs,
        RETRY_FREQUENCY,
        MAX_RETRY_FREQUENCY,
        2,
    );
    assert!(
        notes[0]
            == PeerManagerNotification::Disconnected {
                peer: pair("test_peer", "my_id"),
            }
    );

    // the retry limit on the first endpoint is reached; the manager
    // asks for the second endpoint
    driver.requests.clear();
    let notes = handle_notifications(
        ConnectionManagerNotification::NonFatalConnectionError {
            endpoint: endpoint.to_string(),
            attempts: 1,
            connection_id: cid.clone(),
        },
        &mut state.unreferenced,
        &mut state.peers,
        &mut driver,
        1,
        &mut state.refs,
        RETRY_FREQUENCY,
        MAX_RETRY_FREQUENCY,
        3,
    );
    assert!(notes.is_empty());
    assert!(driver.requests.iter().any(|(e, _)| e == endpoint2));

    // the second endpoint connects
    let notes = connect_peer(&mut state, &mut driver, endpoint2, "test_peer", "my_id", 4);
    assert!(
        notes[0]
            == PeerManagerNotification::Connected {
                peer: pair("test_peer", "my_id"),
            }
    );
    let meta = state
        .peers
        .get_by_peer_id(&pair("test_peer", "my_id"))
        .expect("peer missing");
    assert_eq!(meta.active_endpoint, endpoint2.to_string());
}

// An inbound connection from an unknown identity becomes an
// unreferenced peer, and a later add promotes it without a new
// connection request.
#[test]
fn test_incoming_peer_request() {
    let mut state = new_state();
    let mut driver = ScriptedDriver::new();

    let notes = handle_notifications(
        ConnectionManagerNotification::InboundConnection {
            endpoint: "inproc://test".to_string(),
            connection_id: "inbound-connection".to_string(),
            identity: trust("test_peer"),
            local_identity: trust("my_id"),
        },
        &mut state.unreferenced,
        &mut state.peers,
        &mut driver,
        MAX_RETRY_ATTEMPTS,
        &mut state.refs,
        RETRY_FREQUENCY,
        MAX_RETRY_FREQUENCY,
        0,
    );
    assert!(notes.is_empty());

    // the peer is not part of the set of active peers
    assert!(list_peers(&mut state, &mut driver).is_empty());
    let keys = state.unreferenced.peer_keys();
    assert_eq!(keys, vec![pair("test_peer", "my_id")]);

    let (res, notes) = add_peer(
        trust("test_peer"),
        vec!["inproc://test".to_string()],
        &mut driver,
        &mut state.unreferenced,
        &mut state.peers,
        &mut state.refs,
        trust("my_id"),
        1,
    );
    let peer_ref = res.expect("Unable to add peer");
    assert_eq!(peer_ref.peer_id(), &pair("test_peer", "my_id"));
    assert_eq!(notes.len(), 1);
    assert!(
        notes[0]
            == PeerManagerNotification::Connected {
                peer: pair("test_peer", "my_id"),
            }
    );

    // the promotion reused the inbound connection: nothing was dialed
    assert!(driver.requests.is_empty());
    assert_eq!(list_peers(&mut state, &mut driver), vec![trust("test_peer")]);
    assert_eq!(
        connection_id_of(&state, "test_peer", "my_id"),
        "inbound-connection".to_string()
    );
    assert!(state.unreferenced.peer_keys().is_empty());
}

// A subscriber may carry notifications into its own message type.
#[test]
fn test_peer_manager_notifciation_convert() {
    #[derive(PartialEq)]
    enum TestEnum {
        Notification(PeerManagerNotification),
    }
    impl From<PeerManagerNotification> for TestEnum {
        fn from(notification: PeerManagerNotification) -> Self {
            TestEnum::Notification(notification)
        }
    }

    let mut state = new_state();
    let mut driver = ScriptedDriver::new();
    let (res, _) = add_peer(
        trust("test_peer"),
        vec!["inproc://test".to_string()],
        &mut driver,
        &mut state.unreferenced,
        &mut state.peers,
        &mut state.refs,
        trust("my_id"),
        0,
    );
    let peer_ref = res.expect("Unable to add peer");
    assert_eq!(peer_ref.peer_id(), &pair("test_peer", "my_id"));

    let mut notes = connect_peer(&mut state, &mut driver, "inproc://test", "test_peer", "my_id", 1);
    let converted: TestEnum = notes.remove(0).into();
    assert!(
        converted
            == TestEnum::Notification(PeerManagerNotification::Connected {
                peer: pair("test_peer", "my_id"),
            })
    );
}

use splinter_peer::cm::{
    ConnectionDriver, ConnectionErrorKind, ConnectionManagerError, ConnectionManagerNotification,
    ConnectRequestLog, log_connect_request_err,
};
use splinter_peer::error::{PeerRefAddError, PeerRefRemoveError};
use splinter_peer::manager::{
    add_peer, add_unidentified, double_retry_frequency, handle_notifications, handle_request,
    remove_peer, removal_result, retry_pending, PeerManagerReply, PeerManagerRequest,
};
use splinter_peer::notification::{PeerManagerNotification, SubscriberMap};
use splinter_peer::peer_map::{PeerMap, PeerStatus};
use splinter_peer::ref_map::RefMap;
use splinter_peer::token::{token_is_less, PeerAuthorizationToken, PeerTokenPair};
use splinter_peer::unreferenced::UnreferencedPeerState;

const RETRY_FREQUENCY: u64 = 10;
const MAX_RETRY_FREQUENCY: u64 = 300;
const MAX_RETRY_ATTEMPTS: u64 = 5;
const ENDPOINT_RETRY_FREQUENCY: u64 = 60;

struct ScriptedDriver {
    refuse: Vec<String>,
    requests: Vec<(String, String)>,
    removals: Vec<(String, String)>,
    removal_reply: Result<bool, ()>,
}

impl ScriptedDriver {
    fn new() -> Self {
        ScriptedDriver {
            refuse: Vec::new(),
            requests: Vec::new(),
            removals: Vec::new(),
            removal_reply: Ok(true),
        }
    }
}

impl ConnectionDriver for ScriptedDriver {
    fn request_connection(
        &mut self,
        endpoint: &str,
        connection_id: &str,
        _expected_remote: Option<&PeerAuthorizationToken>,
        _local_authorization: Option<&PeerAuthorizationToken>,
    ) -> Result<(), ConnectionManagerError> {
        self.requests
            .push((endpoint.to_string(), connection_id.to_string()));
        if self.refuse.iter().any(|e| e == endpoint) {
            Err(ConnectionManagerError::ConnectionCreationError {
                context: format!("unable to connect to {}", endpoint),
                error_kind: Some(ConnectionErrorKind::ConnectionRefused),
            })
        } else {
            Ok(())
        }
    }

    fn remove_connection(
        &mut self,
        endpoint: &str,
        connection_id: &str,
    ) -> Result<bool, ConnectionManagerError> {
        self.removals
            .push((endpoint.to_string(), connection_id.to_string()));
        match self.removal_reply {
            Ok(b) => Ok(b),
            Err(()) => Err(ConnectionManagerError::Unclassified {
                message: "removal failed".to_string(),
            }),
        }
    }
}

struct State {
    peers: PeerMap,
    unreferenced: UnreferencedPeerState,
    refs: RefMap,
    subscribers: SubscriberMap,
}

fn new_state() -> State {
    State {
        peers: PeerMap::new(RETRY_FREQUENCY),
        unreferenced: UnreferencedPeerState::new(ENDPOINT_RETRY_FREQUENCY, 0),
        refs: RefMap::new(),
        subscribers: SubscriberMap::new(),
    }
}

fn trust(name: &str) -> PeerAuthorizationToken {
    PeerAuthorizationToken::from_peer_id(name)
}

fn pair(remote: &str, local: &str) -> PeerTokenPair {
    PeerTokenPair::new(trust(remote), trust(local))
}

/// Sets up a connected peer `(remote, local)` on `endpoint` and returns
/// its connection id.
fn connected_peer(
    state: &mut State,
    driver: &mut ScriptedDriver,
    endpoint: &str,
    remote: &str,
    local: &str,
) -> String {
    let (res, _) = add_peer(
        trust(remote),
        vec![endpoint.to_string()],
        driver,
        &mut state.unreferenced,
        &mut state.peers,
        &mut state.refs,
        trust(local),
        0,
    );
    res.expect("Unable to add peer");
    let cid = state
        .peers
        .get_by_peer_id(&pair(remote, local))
        .unwrap()
        .connection_id
        .clone();
    handle_notifications(
        ConnectionManagerNotification::Connected {
            endpoint: endpoint.to_string(),
            connection_id: cid.clone(),
            identity: trust(remote),
            local_identity: trust(local),
        },
        &mut state.unreferenced,
        &mut state.peers,
        driver,
        MAX_RETRY_ATTEMPTS,
        &mut state.refs,
        RETRY_FREQUENCY,
        MAX_RETRY_FREQUENCY,
        1,
    );
    cid
}

// When both sides connect at once and the local token outranks the
// remote one, the inbound connection is discarded and the outbound one
// survives.
#[test]
fn simultaneous_connect_local_wins() {
    let mut state = new_state();
    let mut driver = ScriptedDriver::new();
    // local "z_local" > remote "a_remote"
    let cid = connected_peer(&mut state, &mut driver, "inproc://out", "a_remote", "z_local");

    let notes = handle_notifications(
        ConnectionManagerNotification::InboundConnection {
            endpoint: "inproc://in".to_string(),
            connection_id: "inbound-cid".to_string(),
            identity: trust("a_remote"),
            local_identity: trust("z_local"),
        },
        &mut state.unreferenced,
        &mut state.peers,
        &mut driver,
        MAX_RETRY_ATTEMPTS,
        &mut state.refs,
        RETRY_FREQUENCY,
        MAX_RETRY_FREQUENCY,
        2,
    );
    // the inbound connection was dropped; no new Connected announcement
    assert!(notes.is_empty());
    assert!(driver
        .removals
        .contains(&("inproc://in".to_string(), "inbound-cid".to_string())));
    let meta = state.peers.get_by_peer_id(&pair("a_remote", "z_local")).unwrap();
    assert_eq!(meta.connection_id, cid);
}

// When the remote token outranks the local one, the inbound connection
// replaces the outbound one, and the old connection is closed.
#[test]
fn simultaneous_connect_remote_wins() {
    let mut state = new_state();
    let mut driver = ScriptedDriver::new();
    // local "a_local" < remote "z_remote"
    let cid = connected_peer(&mut state, &mut driver, "inproc://out", "z_remote", "a_local");

    let notes = handle_notifications(
        ConnectionManagerNotification::InboundConnection {
            endpoint: "inproc://in".to_string(),
            connection_id: "inbound-cid".to_string(),
            identity: trust("z_remote"),
            local_identity: trust("a_local"),
        },
        &mut state.unreferenced,
        &mut state.peers,
        &mut driver,
        MAX_RETRY_ATTEMPTS,
        &mut state.refs,
        RETRY_FREQUENCY,
        MAX_RETRY_FREQUENCY,
        2,
    );
    assert_eq!(notes.len(), 1);
    assert!(
        notes[0]
            == PeerManagerNotification::Connected {
                peer: pair("z_remote", "a_local"),
            }
    );
    assert!(driver
        .removals
        .contains(&("inproc://out".to_string(), cid.clone())));
    let meta = state.peers.get_by_peer_id(&pair("z_remote", "a_local")).unwrap();
    assert_eq!(meta.connection_id, "inbound-cid".to_string());
    assert_eq!(meta.status, PeerStatus::Connected);
}

// A peer first added by endpoint carries a single endpoint; a later add
// with a superset list that contains it widens the list.
#[test]
fn endpoint_list_reconciliation() {
    let mut state = new_state();
    let mut driver = ScriptedDriver::new();

    let epr = add_unidentified(
        "inproc://test".to_string(),
        &mut driver,
        &mut state.unreferenced,
        &state.peers,
        &mut state.refs,
        trust("my_id"),
    );
    handle_notifications(
        ConnectionManagerNotification::Connected {
            endpoint: "inproc://test".to_string(),
            connection_id: epr.connection_id().clone(),
            identity: trust("test_peer"),
            local_identity: trust("my_id"),
        },
        &mut state.unreferenced,
        &mut state.peers,
        &mut driver,
        MAX_RETRY_ATTEMPTS,
        &mut state.refs,
        RETRY_FREQUENCY,
        MAX_RETRY_FREQUENCY,
        1,
    );

    // superset containing the original endpoint: accepted and widened
    let (res, _) = add_peer(
        trust("test_peer"),
        vec!["inproc://test".to_string(), "inproc://other".to_string()],
        &mut driver,
        &mut state.unreferenced,
        &mut state.peers,
        &mut state.refs,
        trust("my_id"),
        2,
    );
    res.expect("Unable to reconcile endpoints");
    let meta = state.peers.get_by_peer_id(&pair("test_peer", "my_id")).unwrap();
    assert_eq!(
        meta.endpoints,
        vec!["inproc://test".to_string(), "inproc://other".to_string()]
    );
}

// A multi-endpoint add that leaves out the originally requested
// endpoint is rejected.
#[test]
fn endpoint_list_mismatch_rejected() {
    let mut state = new_state();
    let mut driver = ScriptedDriver::new();

    let epr = add_unidentified(
        "inproc://test".to_string(),
        &mut driver,
        &mut state.unreferenced,
        &state.peers,
        &mut state.refs,
        trust("my_id"),
    );
    handle_notifications(
        ConnectionManagerNotification::Connected {
            endpoint: "inproc://test".to_string(),
            connection_id: epr.connection_id().clone(),
            identity: trust("test_peer"),
            local_identity: trust("my_id"),
        },
        &mut state.unreferenced,
        &mut state.peers,
        &mut driver,
        MAX_RETRY_ATTEMPTS,
        &mut state.refs,
        RETRY_FREQUENCY,
        MAX_RETRY_FREQUENCY,
        1,
    );

    let (res, _) = add_peer(
        trust("test_peer"),
        vec!["inproc://a".to_string(), "inproc://b".to_string()],
        &mut driver,
        &mut state.unreferenced,
        &mut state.peers,
        &mut state.refs,
        trust("my_id"),
        2,
    );
    match res {
        Err(PeerRefAddError::EndpointMismatch) => {}
        _ => panic!("expected an endpoint mismatch"),
    }
}

// An add with no endpoints at all is rejected.
#[test]
fn missing_endpoints_rejected() {
    let mut state = new_state();
    let mut driver = ScriptedDriver::new();
    let (res, _) = add_peer(
        trust("test_peer"),
        Vec::new(),
        &mut driver,
        &mut state.unreferenced,
        &mut state.peers,
        &mut state.refs,
        trust("my_id"),
        0,
    );
    match res {
        Err(PeerRefAddError::MissingEndpoints) => {}
        _ => panic!("expected missing endpoints to be rejected"),
    }
    // the rolled-back reference leaves no trace
    assert!(state.peers.get_by_peer_id(&pair("test_peer", "my_id")).is_none());
}

// Removing a reference that does not exist is an error in lenient mode.
#[test]
fn remove_unknown_peer_lenient() {
    let mut state = new_state();
    let mut driver = ScriptedDriver::new();
    let res = remove_peer(
        pair("nobody", "my_id"),
        &mut driver,
        &mut state.unreferenced,
        &mut state.peers,
        &mut state.refs,
        false,
    );
    match res {
        Err(PeerRefRemoveError::UnknownPeer) => {}
        _ => panic!("expected an unknown-peer error"),
    }
}

// The connection manager's removal answers map onto the caller-visible
// results.
#[test]
fn removal_result_mapping() {
    assert!(removal_result(Ok(true)).is_ok());
    match removal_result(Ok(false)) {
        Err(PeerRefRemoveError::ConnectionAlreadyRemoved) => {}
        _ => panic!("expected already-removed"),
    }
    match removal_result(Err(ConnectionManagerError::Unclassified {
        message: "gone".to_string(),
    })) {
        Err(PeerRefRemoveError::ConnectionError { .. }) => {}
        _ => panic!("expected a connection error"),
    }

    // a failing removal surfaces to the caller of remove_peer
    let mut state = new_state();
    let mut driver = ScriptedDriver::new();
    driver.removal_reply = Ok(false);
    let cid = connected_peer(&mut state, &mut driver, "inproc://test", "test_peer", "my_id");
    assert!(!cid.is_empty());
    let res = remove_peer(
        pair("test_peer", "my_id"),
        &mut driver,
        &mut state.unreferenced,
        &mut state.peers,
        &mut state.refs,
        true,
    );
    match res {
        Err(PeerRefRemoveError::ConnectionAlreadyRemoved) => {}
        _ => panic!("expected already-removed"),
    }
    // the peer is gone regardless
    assert!(state.peers.get_by_peer_id(&pair("test_peer", "my_id")).is_none());
}

// A pending peer whose backoff has elapsed is dialed again and its
// backoff doubles, up to the ceiling.
#[test]
fn retry_sweep_dials_pending_peer() {
    let mut state = new_state();
    let mut driver = ScriptedDriver::new();
    driver.refuse = vec!["inproc://down".to_string()];

    let (res, _) = add_peer(
        trust("test_peer"),
        vec!["inproc://down".to_string()],
        &mut driver,
        &mut state.unreferenced,
        &mut state.peers,
        &mut state.refs,
        trust("my_id"),
        0,
    );
    res.expect("Unable to add peer");
    driver.requests.clear();

    // before the backoff elapses: nothing happens
    retry_pending(
        &mut state.peers,
        &mut driver,
        &mut state.unreferenced,
        MAX_RETRY_FREQUENCY,
        RETRY_FREQUENCY,
    );
    assert!(driver.requests.is_empty());

    // once it has elapsed the endpoint is dialed and the backoff doubles
    retry_pending(
        &mut state.peers,
        &mut driver,
        &mut state.unreferenced,
        MAX_RETRY_FREQUENCY,
        RETRY_FREQUENCY + 1,
    );
    assert_eq!(driver.requests.len(), 1);
    assert_eq!(driver.requests[0].0, "inproc://down");
    let meta = state.peers.get_by_peer_id(&pair("test_peer", "my_id")).unwrap();
    assert_eq!(meta.retry_frequency, 2 * RETRY_FREQUENCY);
    assert_eq!(meta.last_connection_attempt, RETRY_FREQUENCY + 1);
}

// The backoff doubling caps at the configured ceiling.
#[test]
fn backoff_doubles_up_to_ceiling() {
    assert_eq!(double_retry_frequency(10, 300), 20);
    assert_eq!(double_retry_frequency(150, 300), 300);
    assert_eq!(double_retry_frequency(200, 300), 300);
    assert_eq!(double_retry_frequency(300, 300), 300);
}

// A fatal connection error pushes the peer back to pending with a
// doubled backoff and announces the disconnect.
#[test]
fn fatal_error_restarts_peer() {
    let mut state = new_state();
    let mut driver = ScriptedDriver::new();
    let cid = connected_peer(&mut state, &mut driver, "inproc://test", "test_peer", "my_id");

    let notes = handle_notifications(
        ConnectionManagerNotification::FatalConnectionError {
            connection_id: cid,
            error: "authorization failed".to_string(),
        },
        &mut state.unreferenced,
        &mut state.peers,
        &mut driver,
        MAX_RETRY_ATTEMPTS,
        &mut state.refs,
        RETRY_FREQUENCY,
        MAX_RETRY_FREQUENCY,
        9,
    );
    assert_eq!(notes.len(), 1);
    assert!(
        notes[0]
            == PeerManagerNotification::Disconnected {
                peer: pair("test_peer", "my_id"),
            }
    );
    let meta = state.peers.get_by_peer_id(&pair("test_peer", "my_id")).unwrap();
    assert_eq!(meta.status, PeerStatus::Pending);
    assert_eq!(meta.retry_frequency, 2 * RETRY_FREQUENCY);
    assert_eq!(meta.last_connection_attempt, 9);
}

// The token order is total on names and puts every Trust identity
// before every Challenge identity; swapping the operands flips the
// answer, so both sides of a simultaneous connection agree on the
// survivor.
#[test]
fn token_order_is_deterministic() {
    let a = trust("alpha");
    let b = trust("beta");
    assert!(token_is_less(&a, &b));
    assert!(!token_is_less(&b, &a));
    assert!(!token_is_less(&a, &a));

    let c = PeerAuthorizationToken::from_public_key(&[1, 2, 3]);
    let d = PeerAuthorizationToken::from_public_key(&[1, 2, 4]);
    assert!(token_is_less(&c, &d));
    assert!(!token_is_less(&d, &c));
    assert!(token_is_less(&a, &c));
    assert!(!token_is_less(&c, &a));

    // prefixes sort first
    let e = trust("alp");
    assert!(token_is_less(&e, &a));
    assert!(!token_is_less(&a, &e));
}

// Connection ids drawn for new peers are hyphenated UUIDs.
#[test]
fn fresh_connection_ids_are_uuids() {
    let mut state = new_state();
    let mut driver = ScriptedDriver::new();
    let (res, _) = add_peer(
        trust("test_peer"),
        vec!["inproc://test".to_string()],
        &mut driver,
        &mut state.unreferenced,
        &mut state.peers,
        &mut state.refs,
        trust("my_id"),
        0,
    );
    res.expect("Unable to add peer");
    let cid = state
        .peers
        .get_by_peer_id(&pair("test_peer", "my_id"))
        .unwrap()
        .connection_id
        .clone();
    assert_eq!(cid.len(), 36);
    assert_eq!(cid.chars().filter(|c| *c == '-').count(), 4);

    // a second add draws a fresh id
    let mut state2 = new_state();
    let (res2, _) = add_peer(
        trust("test_peer"),
        vec!["inproc://test".to_string()],
        &mut driver,
        &mut state2.unreferenced,
        &mut state2.peers,
        &mut state2.refs,
        trust("my_id"),
        0,
    );
    res2.expect("Unable to add peer");
    let cid2 = state2
        .peers
        .get_by_peer_id(&pair("test_peer", "my_id"))
        .unwrap()
        .connection_id
        .clone();
    assert_ne!(cid, cid2);
}

// Subscribing hands out fresh identifiers; unsubscribing forgets them.
#[test]
fn subscribe_and_unsubscribe() {
    let mut state = new_state();
    let mut driver = ScriptedDriver::new();

    let mut subscribe = |state: &mut State, driver: &mut ScriptedDriver| {
        let (reply, _) = handle_request(
            PeerManagerRequest::Subscribe,
            driver,
            &mut state.unreferenced,
            &mut state.peers,
            &mut state.refs,
            &mut state.subscribers,
            true,
            0,
        );
        match reply {
            PeerManagerReply::Subscribed(Ok(id)) => id,
            _ => panic!("unexpected reply to Subscribe"),
        }
    };
    let first = subscribe(&mut state, &mut driver);
    let second = subscribe(&mut state, &mut driver);
    assert_ne!(first, second);
    assert_eq!(state.subscribers.ids, vec![first, second]);

    let (reply, _) = handle_request(
        PeerManagerRequest::Unsubscribe { subscriber_id: first },
        &mut driver,
        &mut state.unreferenced,
        &mut state.peers,
        &mut state.refs,
        &mut state.subscribers,
        true,
        0,
    );
    match reply {
        PeerManagerReply::Unsubscribed(Ok(())) => {}
        _ => panic!("unexpected reply to Unsubscribe"),
    }
    assert_eq!(state.subscribers.ids, vec![second]);
}

// Lookups answer from the peer map first and the unreferenced table
// second.
#[test]
fn lookup_connection_and_peer_ids() {
    let mut state = new_state();
    let mut driver = ScriptedDriver::new();
    let cid = connected_peer(&mut state, &mut driver, "inproc://test", "test_peer", "my_id");

    let (reply, _) = handle_request(
        PeerManagerRequest::GetConnectionId { peer_id: pair("test_peer", "my_id") },
        &mut driver,
        &mut state.unreferenced,
        &mut state.peers,
        &mut state.refs,
        &mut state.subscribers,
        true,
        2,
    );
    match reply {
        PeerManagerReply::ConnectionId(Ok(Some(found))) => assert_eq!(found, cid),
        _ => panic!("expected the peer's connection id"),
    }

    let (reply, _) = handle_request(
        PeerManagerRequest::GetPeerId { connection_id: cid },
        &mut driver,
        &mut state.unreferenced,
        &mut state.peers,
        &mut state.refs,
        &mut state.subscribers,
        true,
        2,
    );
    match reply {
        PeerManagerReply::PeerId(Ok(Some(found))) => {
            assert_eq!(found, pair("test_peer", "my_id"))
        }
        _ => panic!("expected the connection's peer id"),
    }

    let (reply, _) = handle_request(
        PeerManagerRequest::GetPeerId { connection_id: "no-such-connection".to_string() },
        &mut driver,
        &mut state.unreferenced,
        &mut state.peers,
        &mut state.refs,
        &mut state.subscribers,
        true,
        2,
    );
    match reply {
        PeerManagerReply::PeerId(Ok(None)) => {}
        _ => panic!("expected no peer id"),
    }
}

// Failed connection requests are classified for the log by error kind.
#[test]
fn connect_request_log_classification() {
    let peer = trust("test_peer");
    let refused = log_connect_request_err(
        ConnectionManagerError::ConnectionCreationError {
            context: "refused".to_string(),
            error_kind: Some(ConnectionErrorKind::ConnectionRefused),
        },
        &peer,
        "inproc://test",
    );
    match refused {
        ConnectRequestLog::Refused { endpoint, .. } => {
            assert_eq!(endpoint, "inproc://test".to_string())
        }
        _ => panic!("expected a refused classification"),
    }

    let creation = log_connect_request_err(
        ConnectionManagerError::ConnectionCreationError {
            context: "no route".to_string(),
            error_kind: None,
        },
        &peer,
        "inproc://test",
    );
    match creation {
        ConnectRequestLog::CreationFailed { context, .. } => {
            assert_eq!(context, "no route".to_string())
        }
        _ => panic!("expected a creation failure"),
    }

    let failed = log_connect_request_err(
        ConnectionManagerError::ConnectionCreationError {
            context: "broken".to_string(),
            error_kind: Some(ConnectionErrorKind::Other),
        },
        &peer,
        "inproc://test",
    );
    match failed {
        ConnectRequestLog::Failed { context, .. } => assert_eq!(context, "broken".to_string()),
        _ => panic!("expected a failed classification"),
    }

    let errored = log_connect_request_err(
        ConnectionManagerError::Unclassified { message: "channel closed".to_string() },
        &peer,
        "inproc://test",
    );
    match errored {
        ConnectRequestLog::Errored { message, .. } => {
            assert_eq!(message, "channel closed".to_string())
        }
        _ => panic!("expected an unclassified error"),
    }
}

// The scabbard message handler accepts every message.
#[test]
fn scabbard_message_handler_accepts() {
    let mut handler = splinter_peer::service::ScabbardMessageHandler::new();
    let to = "circuit-a::service-1".to_string();
    let from = "circuit-a::service-2".to_string();
    assert!(handler.handle_message(&to, &from).is_ok());
}

// Two references added, two dropped: the peer is gone afterwards, and
// not before.
#[test]
fn add_twice_drop_twice_removes_peer() {
    let mut state = new_state();
    let mut driver = ScriptedDriver::new();
    connected_peer(&mut state, &mut driver, "inproc://test", "test_peer", "my_id");
    let (res, _) = add_peer(
        trust("test_peer"),
        vec!["inproc://test".to_string()],
        &mut driver,
        &mut state.unreferenced,
        &mut state.peers,
        &mut state.refs,
        trust("my_id"),
        2,
    );
    res.expect("Unable to add second reference");

    remove_peer(
        pair("test_peer", "my_id"),
        &mut driver,
        &mut state.unreferenced,
        &mut state.peers,
        &mut state.refs,
        true,
    )
    .expect("Unable to drop first reference");
    assert!(state.peers.get_by_peer_id(&pair("test_peer", "my_id")).is_some());

    remove_peer(
        pair("test_peer", "my_id"),
        &mut driver,
        &mut state.unreferenced,
        &mut state.peers,
        &mut state.refs,
        true,
    )
    .expect("Unable to drop second reference");
    assert!(state.peers.get_by_peer_id(&pair("test_peer", "my_id")).is_none());
}

// After a mixed run of transitions, every peer still holds at least one
// reference, no key is both a full and an unreferenced peer, and the
// run produced exactly one Connected announcement per transition into
// the connected state.
#[test]
fn invariants_hold_across_transitions() {
    let mut state = new_state();
    let mut driver = ScriptedDriver::new();
    let mut connected_count = 0;

    let (res, notes) = add_peer(
        trust("test_peer"),
        vec!["inproc://test".to_string()],
        &mut driver,
        &mut state.unreferenced,
        &mut state.peers,
        &mut state.refs,
        trust("my_id"),
        0,
    );
    res.expect("Unable to add peer");
    connected_count += notes
        .iter()
        .filter(|n| matches!(n, PeerManagerNotification::Connected { .. }))
        .count();
    let cid = state
        .peers
        .get_by_peer_id(&pair("test_peer", "my_id"))
        .unwrap()
        .connection_id
        .clone();
    let notes = handle_notifications(
        ConnectionManagerNotification::Connected {
            endpoint: "inproc://test".to_string(),
            connection_id: cid.clone(),
            identity: trust("test_peer"),
            local_identity: trust("my_id"),
        },
        &mut state.unreferenced,
        &mut state.peers,
        &mut driver,
        MAX_RETRY_ATTEMPTS,
        &mut state.refs,
        RETRY_FREQUENCY,
        MAX_RETRY_FREQUENCY,
        1,
    );
    connected_count += notes
        .iter()
        .filter(|n| matches!(n, PeerManagerNotification::Connected { .. }))
        .count();
    // one transition into Connected so far
    assert_eq!(connected_count, 1);

    // an unknown inbound identity arrives, and a disconnect follows
    let notes = handle_notifications(
        ConnectionManagerNotification::InboundConnection {
            endpoint: "inproc://in".to_string(),
            connection_id: "inbound-cid".to_string(),
            identity: trust("stranger"),
            local_identity: trust("my_id"),
        },
        &mut state.unreferenced,
        &mut state.peers,
        &mut driver,
        MAX_RETRY_ATTEMPTS,
        &mut state.refs,
        RETRY_FREQUENCY,
        MAX_RETRY_FREQUENCY,
        2,
    );
    assert!(notes.is_empty());
    let notes = handle_notifications(
        ConnectionManagerNotification::Disconnected {
            endpoint: "inproc://test".to_string(),
            identity: trust("test_peer"),
            connection_id: cid,
        },
        &mut state.unreferenced,
        &mut state.peers,
        &mut driver,
        MAX_RETRY_ATTEMPTS,
        &mut state.refs,
        RETRY_FREQUENCY,
        MAX_RETRY_FREQUENCY,
        3,
    );
    assert_eq!(notes.len(), 1);

    // every full peer holds a positive reference count
    for meta in state.peers.peers.iter() {
        let key = PeerTokenPair::new(meta.id.clone(), meta.required_local_auth.clone());
        let count = state
            .refs
            .entries
            .iter()
            .find(|(k, _)| *k == key)
            .map(|(_, c)| *c)
            .unwrap_or(0);
        assert!(count >= 1);
    }
    // no key is both a full peer and an unreferenced peer
    for key in state.unreferenced.peer_keys() {
        assert!(state.peers.get_by_peer_id(&key).is_none());
    }
    assert_eq!(state.unreferenced.peer_keys(), vec![pair("stranger", "my_id")]);
}

// Removing by an unknown connection id reports the missing peer.
#[test]
fn remove_by_unknown_connection_id() {
    let mut state = new_state();
    let mut driver = ScriptedDriver::new();
    let res = splinter_peer::manager::remove_peer_by_endpoint(
        "inproc://test".to_string(),
        "no-such-connection".to_string(),
        &mut driver,
        &mut state.peers,
        &mut state.refs,
        true,
    );
    match res {
        Err(PeerRefRemoveError::MissingPeerMetadata) => {}
        _ => panic!("expected a missing-peer error"),
    }
}

// Pending peers are listed for the retry sweep; connected peers are
// not.
#[test]
fn pending_peers_are_listed() {
    let mut state = new_state();
    let mut driver = ScriptedDriver::new();
    connected_peer(&mut state, &mut driver, "inproc://up", "up_peer", "my_id");
    let (res, _) = add_peer(
        trust("down_peer"),
        vec!["inproc://down".to_string()],
        &mut driver,
        &mut state.unreferenced,
        &mut state.peers,
        &mut state.refs,
        trust("my_id"),
        0,
    );
    res.expect("Unable to add peer");

    let pending = state.peers.get_pending();
    assert_eq!(pending.len(), 1);
    assert_eq!(pending[0].id, trust("down_peer"));
    assert_eq!(pending[0].status, PeerStatus::Pending);
}

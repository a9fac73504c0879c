//! The peer manager's message handlers.
//!
//! These functions are the state machine that the peer-manager actor
//! runs: one call per message, mutating the peer map, the unreferenced
//! table and the reference map, asking the connection manager for
//! connections through a [`ConnectionDriver`], and returning the
//! notifications to broadcast.  The surrounding application owns the
//! actor thread and the channels; it calls [`handle_request`] for caller
//! requests, [`handle_notifications`] for connection-manager events, and
//! [`retry_pending`] on every pacemaker tick.
//!
//! Contracts are stated over the views of the three tables.  Two
//! invariants thread through every handler: [`state_inv`] (reference
//! counts and the peer map agree, and the peer map and the unreferenced
//! table are disjoint) and [`trust_endpoints_distinct`] (no two distinct
//! `Trust` identities claim the same endpoint).

use vstd::prelude::*;

use crate::cm::{ConnectionDriver, ConnectionManagerNotification};
use crate::error::{
    PeerRefAddError, PeerRefRemoveError, PeerUnknownAddError, PeerListError, PeerLookupError,
    PeerConnectionIdError, PeerManagerError,
};
use crate::notification::{NotificationView, PeerManagerNotification, SubscriberId, SubscriberMap};
use crate::peer_map::{
    claims_endpoint, conn_at, conn_index_of, endpoint_claimed, has_conn, has_peer, peer_at,
    peer_index_of, string_vec_contains, ConnectionIdMap, PeerMap, PeerMetadata, PeerMetadataView,
    PeerStatus,
};
use crate::peer_ref::{EndpointPeerRef, PeerRef};
use crate::ref_map::{has_ref, ref_count, RefMap};
use crate::token::{PairView, PeerAuthorizationToken, PeerTokenPair, TokenView};
use crate::unreferenced::{
    has_req, has_unref, req_at, req_index_of, unref_at, unref_index_of, RequestedEndpoint,
    UnreferencedPeer, UnreferencedPeerState, UnreferencedPeerView,
};

verus! {

/// A caller request to the peer manager.  In the running system each
/// request travels with a reply channel; here the reply is the handler's
/// return value.
pub enum PeerManagerRequest {
    AddPeer {
        peer_id: PeerAuthorizationToken,
        endpoints: Vec<String>,
        required_local_auth: PeerAuthorizationToken,
    },
    AddUnidentified { endpoint: String, local_authorization: PeerAuthorizationToken },
    RemovePeer { peer_id: PeerTokenPair },
    RemovePeerByEndpoint { endpoint: String, connection_id: String },
    ListPeers,
    ListUnreferencedPeers,
    ConnectionIds,
    GetConnectionId { peer_id: PeerTokenPair },
    GetPeerId { connection_id: String },
    Subscribe,
    Unsubscribe { subscriber_id: SubscriberId },
}

/// The reply to a [`PeerManagerRequest`], one variant per request kind.
pub enum PeerManagerReply {
    PeerAdded(Result<PeerRef, PeerRefAddError>),
    UnidentifiedAdded(Result<EndpointPeerRef, PeerUnknownAddError>),
    PeerRemoved(Result<(), PeerRefRemoveError>),
    Peers(Result<Vec<PeerAuthorizationToken>, PeerListError>),
    UnreferencedPeers(Result<Vec<PeerTokenPair>, PeerListError>),
    ConnectionIds(Result<ConnectionIdMap, PeerConnectionIdError>),
    ConnectionId(Result<Option<String>, PeerLookupError>),
    PeerId(Result<Option<PeerTokenPair>, PeerLookupError>),
    Subscribed(Result<SubscriberId, PeerManagerError>),
    Unsubscribed(Result<(), PeerManagerError>),
}

/// The key of the peer a request speaks about.
pub open spec fn pair_of(remote: TokenView, local: TokenView) -> PairView {
    PairView { remote: remote, local: local }
}

/// The views of a list of notifications.
pub open spec fn notes_view(v: Seq<PeerManagerNotification>) -> Seq<NotificationView> {
    v.map_values(|n: PeerManagerNotification| n@)
}

/// The reference counts of `a` and `b` agree on every key.
pub open spec fn refs_eq(a: Seq<(PairView, u64)>, b: Seq<(PairView, u64)>) -> bool {
    forall|k: PairView| ref_count(a, k) == ref_count(b, k)
}

/// `b` holds one more reference for `k` than `a`, and the same counts
/// elsewhere.
pub open spec fn refs_plus_one(a: Seq<(PairView, u64)>, b: Seq<(PairView, u64)>, k: PairView) -> bool {
    &&& ref_count(b, k) == ref_count(a, k) + 1
    &&& forall|k2: PairView| k2 != k ==> ref_count(b, k2) == ref_count(a, k2)
}

/// The core state invariant, restored after every handled message:
/// every peer in the peer map holds at least one reference, every
/// reference belongs to a peer in the peer map, and no key is both a
/// full peer and an unreferenced peer.
pub open spec fn state_inv(
    peers: Seq<PeerMetadataView>,
    unref: Seq<(PairView, UnreferencedPeerView)>,
    refs: Seq<(PairView, u64)>,
) -> bool {
    &&& forall|k: PairView| has_peer(peers, k) ==> ref_count(refs, k) >= 1
    &&& forall|k: PairView| has_ref(refs, k) ==> has_peer(peers, k)
    &&& forall|k: PairView| has_peer(peers, k) ==> !has_unref(unref, k)
}

/// No endpoint is claimed by two distinct `Trust` identities.
pub open spec fn trust_endpoints_distinct(peers: Seq<PeerMetadataView>) -> bool {
    forall|i: int, j: int, e: Seq<char>|
        #![trigger claims_endpoint(peers[i], e), claims_endpoint(peers[j], e)]
        0 <= i < peers.len() && 0 <= j < peers.len() && claims_endpoint(peers[i], e)
            && claims_endpoint(peers[j], e) && peers[i].id is Trust && peers[j].id is Trust
            ==> peers[i].id == peers[j].id
}

/// Some peer in the map is a `Trust` identity other than `id` and claims
/// one of the endpoints in `eps`.
pub open spec fn trust_conflict(
    peers: Seq<PeerMetadataView>,
    id: TokenView,
    eps: Seq<Seq<char>>,
) -> bool {
    exists|i: int, j: int|
        0 <= i < peers.len() && 0 <= j < eps.len() && peers[i].id is Trust && peers[i].id != id
            && claims_endpoint(peers[i], eps[j])
}

/// Relies on `uuid::Uuid::new_v4`: a freshly drawn random version-4
/// UUID, rendered in its hyphenated form of 36 ASCII characters.
/// Nothing more is assumed of it; in particular the library never
/// assumes two draws differ.
#[verifier::external_body]
fn fresh_connection_id() -> (r: String)
    ensures
        r@.len() == 36,
{
    format!("{}", uuid::Uuid::new_v4())
}

/// `min(2 * f, max)`: the exponential backoff step, capped.
pub open spec fn bounded_double(f: u64, max: u64) -> int {
    if f > max / 2 {
        max as int
    } else {
        2 * f
    }
}

/// Doubles a retry frequency up to the configured ceiling.
pub fn double_retry_frequency(f: u64, max: u64) -> (r: u64)
    ensures
        r == bounded_double(f, max),
{
    if f > max / 2 {
        max
    } else {
        f * 2
    }
}

/// Checks whether adding `peer_id` with `endpoints` would give a `Trust`
/// peer an endpoint that a different `Trust` peer already claims.  Only
/// one `Trust` peer may hold an endpoint; `Challenge` peers are exempt.
pub fn check_for_duplicate_endpoint(
    peer_id: &PeerAuthorizationToken,
    endpoints: &Vec<String>,
    peer_map: &PeerMap,
) -> (r: bool)
    ensures
        r == (peer_id@ is Trust && trust_conflict(peer_map@, peer_id@, endpoints.deep_view())),
{
    if !peer_id.is_trust() {
        return false;
    }
    let n = endpoints.len();
    let mut j: usize = 0;
    while j < n
        invariant
            peer_id@ is Trust,
            0 <= j <= n,
            n == endpoints@.len(),
            forall|jj: int, i: int|
                0 <= jj < j && 0 <= i < peer_map@.len() ==> !(peer_map@[i].id is Trust
                    && peer_map@[i].id != peer_id@ && claims_endpoint(
                    peer_map@[i],
                    endpoints.deep_view()[jj],
                )),
        decreases n - j,
    {
        let endpoint = &endpoints[j];
        match peer_map.get_peer_from_endpoint(endpoint) {
            Some(metas) => {
                let m = metas.len();
                let mut t: usize = 0;
                while t < m
                    invariant
                        peer_id@ is Trust,
                        0 <= t <= m,
                        m == metas@.len(),
                        crate::peer_map::metas_view(metas@) == peer_map@.filter(
                            crate::peer_map::endpoint_pred(endpoints.deep_view()[j as int]),
                        ),
                        0 <= j < endpoints@.len(),
                        endpoints.deep_view()[j as int] == endpoints@[j as int]@,
                        forall|tt: int|
                            0 <= tt < t ==> !(metas@[tt]@.id is Trust && metas@[tt]@.id
                                != peer_id@),
                    decreases m - t,
                {
                    let is_conflict = metas[t].id.is_trust() && !(metas[t].id == *peer_id);
                    if is_conflict {
                        proof {
                            broadcast use vstd::seq_lib::group_filter_ensures;

                            let fs = peer_map@.filter(
                                crate::peer_map::endpoint_pred(endpoints.deep_view()[j as int]),
                            );
                            assert(fs[t as int] == metas@[t as int]@);
                            assert(fs.contains(fs[t as int]));
                            peer_map@.lemma_filter_contains_rev(
                                crate::peer_map::endpoint_pred(endpoints.deep_view()[j as int]),
                                fs[t as int],
                            );
                            let w = choose|w: int|
                                0 <= w < peer_map@.len() && peer_map@[w] == fs[t as int];
                            assert(claims_endpoint(peer_map@[w], endpoints.deep_view()[j as int]));
                            assert(peer_map@[w].id is Trust);
                            assert(peer_map@[w].id != peer_id@);
                            assert(0 <= j < endpoints.deep_view().len());
                            assert(trust_conflict(peer_map@, peer_id@, endpoints.deep_view()));
                        }
                        return true;
                    }
                    t = t + 1;
                }
                proof {
                    broadcast use vstd::seq_lib::group_filter_ensures;

                    let e = endpoints.deep_view()[j as int];
                    let pred = crate::peer_map::endpoint_pred(e);
                    let fs = peer_map@.filter(pred);
                    assert forall|i: int|
                        0 <= i < peer_map@.len() implies !(peer_map@[i].id is Trust
                        && peer_map@[i].id != peer_id@ && claims_endpoint(peer_map@[i], e)) by {
                        if claims_endpoint(peer_map@[i], e) {
                            assert(pred(peer_map@[i]));
                            assert(fs.contains(peer_map@[i]));
                            let w = choose|w: int| 0 <= w < fs.len() && fs[w] == peer_map@[i];
                            assert(metas@[w]@ == peer_map@[i]);
                        }
                    }
                }
            },
            None => {
                proof {
                    let e = endpoints.deep_view()[j as int];
                    assert forall|i: int|
                        0 <= i < peer_map@.len() implies !claims_endpoint(peer_map@[i], e) by {
                        if claims_endpoint(peer_map@[i], e) {
                            assert(crate::peer_map::endpoint_pred(e)(peer_map@[i]));
                            assert(endpoint_claimed(peer_map@, e));
                        }
                    }
                }
            },
        }
        j = j + 1;
    }
    proof {
        if trust_conflict(peer_map@, peer_id@, endpoints.deep_view()) {
            let (i, jj): (int, int) = choose|i: int, jj: int|
                0 <= i < peer_map@.len() && 0 <= jj < endpoints.deep_view().len()
                    && peer_map@[i].id is Trust && peer_map@[i].id != peer_id@ && claims_endpoint(
                    peer_map@[i],
                    endpoints.deep_view()[jj],
                );
            assert(false);
        }
    }
    false
}

/// Sets a peer's status to `Pending` after a fatal connection error,
/// doubling its backoff (capped at `max_retry_frequency`) and stamping
/// the attempt time; its endpoints will be retried by the next pacemaker
/// sweep.  Publishes `Disconnected` for the peer.  An unknown connection
/// id changes nothing.
pub fn handle_fatal_connection(
    connection_id: String,
    error: String,
    peers: &mut PeerMap,
    max_retry_frequency: u64,
    now: u64,
) -> (notes: Vec<PeerManagerNotification>)
    requires
        old(peers).wf(),
    ensures
        final(peers).wf(),
        final(peers).initial_retry_frequency == old(peers).initial_retry_frequency,
        final(peers)@.len() == old(peers)@.len(),
        fatal_post(
            old(peers)@,
            final(peers)@,
            connection_id@,
            max_retry_frequency,
            now,
            notes_view(notes@),
        ),
        forall|k: PairView| has_peer(final(peers)@, k) == has_peer(old(peers)@, k),
        forall|i: int|
            0 <= i < final(peers)@.len() ==> final(peers)@[i].id == old(peers)@[i].id
                && final(peers)@[i].endpoints == old(peers)@[i].endpoints
                && final(peers)@[i].required_local_auth == old(peers)@[i].required_local_auth,
    {
        let mut notes: Vec<PeerManagerNotification> = Vec::new();
        let found = match peers.get_by_connection_id(&connection_id) {
            Some(m) => Some(m.clone()),
            None => None,
        };
        match found {
            Some(mut peer_metadata) => {
                proof {
                    crate::model::lemma_first_index(
                        old(peers)@,
                        crate::peer_map::conn_id_is(connection_id@),
                    );
                }
                let key = PeerTokenPair::new(
                    peer_metadata.id.clone(),
                    peer_metadata.required_local_auth.clone(),
                );
                let note = PeerManagerNotification::Disconnected { peer: key };
                peer_metadata.retry_frequency = double_retry_frequency(
                    peer_metadata.retry_frequency,
                    max_retry_frequency,
                );
                peer_metadata.last_connection_attempt = now;
                peer_metadata.status = PeerStatus::Pending;
                let ghost oldv = old(peers)@;
                let ghost ci = conn_index_of(oldv, connection_id@);
                proof {
                    assert(peer_metadata@.key() == oldv[ci].key());
                    assert(has_peer(oldv, oldv[ci].key()));
                    let pi = peer_index_of(oldv, oldv[ci].key());
                    if pi != ci {
                        assert(oldv[pi].key() == oldv[ci].key());
                    }
                }
                let _ = peers.update_peer(peer_metadata);
                proof {
                    let newv = peers@;
                    assert(newv == oldv.update(ci, newv[ci]));
                    assert forall|k: PairView| has_peer(newv, k) == has_peer(oldv, k) by {
                        if has_peer(oldv, k) {
                            let w = peer_index_of(oldv, k);
                            assert(newv[w].key() == k);
                        }
                        if has_peer(newv, k) {
                            let w = peer_index_of(newv, k);
                            assert(oldv[w].key() == k);
                        }
                    }
                }
                notes.push(note);
                proof {
                    assert(notes_view(notes@) =~= seq![
                        (NotificationView::Disconnected { peer: old(peers)@[ci].key() }),
                    ]);
                }
                notes
            },
            None => notes,
        }
    }

/// Replacing the record at `i` with one of the same key leaves the
/// peer-map key set, and every other key's record, unchanged.
pub proof fn lemma_update_same_key(oldv: Seq<PeerMetadataView>, m: PeerMetadataView, i: int)
    requires
        crate::peer_map::peers_distinct(oldv),
        0 <= i < oldv.len(),
        m.key() == oldv[i].key(),
    ensures
        crate::peer_map::peers_distinct(oldv.update(i, m)),
        forall|k: PairView| has_peer(oldv.update(i, m), k) == has_peer(oldv, k),
        has_peer(oldv, m.key()) && peer_at(oldv.update(i, m), m.key()) == m,
        forall|k: PairView|
            k != m.key() && has_peer(oldv, k) ==> peer_at(oldv.update(i, m), k) == peer_at(oldv, k),
{
    let newv = oldv.update(i, m);
    assert forall|a: int, b: int| 0 <= a < b < newv.len() implies newv[a].key()
        != newv[b].key() by {
        assert(oldv[a].key() != oldv[b].key());
    }
    assert(newv[i].key() == oldv[i].key());
    assert forall|k: PairView| has_peer(newv, k) == has_peer(oldv, k) by {
        if has_peer(oldv, k) {
            let w = peer_index_of(oldv, k);
            assert(newv[w].key() == k);
        }
        if has_peer(newv, k) {
            let w = peer_index_of(newv, k);
            assert(oldv[w].key() == k);
        }
    }
    assert(has_peer(newv, m.key()));
    let w = peer_index_of(newv, m.key());
    if w != i {
        assert(newv[w].key() == newv[i].key());
    }
    assert forall|k: PairView| k != m.key() && has_peer(oldv, k) implies peer_at(newv, k)
        == peer_at(oldv, k) by {
        let wo = peer_index_of(oldv, k);
        assert(wo != i);
        assert(newv[wo].key() == k);
        assert(has_peer(newv, k));
        let wn = peer_index_of(newv, k);
        if wn != wo {
            assert(newv[wn].key() == newv[wo].key());
        }
        assert(wn != i);
    }
}

/// Appending a record with a fresh key keeps the map's records distinct
/// and extends the key set by exactly that key.
pub proof fn lemma_push_new_key(oldv: Seq<PeerMetadataView>, m: PeerMetadataView)
    requires
        crate::peer_map::peers_distinct(oldv),
        !has_peer(oldv, m.key()),
    ensures
        crate::peer_map::peers_distinct(oldv.push(m)),
        forall|k: PairView| has_peer(oldv.push(m), k) == (has_peer(oldv, k) || k == m.key()),
        peer_at(oldv.push(m), m.key()) == m,
        forall|k: PairView|
            k != m.key() && has_peer(oldv, k) ==> peer_at(oldv.push(m), k) == peer_at(oldv, k),
{
    let newv = oldv.push(m);
    let n = oldv.len() as int;
    assert(newv[n] == m);
    assert forall|a: int, b: int| 0 <= a < b < newv.len() implies newv[a].key()
        != newv[b].key() by {
        if b < n {
            assert(oldv[a].key() != oldv[b].key());
        } else {
            if newv[a].key() == newv[b].key() {
                assert(oldv[a].key() == m.key());
                assert(has_peer(oldv, m.key()));
            }
        }
    }
    assert forall|k: PairView| has_peer(newv, k) == (has_peer(oldv, k) || k == m.key()) by {
        if has_peer(oldv, k) {
            let w = peer_index_of(oldv, k);
            assert(newv[w].key() == k);
        }
        if k == m.key() {
            assert(newv[n].key() == k);
        }
        if has_peer(newv, k) && k != m.key() {
            let w = peer_index_of(newv, k);
            assert(w != n);
            assert(oldv[w].key() == k);
        }
    }
    assert(has_peer(newv, m.key()));
    let w = peer_index_of(newv, m.key());
    if w != n {
        assert(oldv[w].key() == m.key());
    }
    assert(peer_at(newv, m.key()) == m);
    assert forall|k: PairView| k != m.key() && has_peer(oldv, k) implies peer_at(newv, k)
        == peer_at(oldv, k) by {
        let wo = peer_index_of(oldv, k);
        assert(newv[wo].key() == k);
        assert(has_peer(newv, k));
        let wn = peer_index_of(newv, k);
        if wn != wo {
            if wn == n {
                assert(newv[wn].key() == m.key());
            } else {
                assert(oldv[wn].key() == oldv[wo].key());
            }
        }
    }
}

/// What handling a `Disconnected` notification does to the peer map and
/// the unreferenced table.
pub open spec fn disconnection_post(
    old_peers: Seq<PeerMetadataView>,
    old_unref: Seq<(PairView, UnreferencedPeerView)>,
    new_peers: Seq<PeerMetadataView>,
    new_unref: Seq<(PairView, UnreferencedPeerView)>,
    endpoint: Seq<char>,
    cid: Seq<char>,
    notes: Seq<NotificationView>,
) -> bool {
    if has_conn(old_peers, cid) {
        let ci = conn_index_of(old_peers, cid);
        let m = old_peers[ci];
        if m.active_endpoint != endpoint {
            new_peers == old_peers && new_unref == old_unref && notes.len() == 0
        } else if claims_endpoint(m, endpoint) {
            &&& new_peers == old_peers.update(
                ci,
                (PeerMetadataView { status: PeerStatus::Disconnected { retry_attempts: 1 }, ..m }),
            )
            &&& new_unref == old_unref
            &&& notes == seq![(NotificationView::Disconnected { peer: m.key() })]
        } else {
            &&& new_peers == old_peers.update(
                ci,
                (PeerMetadataView { status: PeerStatus::Pending, ..m }),
            )
            &&& new_unref == old_unref
            &&& notes == seq![(NotificationView::Disconnected { peer: m.key() })]
        }
    } else if crate::unreferenced::has_unref_conn(old_unref, cid) {
        let k = crate::unreferenced::unref_conn_at(old_unref, cid).0;
        &&& new_peers == old_peers
        &&& new_unref == old_unref.remove(unref_index_of(old_unref, k))
        &&& notes.len() == 0
    } else {
        new_peers == old_peers && new_unref == old_unref && notes.len() == 0
    }
}

/// Handles the loss of a connection.  A disconnect of the peer's active,
/// configured endpoint leaves retries to the connection manager; a
/// disconnect of an inbound (unconfigured) endpoint drops the connection
/// and dials the configured endpoints again.  Either way the peer's
/// subscribers hear `Disconnected`.  A disconnect of an unreferenced
/// peer's connection drops the entry.
pub fn handle_disconnection<D: ConnectionDriver>(
    endpoint: String,
    identity: PeerAuthorizationToken,
    connection_id: String,
    unreferenced_peers: &mut UnreferencedPeerState,
    peers: &mut PeerMap,
    connector: &mut D,
) -> (notes: Vec<PeerManagerNotification>)
    requires
        old(peers).wf(),
        old(unreferenced_peers).wf(),
    ensures
        final(peers).wf(),
        final(unreferenced_peers).wf(),
        final(peers).initial_retry_frequency == old(peers).initial_retry_frequency,
        final(peers)@.len() == old(peers)@.len(),
        final(unreferenced_peers).reqs_view() == old(unreferenced_peers).reqs_view(),
        final(unreferenced_peers).last_connection_attempt == old(
            unreferenced_peers,
        ).last_connection_attempt,
        final(unreferenced_peers).retry_frequency == old(unreferenced_peers).retry_frequency,
        disconnection_post(
            old(peers)@,
            old(unreferenced_peers).peers_view(),
            final(peers)@,
            final(unreferenced_peers).peers_view(),
            endpoint@,
            connection_id@,
            notes_view(notes@),
        ),
        forall|k: PairView| has_peer(final(peers)@, k) == has_peer(old(peers)@, k),
        forall|k: PairView|
            has_unref(final(unreferenced_peers).peers_view(), k) ==> has_unref(
                old(unreferenced_peers).peers_view(),
                k,
            ),
        forall|i: int|
            0 <= i < final(peers)@.len() ==> final(peers)@[i].id == old(peers)@[i].id
                && final(peers)@[i].endpoints == old(peers)@[i].endpoints
                && final(peers)@[i].required_local_auth == old(peers)@[i].required_local_auth,
{
    let mut notes: Vec<PeerManagerNotification> = Vec::new();
    let found = match peers.get_by_connection_id(&connection_id) {
        Some(m) => Some(m.clone()),
        None => None,
    };
    match found {
        Some(mut peer_metadata) => {
            proof {
                crate::model::lemma_first_index(
                    old(peers)@,
                    crate::peer_map::conn_id_is(connection_id@),
                );
            }
            let ghost oldv = old(peers)@;
            let ghost ci = conn_index_of(oldv, connection_id@);
            if !(endpoint == peer_metadata.active_endpoint) {
                return notes;
            }
            let key = PeerTokenPair::new(
                peer_metadata.id.clone(),
                peer_metadata.required_local_auth.clone(),
            );
            let note = PeerManagerNotification::Disconnected { peer: key };
            proof {
                assert(peer_metadata@.key() == oldv[ci].key());
                assert(has_peer(oldv, oldv[ci].key()));
                let pi = peer_index_of(oldv, oldv[ci].key());
                if pi != ci {
                    assert(oldv[pi].key() == oldv[ci].key());
                }
            }
            if string_vec_contains(&peer_metadata.endpoints, &endpoint) {
                peer_metadata.status = PeerStatus::Disconnected { retry_attempts: 1 };
                let ghost m2 = peer_metadata@;
                let _ = peers.update_peer(peer_metadata);
                proof {
                    lemma_update_same_key(oldv, m2, ci);
                    assert(peers@ == oldv.update(ci, m2));
                }
            } else {
                let _ = connector.remove_connection(
                    peer_metadata.active_endpoint.as_str(),
                    peer_metadata.connection_id.as_str(),
                );
                let n = peer_metadata.endpoints.len();
                let mut i: usize = 0;
                let mut connected = false;
                while i < n && !connected
                    invariant
                        0 <= i <= n,
                        n == peer_metadata.endpoints@.len(),
                    decreases n - i,
                {
                    let r = connector.request_connection(
                        peer_metadata.endpoints[i].as_str(),
                        peer_metadata.connection_id.as_str(),
                        Some(&peer_metadata.id),
                        Some(&peer_metadata.required_local_auth),
                    );
                    match r {
                        Ok(()) => {
                            connected = true;
                        },
                        Err(_) => {},
                    }
                    i = i + 1;
                }
                peer_metadata.status = PeerStatus::Pending;
                let ghost m2 = peer_metadata@;
                let _ = peers.update_peer(peer_metadata);
                proof {
                    lemma_update_same_key(oldv, m2, ci);
                    assert(peers@ == oldv.update(ci, m2));
                }
            }
            notes.push(note);
            proof {
                assert(notes_view(notes@) =~= seq![
                    (NotificationView::Disconnected { peer: oldv[ci].key() }),
                ]);
            }
            notes
        },
        None => {
            match unreferenced_peers.get_by_connection_id(&connection_id) {
                Some((id, unref_peer)) => {
                    proof {
                        crate::model::lemma_first_index(
                            old(unreferenced_peers).peers_view(),
                            crate::unreferenced::unref_conn_pred(connection_id@),
                        );
                    }
                    let _ = unreferenced_peers.remove_peer(&id);
                    let _ = connector.remove_connection(
                        unref_peer.endpoint.as_str(),
                        unref_peer.connection_id.as_str(),
                    );
                    notes
                },
                None => notes,
            }
        },
    }
}

/// What handling an inbound connection does to the peer map and the
/// unreferenced table.  `retry_frequency` is the configured base
/// backoff, restored when a peer reconnects.
pub open spec fn inbound_post(
    old_peers: Seq<PeerMetadataView>,
    old_unref: Seq<(PairView, UnreferencedPeerView)>,
    new_peers: Seq<PeerMetadataView>,
    new_unref: Seq<(PairView, UnreferencedPeerView)>,
    endpoint: Seq<char>,
    identity: TokenView,
    cid: Seq<char>,
    local: TokenView,
    retry_frequency: u64,
    now: u64,
    notes: Seq<NotificationView>,
) -> bool {
    let k = pair_of(identity, local);
    if has_peer(old_peers, k) {
        let m = peer_at(old_peers, k);
        if m.status is Connected && crate::token::token_lt(identity, m.required_local_auth) {
            new_peers == old_peers && new_unref == old_unref && notes.len() == 0
        } else {
            &&& new_peers == old_peers.update(
                peer_index_of(old_peers, k),
                (PeerMetadataView {
                    status: PeerStatus::Connected,
                    connection_id: cid,
                    retry_frequency: retry_frequency,
                    last_connection_attempt: now,
                    active_endpoint: endpoint,
                    ..m
                }),
            )
            &&& new_unref == old_unref
            &&& notes == seq![(NotificationView::Connected { peer: k })]
        }
    } else if has_unref(old_unref, k) {
        let u = unref_at(old_unref, k);
        if crate::token::token_lt(identity, u.local_authorization) {
            new_peers == old_peers && new_unref == old_unref && notes.len() == 0
        } else {
            &&& new_peers == old_peers
            &&& new_unref == old_unref.update(
                unref_index_of(old_unref, k),
                (
                    k,
                    UnreferencedPeerView {
                        connection_id: cid,
                        endpoint: endpoint,
                        local_authorization: local,
                        old_connection_ids: u.old_connection_ids.push(u.connection_id),
                    },
                ),
            )
            &&& notes.len() == 0
        }
    } else {
        &&& new_peers == old_peers
        &&& new_unref == old_unref.push(
            (
                k,
                UnreferencedPeerView {
                    connection_id: cid,
                    endpoint: endpoint,
                    local_authorization: local,
                    old_connection_ids: Seq::<Seq<char>>::empty(),
                },
            ),
        )
        &&& notes.len() == 0
    }
}

/// Handles an authorized inbound connection from `identity`.  A known
/// peer adopts the inbound connection — unless it is already connected
/// and the local token outranks the remote one, in which case the
/// inbound connection is dropped (the tie-break for simultaneous
/// connections).  An unknown identity becomes an unreferenced peer.
pub fn handle_inbound_connection<D: ConnectionDriver>(
    endpoint: String,
    identity: PeerAuthorizationToken,
    connection_id: String,
    local_authorization: PeerAuthorizationToken,
    unreferenced_peers: &mut UnreferencedPeerState,
    peers: &mut PeerMap,
    connector: &mut D,
    retry_frequency: u64,
    now: u64,
) -> (notes: Vec<PeerManagerNotification>)
    requires
        old(peers).wf(),
        old(unreferenced_peers).wf(),
    ensures
        final(peers).wf(),
        final(unreferenced_peers).wf(),
        final(peers).initial_retry_frequency == old(peers).initial_retry_frequency,
        final(peers)@.len() == old(peers)@.len(),
        final(unreferenced_peers).reqs_view() == old(unreferenced_peers).reqs_view(),
        final(unreferenced_peers).last_connection_attempt == old(
            unreferenced_peers,
        ).last_connection_attempt,
        final(unreferenced_peers).retry_frequency == old(unreferenced_peers).retry_frequency,
        inbound_post(
            old(peers)@,
            old(unreferenced_peers).peers_view(),
            final(peers)@,
            final(unreferenced_peers).peers_view(),
            endpoint@,
            identity@,
            connection_id@,
            local_authorization@,
            retry_frequency,
            now,
            notes_view(notes@),
        ),
        forall|k: PairView| has_peer(final(peers)@, k) == has_peer(old(peers)@, k),
        forall|k: PairView|
            has_unref(final(unreferenced_peers).peers_view(), k) == (has_unref(
                old(unreferenced_peers).peers_view(),
                k,
            ) || (k == pair_of(identity@, local_authorization@) && !has_peer(old(peers)@, k))),
        forall|i: int|
            0 <= i < final(peers)@.len() ==> final(peers)@[i].id == old(peers)@[i].id
                && final(peers)@[i].endpoints == old(peers)@[i].endpoints
                && final(peers)@[i].required_local_auth == old(peers)@[i].required_local_auth,
{
    let mut notes: Vec<PeerManagerNotification> = Vec::new();
    let peer_token_pair = PeerTokenPair::new(identity.clone(), local_authorization.clone());
    let ghost k = peer_token_pair@;
    let found = match peers.get_by_peer_id(&peer_token_pair) {
        Some(m) => Some(m.clone()),
        None => None,
    };
    match found {
        Some(mut peer_metadata) => {
            let ghost oldv = old(peers)@;
            let ghost pi = peer_index_of(oldv, k);
            let is_connected = match peer_metadata.status {
                PeerStatus::Connected => true,
                _ => false,
            };
            if is_connected && crate::token::token_is_less(&identity, &peer_metadata.required_local_auth) {
                let _ = connector.remove_connection(endpoint.as_str(), connection_id.as_str());
                proof {
                    assert(inbound_post(
                        old(peers)@,
                        old(unreferenced_peers).peers_view(),
                        peers@,
                        unreferenced_peers.peers_view(),
                        endpoint@,
                        identity@,
                        connection_id@,
                        local_authorization@,
                        retry_frequency,
                        now,
                        notes_view(notes@),
                    ));
                }
                return notes;
            }
            let old_endpoint = peer_metadata.active_endpoint;
            let old_connection_id = peer_metadata.connection_id;
            let starting_status = peer_metadata.status;
            peer_metadata.status = PeerStatus::Connected;
            peer_metadata.connection_id = connection_id.clone();
            peer_metadata.retry_frequency = retry_frequency;
            peer_metadata.last_connection_attempt = now;
            peer_metadata.active_endpoint = endpoint;
            let note = PeerManagerNotification::Connected { peer: peer_token_pair };
            let ghost m2 = peer_metadata@;
            let _ = peers.update_peer(peer_metadata);
            proof {
                assert(m2.key() == k);
                lemma_update_same_key(oldv, m2, pi);
                assert(peers@ == oldv.update(pi, m2));
            }
            notes.push(note);
            let keep_old = match starting_status {
                PeerStatus::Pending => false,
                _ => true,
            };
            if keep_old && !(connection_id == old_connection_id) {
                let _ = connector.remove_connection(
                    old_endpoint.as_str(),
                    old_connection_id.as_str(),
                );
            }
            proof {
                assert(notes_view(notes@) =~= seq![(NotificationView::Connected { peer: k })]);
            }
            notes
        },
        None => {
            let unref_found = match unreferenced_peers.get_peer(&peer_token_pair) {
                Some(u) => Some(u.clone()),
                None => None,
            };
            match unref_found {
                Some(unreferenced_peer) => {
                    if crate::token::token_is_less(
                        &identity,
                        &unreferenced_peer.local_authorization,
                    ) {
                        let _ = connector.remove_connection(
                            endpoint.as_str(),
                            connection_id.as_str(),
                        );
                        return notes;
                    }
                    let _ = connector.remove_connection(
                        unreferenced_peer.endpoint.as_str(),
                        unreferenced_peer.connection_id.as_str(),
                    );
                    let ghost u = unref_at(old(unreferenced_peers).peers_view(), k);
                    let mut old_connection_ids = crate::peer_map::clone_string_vec(
                        &unreferenced_peer.old_connection_ids,
                    );
                    old_connection_ids.push(unreferenced_peer.connection_id);
                    proof {
                        assert(old_connection_ids.deep_view() =~= u.old_connection_ids.push(
                            u.connection_id,
                        ));
                    }
                    let replacement = UnreferencedPeer {
                        connection_id,
                        endpoint,
                        local_authorization,
                        old_connection_ids,
                    };
                    proof {
                        assert(replacement@ == (UnreferencedPeerView {
                            connection_id: connection_id@,
                            endpoint: endpoint@,
                            local_authorization: local_authorization@,
                            old_connection_ids: u.old_connection_ids.push(u.connection_id),
                        }));
                    }
                    unreferenced_peers.replace_peer(&peer_token_pair, replacement);
                    proof {
                        assert(unreferenced_peers.peers_view()[unref_index_of(
                            old(unreferenced_peers).peers_view(),
                            k,
                        )].0 == k);
                        assert forall|k2: PairView|
                            has_unref(unreferenced_peers.peers_view(), k2) == (has_unref(
                                old(unreferenced_peers).peers_view(),
                                k2,
                            ) || (k2 == k && !has_peer(old(peers)@, k2))) by {
                            let newu = unreferenced_peers.peers_view();
                            let oldu = old(unreferenced_peers).peers_view();
                            let ui = unref_index_of(oldu, k);
                            if has_unref(oldu, k2) {
                                let w = unref_index_of(oldu, k2);
                                if w == ui {
                                    assert(oldu[w].0 == k);
                                    assert(newu[ui].0 == k2);
                                } else {
                                    assert(newu[w].0 == k2);
                                }
                                assert(has_unref(newu, k2));
                            }
                            if has_unref(newu, k2) {
                                let w = unref_index_of(newu, k2);
                                if w == ui {
                                    assert(newu[w].0 == k);
                                } else {
                                    assert(oldu[w].0 == k2);
                                }
                            }
                        }
                    }
                    notes
                },
                None => {
                    let entry = UnreferencedPeer {
                        connection_id,
                        endpoint,
                        local_authorization,
                        old_connection_ids: Vec::new(),
                    };
                    unreferenced_peers.insert_peer(peer_token_pair, entry);
                    proof {
                        let newu = unreferenced_peers.peers_view();
                        let oldu = old(unreferenced_peers).peers_view();
                        let n = oldu.len() as int;
                        assert(newu[n].1.old_connection_ids =~= Seq::<Seq<char>>::empty());
                        assert(newu[n] == (
                            k,
                            UnreferencedPeerView {
                                connection_id: connection_id@,
                                endpoint: endpoint@,
                                local_authorization: local_authorization@,
                                old_connection_ids: Seq::<Seq<char>>::empty(),
                            },
                        ));
                        assert(newu =~= oldu.push(newu[n]));
                        assert forall|k2: PairView|
                            has_unref(newu, k2) == (has_unref(oldu, k2) || (k2 == k && !has_peer(
                                old(peers)@,
                                k2,
                            ))) by {
                            if has_unref(oldu, k2) {
                                let w = unref_index_of(oldu, k2);
                                assert(newu[w].0 == k2);
                            }
                            if k2 == k {
                                assert(newu[n].0 == k2);
                            }
                            if has_unref(newu, k2) && k2 != k {
                                let w = unref_index_of(newu, k2);
                                assert(w != n);
                                assert(oldu[w].0 == k2);
                            }
                        }
                    }
                    notes
                },
            }
        },
    }
}


/// The state invariant survives any step that keeps the peer-map key
/// set, does not grow a full peer's unreferenced entry, and keeps every
/// reference count.
pub proof fn lemma_state_inv_frame(
    old_peers: Seq<PeerMetadataView>,
    old_unref: Seq<(PairView, UnreferencedPeerView)>,
    old_refs: Seq<(PairView, u64)>,
    new_peers: Seq<PeerMetadataView>,
    new_unref: Seq<(PairView, UnreferencedPeerView)>,
    new_refs: Seq<(PairView, u64)>,
)
    requires
        state_inv(old_peers, old_unref, old_refs),
        crate::ref_map::ref_entries_wf(new_refs),
        forall|k: PairView| has_peer(new_peers, k) == has_peer(old_peers, k),
        forall|k: PairView|
            has_unref(new_unref, k) ==> has_unref(old_unref, k) || !has_peer(new_peers, k),
        refs_eq(old_refs, new_refs),
    ensures
        state_inv(new_peers, new_unref, new_refs),
{
    assert forall|k: PairView| has_peer(new_peers, k) implies ref_count(new_refs, k) >= 1 by {
        assert(ref_count(old_refs, k) >= 1);
    }
    assert forall|k: PairView| has_ref(new_refs, k) implies has_peer(new_peers, k) by {
        let w = crate::ref_map::ref_index(new_refs, k);
        assert(new_refs[w].1 >= 1);
        assert(ref_count(new_refs, k) >= 1);
        assert(ref_count(old_refs, k) >= 1);
        if !has_ref(old_refs, k) {
            assert(ref_count(old_refs, k) == 0);
        }
        assert(has_peer(old_peers, k));
    }
    assert forall|k: PairView| has_peer(new_peers, k) implies !has_unref(new_unref, k) by {
        assert(has_peer(old_peers, k));
        assert(!has_unref(old_unref, k));
    }
}

/// What handling an outbound `Connected` notification does to the four
/// tables.  `retry_frequency` is the configured base backoff;
/// `initial_retry` the backoff given to newly promoted peers.
pub open spec fn connected_post(
    old_peers: Seq<PeerMetadataView>,
    old_unref: Seq<(PairView, UnreferencedPeerView)>,
    old_reqs: Seq<crate::unreferenced::RequestedEndpointView>,
    old_refs: Seq<(PairView, u64)>,
    new_peers: Seq<PeerMetadataView>,
    new_unref: Seq<(PairView, UnreferencedPeerView)>,
    new_refs: Seq<(PairView, u64)>,
    endpoint: Seq<char>,
    identity: TokenView,
    cid: Seq<char>,
    local: TokenView,
    retry_frequency: u64,
    initial_retry: u64,
    now: u64,
    notes: Seq<NotificationView>,
) -> bool {
    let k = pair_of(identity, local);
    if has_peer(old_peers, k) {
        let m = peer_at(old_peers, k);
        if m.status is Connected && crate::token::token_lt(m.required_local_auth, identity) {
            &&& new_peers == old_peers
            &&& new_unref == old_unref
            &&& refs_eq(old_refs, new_refs)
            &&& notes.len() == 0
        } else {
            &&& new_peers == old_peers.update(
                peer_index_of(old_peers, k),
                (PeerMetadataView {
                    active_endpoint: endpoint,
                    status: PeerStatus::Connected,
                    connection_id: cid,
                    retry_frequency: retry_frequency,
                    last_connection_attempt: now,
                    ..m
                }),
            )
            &&& new_unref == old_unref
            &&& refs_eq(old_refs, new_refs)
            &&& notes == seq![(NotificationView::Connected { peer: k })]
        }
    } else if has_req(old_reqs, endpoint) {
        let req = req_at(old_reqs, endpoint);
        let promoted = if has_unref(old_unref, k) {
            let u = unref_at(old_unref, k);
            if crate::token::token_lt(u.local_authorization, identity) {
                PeerMetadataView {
                    id: identity,
                    connection_id: u.connection_id,
                    endpoints: seq![endpoint],
                    active_endpoint: u.endpoint,
                    status: PeerStatus::Connected,
                    last_connection_attempt: now,
                    retry_frequency: initial_retry,
                    required_local_auth: req.local_authorization,
                    old_connection_ids: u.old_connection_ids.push(cid),
                }
            } else {
                PeerMetadataView {
                    id: identity,
                    connection_id: cid,
                    endpoints: seq![endpoint],
                    active_endpoint: endpoint,
                    status: PeerStatus::Connected,
                    last_connection_attempt: now,
                    retry_frequency: initial_retry,
                    required_local_auth: req.local_authorization,
                    old_connection_ids: seq![u.connection_id],
                }
            }
        } else {
            PeerMetadataView {
                id: identity,
                connection_id: cid,
                endpoints: seq![endpoint],
                active_endpoint: endpoint,
                status: PeerStatus::Connected,
                last_connection_attempt: now,
                retry_frequency: initial_retry,
                required_local_auth: req.local_authorization,
                old_connection_ids: Seq::<Seq<char>>::empty(),
            }
        };
        &&& new_peers == old_peers.push(promoted)
        &&& new_unref == (if has_unref(old_unref, k) {
            old_unref.remove(unref_index_of(old_unref, k))
        } else {
            old_unref
        })
        &&& refs_plus_one(old_refs, new_refs, k)
        &&& notes == seq![(NotificationView::Connected { peer: k })]
    } else if has_unref(old_unref, k) {
        let u = unref_at(old_unref, k);
        if crate::token::token_lt(u.local_authorization, identity) {
            &&& new_peers == old_peers
            &&& new_unref == old_unref
            &&& refs_eq(old_refs, new_refs)
            &&& notes.len() == 0
        } else {
            &&& new_peers == old_peers
            &&& new_unref == old_unref.update(
                unref_index_of(old_unref, k),
                (
                    k,
                    UnreferencedPeerView {
                        connection_id: cid,
                        endpoint: endpoint,
                        local_authorization: local,
                        old_connection_ids: u.old_connection_ids.push(u.connection_id),
                    },
                ),
            )
            &&& refs_eq(old_refs, new_refs)
            &&& notes.len() == 0
        }
    } else {
        &&& new_peers == old_peers
        &&& new_unref == old_unref.push(
            (
                k,
                UnreferencedPeerView {
                    connection_id: cid,
                    endpoint: endpoint,
                    local_authorization: local,
                    old_connection_ids: Seq::<Seq<char>>::empty(),
                },
            ),
        )
        &&& refs_eq(old_refs, new_refs)
        &&& notes.len() == 0
    }
}

/// Handles a completed outbound connection to `identity`.  A known peer
/// adopts the connection — unless it is already connected and the remote
/// token outranks the local one, in which case the new outbound
/// connection is dropped (the mirror of the inbound tie-break).  A
/// connection on an endpoint that was requested without a known
/// identity promotes that request to a full peer with one reference,
/// merging any unreferenced entry for the same identity.  Otherwise the
/// identity becomes (or updates) an unreferenced peer.
///
/// The promotion stores the local token under which the endpoint was
/// requested; the connection manager reports connections under the same
/// local token they were requested with, which the last precondition
/// reflects.
pub fn handle_connected<D: ConnectionDriver>(
    endpoint: String,
    identity: PeerAuthorizationToken,
    connection_id: String,
    local_authorization: PeerAuthorizationToken,
    unreferenced_peers: &mut UnreferencedPeerState,
    peers: &mut PeerMap,
    connector: &mut D,
    ref_map: &mut RefMap,
    retry_frequency: u64,
    now: u64,
) -> (notes: Vec<PeerManagerNotification>)
    requires
        old(peers).wf(),
        old(unreferenced_peers).wf(),
        old(ref_map).wf(),
        state_inv(old(peers)@, old(unreferenced_peers).peers_view(), old(ref_map)@),
        !has_peer(old(peers)@, pair_of(identity@, local_authorization@)) && has_req(
            old(unreferenced_peers).reqs_view(),
            endpoint@,
        ) ==> req_at(old(unreferenced_peers).reqs_view(), endpoint@).local_authorization
            == local_authorization@,
    ensures
        final(peers).wf(),
        final(unreferenced_peers).wf(),
        final(ref_map).wf(),
        final(peers).initial_retry_frequency == old(peers).initial_retry_frequency,
        final(unreferenced_peers).reqs_view() == old(unreferenced_peers).reqs_view(),
        final(unreferenced_peers).last_connection_attempt == old(
            unreferenced_peers,
        ).last_connection_attempt,
        final(unreferenced_peers).retry_frequency == old(unreferenced_peers).retry_frequency,
        state_inv(final(peers)@, final(unreferenced_peers).peers_view(), final(ref_map)@),
        connected_post(
            old(peers)@,
            old(unreferenced_peers).peers_view(),
            old(unreferenced_peers).reqs_view(),
            old(ref_map)@,
            final(peers)@,
            final(unreferenced_peers).peers_view(),
            final(ref_map)@,
            endpoint@,
            identity@,
            connection_id@,
            local_authorization@,
            retry_frequency,
            old(peers).initial_retry_frequency,
            now,
            notes_view(notes@),
        ),
        trust_endpoints_distinct(old(peers)@) && (identity@ is Trust ==> !trust_conflict(
            old(peers)@,
            identity@,
            seq![endpoint@],
        )) ==> trust_endpoints_distinct(final(peers)@),
{
    let mut notes: Vec<PeerManagerNotification> = Vec::new();
    let peer_token_pair = PeerTokenPair::new(identity.clone(), local_authorization.clone());
    let ghost k = peer_token_pair@;
    let found = match peers.get_by_peer_id(&peer_token_pair) {
        Some(m) => Some(m.clone()),
        None => None,
    };
    match found {
        Some(mut peer_metadata) => {
            let ghost oldv = old(peers)@;
            let ghost pi = peer_index_of(oldv, k);
            let is_connected = match peer_metadata.status {
                PeerStatus::Connected => true,
                _ => false,
            };
            if is_connected && crate::token::token_is_less(
                &peer_metadata.required_local_auth,
                &identity,
            ) {
                if !(endpoint == peer_metadata.active_endpoint) {
                    let _ = connector.remove_connection(endpoint.as_str(), connection_id.as_str());
                }
                return notes;
            }
            let starting_status = peer_metadata.status;
            let old_endpoint = peer_metadata.active_endpoint;
            let old_connection_id = peer_metadata.connection_id;
            peer_metadata.active_endpoint = endpoint;
            peer_metadata.status = PeerStatus::Connected;
            peer_metadata.connection_id = connection_id.clone();
            peer_metadata.retry_frequency = retry_frequency;
            peer_metadata.last_connection_attempt = now;
            let ghost m2 = peer_metadata@;
            let _ = peers.update_peer(peer_metadata);
            proof {
                assert(m2.key() == k);
                lemma_update_same_key(oldv, m2, pi);
                assert(peers@ == oldv.update(pi, m2));
            }
            let keep_old = match starting_status {
                PeerStatus::Pending => false,
                _ => true,
            };
            if keep_old && !(connection_id == old_connection_id) {
                let _ = connector.remove_connection(
                    old_endpoint.as_str(),
                    old_connection_id.as_str(),
                );
            }
            let note = PeerManagerNotification::Connected { peer: peer_token_pair };
            notes.push(note);
            proof {
                assert(notes_view(notes@) =~= seq![(NotificationView::Connected { peer: k })]);
                assert forall|i: int, j: int, e: Seq<char>|
                    #![trigger claims_endpoint(peers@[i], e), claims_endpoint(peers@[j], e)]
                    trust_endpoints_distinct(oldv) && 0 <= i < peers@.len() && 0 <= j
                        < peers@.len() && claims_endpoint(peers@[i], e) && claims_endpoint(
                        peers@[j],
                        e,
                    ) && peers@[i].id is Trust && peers@[j].id is Trust implies peers@[i].id
                    == peers@[j].id by {
                    assert(peers@[i].endpoints == oldv[i].endpoints);
                    assert(peers@[j].endpoints == oldv[j].endpoints);
                    assert(claims_endpoint(oldv[i], e) && claims_endpoint(oldv[j], e));
                }
                lemma_state_inv_frame(
                    old(peers)@,
                    old(unreferenced_peers).peers_view(),
                    old(ref_map)@,
                    peers@,
                    unreferenced_peers.peers_view(),
                    ref_map@,
                );
            }
            notes
        },
        None => {
            let req_found = match unreferenced_peers.get_requested_endpoint(&endpoint) {
                Some(req) => Some(req.clone()),
                None => None,
            };
            match req_found {
                Some(requested_endpoint) => {
                    let ghost oldu = old(unreferenced_peers).peers_view();
                    let mut new_peer_endpoint = endpoint.clone();
                    let mut new_peer_connection_id = connection_id.clone();
                    let mut old_connection_ids: Vec<String> = Vec::new();
                    let unref_found = unreferenced_peers.remove_peer(&peer_token_pair);
                    match unref_found {
                        Some(unreferenced_peer) => {
                            let ghost u = unref_at(oldu, k);
                            if crate::token::token_is_less(
                                &unreferenced_peer.local_authorization,
                                &identity,
                            ) {
                                new_peer_endpoint = unreferenced_peer.endpoint;
                                new_peer_connection_id = unreferenced_peer.connection_id;
                                old_connection_ids = crate::peer_map::clone_string_vec(
                                    &unreferenced_peer.old_connection_ids,
                                );
                                old_connection_ids.push(connection_id.clone());
                                proof {
                                    assert(old_connection_ids.deep_view()
                                        =~= u.old_connection_ids.push(connection_id@));
                                }
                                if !(endpoint == new_peer_endpoint) {
                                    let _ = connector.remove_connection(
                                        endpoint.as_str(),
                                        connection_id.as_str(),
                                    );
                                }
                            } else {
                                old_connection_ids.push(unreferenced_peer.connection_id.clone());
                                proof {
                                    assert(old_connection_ids.deep_view() =~= seq![
                                        u.connection_id,
                                    ]);
                                }
                                let _ = connector.remove_connection(
                                    unreferenced_peer.endpoint.as_str(),
                                    unreferenced_peer.connection_id.as_str(),
                                );
                            }
                        },
                        None => {
                            proof {
                                assert(old_connection_ids.deep_view() =~= Seq::<
                                    Seq<char>,
                                >::empty());
                            }
                        },
                    }
                    proof {
                        if has_ref(ref_map@, k) {
                            assert(has_peer(old(peers)@, k));
                        }
                        assert(ref_count(ref_map@, k) == 0);
                    }
                    let _ = ref_map.add_ref(peer_token_pair.clone());
                    let mut eps: Vec<String> = Vec::new();
                    eps.push(endpoint.clone());
                    proof {
                        assert(eps.deep_view() =~= seq![endpoint@]);
                        assert(!has_peer(peers@, (PairView {
                            remote: identity@,
                            local: requested_endpoint.local_authorization@,
                        })));
                    }
                    peers.insert(
                        identity,
                        new_peer_connection_id,
                        eps,
                        new_peer_endpoint,
                        PeerStatus::Connected,
                        requested_endpoint.local_authorization,
                        old_connection_ids,
                        now,
                    );
                    let note = PeerManagerNotification::Connected { peer: peer_token_pair };
                    notes.push(note);
                    proof {
                        let oldv = old(peers)@;
                        let newv = peers@;
                        let promoted = newv[oldv.len() as int];
                        assert(promoted.key() == k);
                        lemma_push_new_key(oldv, promoted);
                        assert(notes_view(notes@) =~= seq![
                            (NotificationView::Connected { peer: k }),
                        ]);
                        assert forall|k2: PairView| has_ref(final(ref_map)@, k2) implies has_peer(
                            newv,
                            k2,
                        ) by {
                            if ref_count(final(ref_map)@, k2) > 0 {
                                if k2 != k {
                                    assert(ref_count(old(ref_map)@, k2) > 0);
                                }
                            } else {
                                let w = crate::ref_map::ref_index(final(ref_map)@, k2);
                            }
                        }
                        if trust_endpoints_distinct(oldv) && (identity@ is Trust
                            ==> !trust_conflict(oldv, identity@, seq![endpoint@])) {
                            assert forall|i: int, j: int, e: Seq<char>|
                                #![trigger claims_endpoint(newv[i], e), claims_endpoint(newv[j], e)]
                                0 <= i < newv.len() && 0 <= j < newv.len() && claims_endpoint(
                                    newv[i],
                                    e,
                                ) && claims_endpoint(newv[j], e) && newv[i].id is Trust
                                && newv[j].id is Trust implies newv[i].id == newv[j].id by {
                                let n = oldv.len() as int;
                                if i < n && j < n {
                                    assert(claims_endpoint(oldv[i], e) && claims_endpoint(
                                        oldv[j],
                                        e,
                                    ));
                                } else if i == n && j == n {
                                } else {
                                    let o = if i == n {
                                        j
                                    } else {
                                        i
                                    };
                                    assert(claims_endpoint(promoted, e));
                                    assert(promoted.endpoints == seq![endpoint@]);
                                    assert(e == endpoint@);
                                    assert(claims_endpoint(oldv[o], e));
                                    if oldv[o].id != identity@ {
                                        assert(trust_conflict(oldv, identity@, seq![endpoint@]));
                                    }
                                }
                            }
                        }
                        assert forall|k2: PairView| has_peer(newv, k2) implies ref_count(
                            final(ref_map)@,
                            k2,
                        ) >= 1 by {
                            if k2 != k {
                                assert(has_peer(oldv, k2));
                                assert(ref_count(old(ref_map)@, k2) >= 1);
                            }
                        }
                        assert forall|k2: PairView| has_peer(newv, k2) implies !has_unref(
                            final(unreferenced_peers).peers_view(),
                            k2,
                        ) by {
                            if k2 != k {
                                assert(has_peer(oldv, k2));
                                assert(!has_unref(old(unreferenced_peers).peers_view(), k2));
                            }
                        }
                    }
                    notes
                },
                None => {
                    let unref_found = match unreferenced_peers.get_peer(&peer_token_pair) {
                        Some(u) => Some(u.clone()),
                        None => None,
                    };
                    match unref_found {
                        Some(unreferenced_peer) => {
                            if crate::token::token_is_less(
                                &unreferenced_peer.local_authorization,
                                &identity,
                            ) {
                                let _ = connector.remove_connection(
                                    endpoint.as_str(),
                                    connection_id.as_str(),
                                );
                                return notes;
                            }
                            let _ = connector.remove_connection(
                                unreferenced_peer.endpoint.as_str(),
                                unreferenced_peer.connection_id.as_str(),
                            );
                            let ghost u = unref_at(old(unreferenced_peers).peers_view(), k);
                            let mut old_connection_ids = crate::peer_map::clone_string_vec(
                                &unreferenced_peer.old_connection_ids,
                            );
                            old_connection_ids.push(unreferenced_peer.connection_id);
                            proof {
                                assert(old_connection_ids.deep_view() =~= u.old_connection_ids.push(
                                    u.connection_id,
                                ));
                            }
                            let replacement = UnreferencedPeer {
                                connection_id,
                                endpoint,
                                local_authorization,
                                old_connection_ids,
                            };
                            proof {
                                assert(replacement@ == (UnreferencedPeerView {
                                    connection_id: connection_id@,
                                    endpoint: endpoint@,
                                    local_authorization: local_authorization@,
                                    old_connection_ids: u.old_connection_ids.push(u.connection_id),
                                }));
                            }
                            unreferenced_peers.replace_peer(&peer_token_pair, replacement);
                            proof {
                                let newu = unreferenced_peers.peers_view();
                                let oldu = old(unreferenced_peers).peers_view();
                                let ui = unref_index_of(oldu, k);
                                assert(newu[ui].0 == k);
                                assert forall|k2: PairView| has_unref(newu, k2) == has_unref(
                                    oldu,
                                    k2,
                                ) by {
                                    if has_unref(oldu, k2) {
                                        let w = unref_index_of(oldu, k2);
                                        if w == ui {
                                            assert(newu[ui].0 == k2);
                                        } else {
                                            assert(newu[w].0 == k2);
                                        }
                                    }
                                    if has_unref(newu, k2) {
                                        let w = unref_index_of(newu, k2);
                                        if w == ui {
                                            assert(oldu[ui].0 == k2);
                                        } else {
                                            assert(oldu[w].0 == k2);
                                        }
                                    }
                                }
                                lemma_state_inv_frame(
                                    old(peers)@,
                                    old(unreferenced_peers).peers_view(),
                                    old(ref_map)@,
                                    peers@,
                                    unreferenced_peers.peers_view(),
                                    ref_map@,
                                );
                            }
                            notes
                        },
                        None => {
                            let entry = UnreferencedPeer {
                                connection_id,
                                endpoint,
                                local_authorization,
                                old_connection_ids: Vec::new(),
                            };
                            unreferenced_peers.insert_peer(peer_token_pair, entry);
                            proof {
                                let newu = unreferenced_peers.peers_view();
                                let oldu = old(unreferenced_peers).peers_view();
                                let n = oldu.len() as int;
                                assert(newu[n].1.old_connection_ids =~= Seq::<Seq<char>>::empty());
                                assert(newu[n] == (
                                    k,
                                    UnreferencedPeerView {
                                        connection_id: connection_id@,
                                        endpoint: endpoint@,
                                        local_authorization: local_authorization@,
                                        old_connection_ids: Seq::<Seq<char>>::empty(),
                                    },
                                ));
                                assert(newu =~= oldu.push(newu[n]));
                                assert forall|k2: PairView| has_unref(newu, k2) == (has_unref(
                                    oldu,
                                    k2,
                                ) || k2 == k) by {
                                    if has_unref(oldu, k2) {
                                        let w = unref_index_of(oldu, k2);
                                        assert(newu[w].0 == k2);
                                    }
                                    if k2 == k {
                                        assert(newu[n].0 == k2);
                                    }
                                    if has_unref(newu, k2) && k2 != k {
                                        let w = unref_index_of(newu, k2);
                                        assert(w != n);
                                        assert(oldu[w].0 == k2);
                                    }
                                }
                                lemma_state_inv_frame(
                                    old(peers)@,
                                    old(unreferenced_peers).peers_view(),
                                    old(ref_map)@,
                                    peers@,
                                    unreferenced_peers.peers_view(),
                                    ref_map@,
                                );
                            }
                            notes
                        },
                    }
                },
            }
        },
    }
}

/// The state invariant survives granting one reference to a key that is
/// (now) a full peer and not unreferenced, when nothing else moved.
pub proof fn lemma_state_inv_add(
    old_peers: Seq<PeerMetadataView>,
    old_unref: Seq<(PairView, UnreferencedPeerView)>,
    old_refs: Seq<(PairView, u64)>,
    new_peers: Seq<PeerMetadataView>,
    new_unref: Seq<(PairView, UnreferencedPeerView)>,
    new_refs: Seq<(PairView, u64)>,
    k: PairView,
)
    requires
        state_inv(old_peers, old_unref, old_refs),
        crate::ref_map::ref_entries_wf(new_refs),
        refs_plus_one(old_refs, new_refs, k),
        has_peer(new_peers, k),
        !has_unref(new_unref, k),
        forall|k2: PairView| k2 != k ==> has_peer(new_peers, k2) == has_peer(old_peers, k2),
        forall|k2: PairView|
            k2 != k && has_unref(new_unref, k2) ==> has_unref(old_unref, k2),
    ensures
        state_inv(new_peers, new_unref, new_refs),
{
    assert forall|k2: PairView| has_peer(new_peers, k2) implies ref_count(new_refs, k2) >= 1 by {
        if k2 != k {
            assert(ref_count(old_refs, k2) >= 1);
        }
    }
    assert forall|k2: PairView| has_ref(new_refs, k2) implies has_peer(new_peers, k2) by {
        if k2 != k {
            let w = crate::ref_map::ref_index(new_refs, k2);
            assert(new_refs[w].1 >= 1);
            assert(ref_count(new_refs, k2) >= 1);
            assert(ref_count(old_refs, k2) >= 1);
            if !has_ref(old_refs, k2) {
                assert(ref_count(old_refs, k2) == 0);
            }
            assert(has_peer(old_peers, k2));
        }
    }
    assert forall|k2: PairView| has_peer(new_peers, k2) implies !has_unref(new_unref, k2) by {
        if k2 != k {
            assert(has_peer(old_peers, k2));
            assert(!has_unref(old_unref, k2));
        }
    }
}

/// The `Connected` notification broadcast when a reference is added to a
/// peer that is already connected.
pub open spec fn connected_note(status: PeerStatus, k: PairView) -> Seq<NotificationView> {
    if status is Connected {
        seq![(NotificationView::Connected { peer: k })]
    } else {
        Seq::<NotificationView>::empty()
    }
}

/// What adding a peer reference does to the four tables and what it
/// returns.  `initial_retry` is the backoff given to newly inserted
/// peers.
pub open spec fn add_peer_post(
    old_peers: Seq<PeerMetadataView>,
    old_unref: Seq<(PairView, UnreferencedPeerView)>,
    old_reqs: Seq<crate::unreferenced::RequestedEndpointView>,
    old_refs: Seq<(PairView, u64)>,
    new_peers: Seq<PeerMetadataView>,
    new_unref: Seq<(PairView, UnreferencedPeerView)>,
    new_refs: Seq<(PairView, u64)>,
    peer_id: TokenView,
    eps: Seq<Seq<char>>,
    local: TokenView,
    initial_retry: u64,
    now: u64,
    r: Result<PeerRef, PeerRefAddError>,
    notes: Seq<NotificationView>,
) -> bool {
    let k = pair_of(peer_id, local);
    if peer_id is Trust && trust_conflict(old_peers, peer_id, eps) {
        &&& r matches Err(PeerRefAddError::DuplicateEndpoint)
        &&& new_peers == old_peers
        &&& new_unref == old_unref
        &&& refs_eq(old_refs, new_refs)
        &&& notes.len() == 0
    } else if ref_count(old_refs, k) >= 1 {
        let m = peer_at(old_peers, k);
        if m.endpoints.len() == 1 && eps.len() > 1 {
            if has_req(old_reqs, m.endpoints[0]) && eps.contains(m.endpoints[0]) {
                &&& r matches Ok(p) && p@ == k
                &&& new_peers == old_peers.update(
                    peer_index_of(old_peers, k),
                    (PeerMetadataView { endpoints: eps, ..m }),
                )
                &&& new_unref == old_unref
                &&& refs_plus_one(old_refs, new_refs, k)
                &&& notes == connected_note(m.status, k)
            } else {
                &&& r matches Err(PeerRefAddError::EndpointMismatch)
                &&& new_peers == old_peers
                &&& new_unref == old_unref
                &&& refs_eq(old_refs, new_refs)
                &&& notes.len() == 0
            }
        } else {
            &&& r matches Ok(p) && p@ == k
            &&& new_peers == old_peers
            &&& new_unref == old_unref
            &&& refs_plus_one(old_refs, new_refs, k)
            &&& notes == connected_note(m.status, k)
        }
    } else if has_unref(old_unref, k) {
        let u = unref_at(old_unref, k);
        &&& r matches Ok(p) && p@ == k
        &&& new_peers == old_peers.push(
            (PeerMetadataView {
                id: peer_id,
                connection_id: u.connection_id,
                endpoints: eps,
                active_endpoint: u.endpoint,
                status: PeerStatus::Connected,
                last_connection_attempt: now,
                retry_frequency: initial_retry,
                required_local_auth: local,
                old_connection_ids: u.old_connection_ids,
            }),
        )
        &&& new_unref == old_unref.remove(unref_index_of(old_unref, k))
        &&& refs_plus_one(old_refs, new_refs, k)
        &&& notes == seq![(NotificationView::Connected { peer: k })]
    } else if eps.len() == 0 {
        &&& r matches Err(PeerRefAddError::MissingEndpoints)
        &&& new_peers == old_peers
        &&& new_unref == old_unref
        &&& refs_eq(old_refs, new_refs)
        &&& notes.len() == 0
    } else {
        &&& r matches Ok(p) && p@ == k
        &&& new_peers.len() == old_peers.len() + 1
        &&& (forall|i: int| 0 <= i < old_peers.len() ==> new_peers[i] == old_peers[i])
        &&& new_peers.last().id == peer_id
        &&& new_peers.last().endpoints == eps
        &&& new_peers.last().status is Pending
        &&& new_peers.last().last_connection_attempt == now
        &&& new_peers.last().retry_frequency == initial_retry
        &&& new_peers.last().required_local_auth == local
        &&& new_peers.last().old_connection_ids == Seq::<Seq<char>>::empty()
        &&& new_peers.last().connection_id.len() == 36
        &&& eps.contains(new_peers.last().active_endpoint)
        &&& new_unref == old_unref
        &&& refs_plus_one(old_refs, new_refs, k)
        &&& notes.len() == 0
    }
}

/// Adds one reference to the peer `(peer_id, required_local_auth)` and
/// returns a handle for it.
///
/// A `Trust` peer whose endpoints collide with a different `Trust` peer
/// is rejected.  A peer that already exists gains a reference (its
/// endpoint list is reconciled when it was first added by endpoint, and
/// `Connected` is re-broadcast when it is already connected).  An
/// unreferenced peer with this key is promoted to a connected full peer
/// without opening a new connection.  Otherwise the peer is inserted as
/// `Pending` under a fresh connection id and its endpoints are dialed in
/// order until the connection manager accepts one; if none is accepted,
/// the retry sweep will try again.
pub fn add_peer<D: ConnectionDriver>(
    peer_id: PeerAuthorizationToken,
    endpoints: Vec<String>,
    connector: &mut D,
    unreferenced_peers: &mut UnreferencedPeerState,
    peers: &mut PeerMap,
    ref_map: &mut RefMap,
    required_local_auth: PeerAuthorizationToken,
    now: u64,
) -> (res: (Result<PeerRef, PeerRefAddError>, Vec<PeerManagerNotification>))
    requires
        old(peers).wf(),
        old(unreferenced_peers).wf(),
        old(ref_map).wf(),
        state_inv(old(peers)@, old(unreferenced_peers).peers_view(), old(ref_map)@),
        ref_count(old(ref_map)@, pair_of(peer_id@, required_local_auth@)) < u64::MAX,
    ensures
        final(peers).wf(),
        final(unreferenced_peers).wf(),
        final(ref_map).wf(),
        final(peers).initial_retry_frequency == old(peers).initial_retry_frequency,
        final(unreferenced_peers).reqs_view() == old(unreferenced_peers).reqs_view(),
        final(unreferenced_peers).last_connection_attempt == old(
            unreferenced_peers,
        ).last_connection_attempt,
        final(unreferenced_peers).retry_frequency == old(unreferenced_peers).retry_frequency,
        state_inv(final(peers)@, final(unreferenced_peers).peers_view(), final(ref_map)@),
        add_peer_post(
            old(peers)@,
            old(unreferenced_peers).peers_view(),
            old(unreferenced_peers).reqs_view(),
            old(ref_map)@,
            final(peers)@,
            final(unreferenced_peers).peers_view(),
            final(ref_map)@,
            peer_id@,
            endpoints.deep_view(),
            required_local_auth@,
            old(peers).initial_retry_frequency,
            now,
            res.0,
            notes_view(res.1@),
        ),
        trust_endpoints_distinct(old(peers)@) ==> trust_endpoints_distinct(final(peers)@),
{
    let mut notes: Vec<PeerManagerNotification> = Vec::new();
    let peer_token_pair = PeerTokenPair::new(peer_id.clone(), required_local_auth.clone());
    let ghost k = peer_token_pair@;
    let ghost eps = endpoints.deep_view();

    if check_for_duplicate_endpoint(&peer_id, &endpoints, peers) {
        return (Err(PeerRefAddError::DuplicateEndpoint), notes);
    }

    let new_ref_count = ref_map.add_ref(peer_token_pair.clone());

    if new_ref_count > 1 {
        let found = match peers.get_by_peer_id(&peer_token_pair) {
            Some(m) => Some(m.clone()),
            None => None,
        };
        match found {
            Some(mut peer_metadata) => {
                let ghost oldv = old(peers)@;
                let ghost m = peer_at(oldv, k);
                let ghost pi = peer_index_of(oldv, k);
                if peer_metadata.endpoints.len() == 1 && endpoints.len() > 1 {
                    let ep0 = peer_metadata.endpoints[0].clone();
                    proof {
                        assert(ep0@ == m.endpoints[0]);
                    }
                    if unreferenced_peers.has_requested_endpoint(&ep0) && string_vec_contains(
                        &endpoints,
                        &ep0,
                    ) {
                        peer_metadata.endpoints = endpoints;
                        let ghost m2 = peer_metadata@;
                        let _ = peers.update_peer(peer_metadata.clone());
                        proof {
                            assert(m2 == (PeerMetadataView { endpoints: eps, ..m }));
                            assert(m2.key() == k);
                            lemma_update_same_key(oldv, m2, pi);
                            assert(peers@ == oldv.update(pi, m2));
                            lemma_state_inv_add(
                                old(peers)@,
                                old(unreferenced_peers).peers_view(),
                                old(ref_map)@,
                                peers@,
                                unreferenced_peers.peers_view(),
                                ref_map@,
                                k,
                            );
                            if trust_endpoints_distinct(oldv) {
                                assert forall|i: int, j: int, e: Seq<char>|
                                    #![trigger claims_endpoint(peers@[i], e), claims_endpoint(peers@[j], e)]
                                    0 <= i < peers@.len() && 0 <= j < peers@.len()
                                        && claims_endpoint(peers@[i], e) && claims_endpoint(
                                        peers@[j],
                                        e,
                                    ) && peers@[i].id is Trust && peers@[j].id is Trust implies
                                    peers@[i].id == peers@[j].id by {
                                    if i != pi && j != pi {
                                        assert(claims_endpoint(oldv[i], e) && claims_endpoint(
                                            oldv[j],
                                            e,
                                        ));
                                    } else {
                                        let o = if i == pi {
                                            j
                                        } else {
                                            i
                                        };
                                        if o != pi && peers@[o].id != peer_id@ {
                                            assert(claims_endpoint(peers@[pi], e));
                                            assert(eps.contains(e));
                                            let w = choose|w: int|
                                                0 <= w < eps.len() && eps[w] == e;
                                            assert(claims_endpoint(oldv[o], e));
                                            assert(trust_conflict(oldv, peer_id@, eps));
                                        }
                                    }
                                }
                            }
                        }
                        let is_connected = match peer_metadata.status {
                            PeerStatus::Connected => true,
                            _ => false,
                        };
                        if is_connected {
                            notes.push(
                                PeerManagerNotification::Connected { peer: peer_token_pair.clone() },
                            );
                        }
                        proof {
                            assert(notes_view(notes@) =~= connected_note(m.status, k));
                        }
                        return (Ok(PeerRef::new(peer_token_pair)), notes);
                    } else {
                        let _ = ref_map.remove_ref(&peer_token_pair);
                        proof {
                            lemma_state_inv_frame(
                                old(peers)@,
                                old(unreferenced_peers).peers_view(),
                                old(ref_map)@,
                                peers@,
                                unreferenced_peers.peers_view(),
                                ref_map@,
                            );
                        }
                        return (Err(PeerRefAddError::EndpointMismatch), notes);
                    }
                }
                let is_connected = match peer_metadata.status {
                    PeerStatus::Connected => true,
                    _ => false,
                };
                if is_connected {
                    notes.push(PeerManagerNotification::Connected { peer: peer_token_pair.clone() });
                }
                proof {
                    assert(notes_view(notes@) =~= connected_note(m.status, k));
                    lemma_state_inv_add(
                        old(peers)@,
                        old(unreferenced_peers).peers_view(),
                        old(ref_map)@,
                        peers@,
                        unreferenced_peers.peers_view(),
                        ref_map@,
                        k,
                    );
                }
                return (Ok(PeerRef::new(peer_token_pair)), notes);
            },
            None => {
                // Unreachable while the state invariant holds: a counted
                // peer always has a record.
                proof {
                    assert(has_ref(old(ref_map)@, k));
                    assert(has_peer(old(peers)@, k));
                    assert(false);
                }
                return (Err(PeerRefAddError::MissingMetadata), notes);
            },
        }
    }

    let unref_found = unreferenced_peers.remove_peer(&peer_token_pair);
    match unref_found {
        Some(unreferenced_peer) => {
            let ghost u = unref_at(old(unreferenced_peers).peers_view(), k);
            proof {
                if has_peer(peers@, k) {
                    assert(ref_count(old(ref_map)@, k) >= 1);
                }
            }
            peers.insert(
                peer_id,
                unreferenced_peer.connection_id,
                endpoints,
                unreferenced_peer.endpoint,
                PeerStatus::Connected,
                required_local_auth,
                unreferenced_peer.old_connection_ids,
                now,
            );
            notes.push(PeerManagerNotification::Connected { peer: peer_token_pair.clone() });
            proof {
                let oldv = old(peers)@;
                let newv = peers@;
                let promoted = newv[oldv.len() as int];
                assert(promoted == (PeerMetadataView {
                    id: peer_id@,
                    connection_id: u.connection_id,
                    endpoints: eps,
                    active_endpoint: u.endpoint,
                    status: PeerStatus::Connected,
                    last_connection_attempt: now,
                    retry_frequency: old(peers).initial_retry_frequency,
                    required_local_auth: required_local_auth@,
                    old_connection_ids: u.old_connection_ids,
                }));
                assert(promoted.key() == k);
                lemma_push_new_key(oldv, promoted);
                assert(notes_view(notes@) =~= seq![(NotificationView::Connected { peer: k })]);
                lemma_state_inv_add(
                    old(peers)@,
                    old(unreferenced_peers).peers_view(),
                    old(ref_map)@,
                    peers@,
                    unreferenced_peers.peers_view(),
                    ref_map@,
                    k,
                );
                if trust_endpoints_distinct(oldv) {
                    lemma_trust_push(oldv, promoted, peer_id@, eps);
                }
            }
            return (Ok(PeerRef::new(peer_token_pair)), notes);
        },
        None => {},
    }

    let connection_id = fresh_connection_id();
    if endpoints.len() == 0 {
        let _ = ref_map.remove_ref(&peer_token_pair);
        proof {
            lemma_state_inv_frame(
                old(peers)@,
                old(unreferenced_peers).peers_view(),
                old(ref_map)@,
                peers@,
                unreferenced_peers.peers_view(),
                ref_map@,
            );
        }
        return (Err(PeerRefAddError::MissingEndpoints), notes);
    }

    let mut active_endpoint = endpoints[0].clone();
    let n = endpoints.len();
    let mut i: usize = 0;
    let mut connected = false;
    while i < n && !connected
        invariant
            0 <= i <= n,
            n == endpoints@.len(),
            exists|w: int| 0 <= w < endpoints@.len() && active_endpoint@ == endpoints@[w]@,
        decreases n - i,
    {
        let r = connector.request_connection(
            endpoints[i].as_str(),
            connection_id.as_str(),
            Some(&peer_id),
            Some(&required_local_auth),
        );
        match r {
            Ok(()) => {
                active_endpoint = endpoints[i].clone();
                connected = true;
            },
            Err(_) => {},
        }
        i = i + 1;
    }
    proof {
        if has_peer(peers@, k) {
            assert(ref_count(old(ref_map)@, k) >= 1);
        }
    }
    peers.insert(
        peer_id,
        connection_id,
        endpoints,
        active_endpoint,
        PeerStatus::Pending,
        required_local_auth,
        Vec::new(),
        now,
    );
    proof {
        let oldv = old(peers)@;
        let newv = peers@;
        let fresh = newv[oldv.len() as int];
        assert(fresh.key() == k);
        assert(fresh.old_connection_ids =~= Seq::<Seq<char>>::empty());
        assert(eps.contains(fresh.active_endpoint)) by {
            let w = choose|w: int|
                0 <= w < endpoints@.len() && fresh.active_endpoint == endpoints@[w]@;
            assert(eps[w] == endpoints@[w]@);
        }
        lemma_push_new_key(oldv, fresh);
        lemma_state_inv_add(
            old(peers)@,
            old(unreferenced_peers).peers_view(),
            old(ref_map)@,
            peers@,
            unreferenced_peers.peers_view(),
            ref_map@,
            k,
        );
        if trust_endpoints_distinct(oldv) {
            lemma_trust_push(oldv, fresh, peer_id@, eps);
        }
    }
    (Ok(PeerRef::new(peer_token_pair)), notes)
}

/// Appending a record whose endpoints caused no `Trust` collision keeps
/// the endpoints of distinct `Trust` peers distinct.
pub proof fn lemma_trust_push(
    oldv: Seq<PeerMetadataView>,
    m: PeerMetadataView,
    id: TokenView,
    eps: Seq<Seq<char>>,
)
    requires
        trust_endpoints_distinct(oldv),
        m.id == id,
        m.endpoints == eps,
        !(id is Trust && trust_conflict(oldv, id, eps)),
    ensures
        trust_endpoints_distinct(oldv.push(m)),
{
    let newv = oldv.push(m);
    let n = oldv.len() as int;
    assert forall|i: int, j: int, e: Seq<char>|
        #![trigger claims_endpoint(newv[i], e), claims_endpoint(newv[j], e)]
        0 <= i < newv.len() && 0 <= j < newv.len() && claims_endpoint(newv[i], e)
            && claims_endpoint(newv[j], e) && newv[i].id is Trust && newv[j].id is Trust implies
        newv[i].id == newv[j].id by {
        if i < n && j < n {
            assert(claims_endpoint(oldv[i], e) && claims_endpoint(oldv[j], e));
        } else if i == n && j == n {
        } else {
            let o = if i == n {
                j
            } else {
                i
            };
            assert(claims_endpoint(m, e));
            assert(eps.contains(e));
            let w = choose|w: int| 0 <= w < eps.len() && eps[w] == e;
            assert(claims_endpoint(oldv[o], e));
            if oldv[o].id != id {
                assert(trust_conflict(oldv, id, eps));
            }
        }
    }
}

/// What adding a by-endpoint reference does to the request table and
/// the reference map, and what handle it returns.
pub open spec fn add_unidentified_post(
    peers: Seq<PeerMetadataView>,
    old_reqs: Seq<crate::unreferenced::RequestedEndpointView>,
    old_refs: Seq<(PairView, u64)>,
    new_reqs: Seq<crate::unreferenced::RequestedEndpointView>,
    new_refs: Seq<(PairView, u64)>,
    endpoint: Seq<char>,
    local: TokenView,
    r: EndpointPeerRef,
) -> bool {
    &&& r.endpoint_view() == endpoint
    &&& (endpoint_peer_match(peers, endpoint, local) ==> {
        &&& new_reqs == old_reqs
        &&& exists|i: int|
            0 <= i < peers.len() && claims_endpoint(peers[i], endpoint)
                && peers[i].required_local_auth == local && r.connection_id_view()
                == peers[i].connection_id && refs_plus_one(old_refs, new_refs, peers[i].key())
    })
    &&& (!endpoint_peer_match(peers, endpoint, local) ==> {
        &&& refs_eq(old_refs, new_refs)
        &&& r.connection_id_view().len() == 36
        &&& (has_req(old_reqs, endpoint) ==> new_reqs == old_reqs.update(
            req_index_of(old_reqs, endpoint),
            (crate::unreferenced::RequestedEndpointView {
                endpoint: endpoint,
                local_authorization: local,
            }),
        ))
        &&& (!has_req(old_reqs, endpoint) ==> new_reqs == old_reqs.push(
            (crate::unreferenced::RequestedEndpointView {
                endpoint: endpoint,
                local_authorization: local,
            }),
        ))
    })
}

/// Some peer in the map claims endpoint `e` under local token `local`.
pub open spec fn endpoint_peer_match(
    peers: Seq<PeerMetadataView>,
    e: Seq<char>,
    local: TokenView,
) -> bool {
    exists|i: int|
        0 <= i < peers.len() && claims_endpoint(peers[i], e) && peers[i].required_local_auth
            == local
}

/// Adds a reference to a peer known only by endpoint.  When some peer
/// already claims the endpoint under the same local token, that peer
/// simply gains a reference.  Otherwise a connection is requested under
/// a fresh id and the endpoint is recorded for retries; the remote
/// identity will be learned from the `Connected` notification.
pub fn add_unidentified<D: ConnectionDriver>(
    endpoint: String,
    connector: &mut D,
    unreferenced_peers: &mut UnreferencedPeerState,
    peers: &PeerMap,
    ref_map: &mut RefMap,
    local_authorization: PeerAuthorizationToken,
) -> (r: EndpointPeerRef)
    requires
        peers.wf(),
        old(unreferenced_peers).wf(),
        old(ref_map).wf(),
        state_inv(peers@, old(unreferenced_peers).peers_view(), old(ref_map)@),
        forall|i: int|
            0 <= i < peers@.len() ==> ref_count(old(ref_map)@, peers@[i].key()) < u64::MAX,
    ensures
        final(unreferenced_peers).wf(),
        final(ref_map).wf(),
        final(unreferenced_peers).peers_view() == old(unreferenced_peers).peers_view(),
        final(unreferenced_peers).last_connection_attempt == old(
            unreferenced_peers,
        ).last_connection_attempt,
        final(unreferenced_peers).retry_frequency == old(unreferenced_peers).retry_frequency,
        state_inv(peers@, final(unreferenced_peers).peers_view(), final(ref_map)@),
        add_unidentified_post(
            peers@,
            old(unreferenced_peers).reqs_view(),
            old(ref_map)@,
            final(unreferenced_peers).reqs_view(),
            final(ref_map)@,
            endpoint@,
            local_authorization@,
            r,
        ),
{
    let candidates = peers.get_peer_from_endpoint(&endpoint);
    match candidates {
        Some(metas) => {
            let m = metas.len();
            let mut t: usize = 0;
            while t < m
                invariant
                    peers.wf(),
                    old(ref_map).wf(),
                    old(unreferenced_peers).wf(),
                    ref_map == old(ref_map),
                    unreferenced_peers == old(unreferenced_peers),
                    state_inv(peers@, old(unreferenced_peers).peers_view(), old(ref_map)@),
                    forall|i: int|
                        0 <= i < peers@.len() ==> ref_count(old(ref_map)@, peers@[i].key())
                            < u64::MAX,
                    0 <= t <= m,
                    m == metas@.len(),
                    crate::peer_map::metas_view(metas@) == peers@.filter(
                        crate::peer_map::endpoint_pred(endpoint@),
                    ),
                    forall|tt: int|
                        0 <= tt < t ==> metas@[tt]@.required_local_auth != local_authorization@,
                decreases m - t,
            {
                if metas[t].required_local_auth == local_authorization {
                    proof {
                        broadcast use vstd::seq_lib::group_filter_ensures;

                        let pred = crate::peer_map::endpoint_pred(endpoint@);
                        let fs = peers@.filter(pred);
                        assert(fs[t as int] == metas@[t as int]@);
                        assert(fs.contains(fs[t as int]));
                        peers@.lemma_filter_contains_rev(pred, fs[t as int]);
                        let w = choose|w: int| 0 <= w < peers@.len() && peers@[w] == fs[t as int];
                        assert(claims_endpoint(peers@[w], endpoint@));
                        assert(ref_count(old(ref_map)@, peers@[w].key()) < u64::MAX);
                    }
                    let peer_token_pair = PeerTokenPair::new(
                        metas[t].id.clone(),
                        metas[t].required_local_auth.clone(),
                    );
                    let ghost w = choose|w: int|
                        0 <= w < peers@.len() && claims_endpoint(peers@[w], endpoint@)
                            && peers@[w] == metas@[t as int]@;
                    let _ = ref_map.add_ref(peer_token_pair);
                    let connection_id = metas[t].connection_id.clone();
                    proof {
                        lemma_state_inv_add(
                            peers@,
                            old(unreferenced_peers).peers_view(),
                            old(ref_map)@,
                            peers@,
                            unreferenced_peers.peers_view(),
                            ref_map@,
                            peers@[w].key(),
                        );
                    }
                    return EndpointPeerRef::new(endpoint, connection_id);
                }
                proof {
                    let pred = crate::peer_map::endpoint_pred(endpoint@);
                    let fs = peers@.filter(pred);
                    assert(fs[t as int] == metas@[t as int]@);
                }
                t = t + 1;
            }
            proof {
                lemma_no_endpoint_match(peers@, metas@, endpoint@, local_authorization@);
            }
            finish_add_unidentified(endpoint, connector, unreferenced_peers, local_authorization)
        },
        None => {
            proof {
                if endpoint_peer_match(peers@, endpoint@, local_authorization@) {
                    let w = choose|w: int|
                        0 <= w < peers@.len() && claims_endpoint(peers@[w], endpoint@)
                            && peers@[w].required_local_auth == local_authorization@;
                    assert(crate::peer_map::endpoint_pred(endpoint@)(peers@[w]));
                    assert(endpoint_claimed(peers@, endpoint@));
                }
            }
            finish_add_unidentified(endpoint, connector, unreferenced_peers, local_authorization)
        },
    }
}

/// If every filtered candidate fails the local-token test, no peer
/// claims the endpoint under that token.
proof fn lemma_no_endpoint_match(
    peers: Seq<PeerMetadataView>,
    metas: Seq<PeerMetadata>,
    e: Seq<char>,
    local: TokenView,
)
    requires
        crate::peer_map::metas_view(metas) == peers.filter(crate::peer_map::endpoint_pred(e)),
        forall|t: int| 0 <= t < metas.len() ==> metas[t]@.required_local_auth != local,
    ensures
        !endpoint_peer_match(peers, e, local),
{
    broadcast use vstd::seq_lib::group_filter_ensures;

    if endpoint_peer_match(peers, e, local) {
        let w = choose|w: int|
            0 <= w < peers.len() && claims_endpoint(peers[w], e) && peers[w].required_local_auth
                == local;
        let pred = crate::peer_map::endpoint_pred(e);
        assert(pred(peers[w]));
        assert(peers.filter(pred).contains(peers[w]));
        let fs = peers.filter(pred);
        let t = choose|t: int| 0 <= t < fs.len() && fs[t] == peers[w];
        assert(metas[t]@ == peers[w]);
        assert(false);
    }
}

/// The no-match tail of [`add_unidentified`]: request a connection under
/// a fresh id and record the endpoint for retries.
fn finish_add_unidentified<D: ConnectionDriver>(
    endpoint: String,
    connector: &mut D,
    unreferenced_peers: &mut UnreferencedPeerState,
    local_authorization: PeerAuthorizationToken,
) -> (r: EndpointPeerRef)
    requires
        old(unreferenced_peers).wf(),
    ensures
        final(unreferenced_peers).wf(),
        final(unreferenced_peers).peers_view() == old(unreferenced_peers).peers_view(),
        final(unreferenced_peers).last_connection_attempt == old(
            unreferenced_peers,
        ).last_connection_attempt,
        final(unreferenced_peers).retry_frequency == old(unreferenced_peers).retry_frequency,
        r.endpoint_view() == endpoint@,
        r.connection_id_view().len() == 36,
        has_req(old(unreferenced_peers).reqs_view(), endpoint@) ==> final(unreferenced_peers).reqs_view() == old(unreferenced_peers).reqs_view().update(
            req_index_of(old(unreferenced_peers).reqs_view(), endpoint@),
            (crate::unreferenced::RequestedEndpointView {
                endpoint: endpoint@,
                local_authorization: local_authorization@,
            }),
        ),
        !has_req(old(unreferenced_peers).reqs_view(), endpoint@) ==> final(unreferenced_peers).reqs_view() == old(unreferenced_peers).reqs_view().push(
            (crate::unreferenced::RequestedEndpointView {
                endpoint: endpoint@,
                local_authorization: local_authorization@,
            }),
        ),
{
    let connection_id = fresh_connection_id();
    let _ = connector.request_connection(
        endpoint.as_str(),
        connection_id.as_str(),
        None,
        Some(&local_authorization),
    );
    let req = RequestedEndpoint {
        endpoint: endpoint.clone(),
        local_authorization,
    };
    unreferenced_peers.insert_requested_endpoint(req);
    EndpointPeerRef::new(endpoint, connection_id)
}

/// Maps the connection manager's answer to a removal request onto the
/// peer manager's reply: a removed connection is success, a connection
/// that was already gone or failed to close is reported to the caller.
pub fn removal_result(res: Result<bool, crate::cm::ConnectionManagerError>) -> (r: Result<
    (),
    PeerRefRemoveError,
>)
    ensures
        res matches Ok(true) ==> r matches Ok(()),
        res matches Ok(false) ==> r matches Err(PeerRefRemoveError::ConnectionAlreadyRemoved),
        res matches Err(e) ==> (r matches Err(PeerRefRemoveError::ConnectionError { err }) && err
            == e),
{
    match res {
        Ok(true) => Ok(()),
        Ok(false) => Err(PeerRefRemoveError::ConnectionAlreadyRemoved),
        Err(e) => Err(PeerRefRemoveError::ConnectionError { err: e }),
    }
}

/// What removing one reference to key `k` does to the tables and what it
/// returns.
pub open spec fn remove_peer_post(
    old_peers: Seq<PeerMetadataView>,
    old_refs: Seq<(PairView, u64)>,
    new_peers: Seq<PeerMetadataView>,
    new_refs: Seq<(PairView, u64)>,
    k: PairView,
    r: Result<(), PeerRefRemoveError>,
) -> bool {
    let c = ref_count(old_refs, k);
    if c == 0 {
        &&& new_peers == old_peers
        &&& refs_eq(old_refs, new_refs)
        &&& r matches Err(PeerRefRemoveError::UnknownPeer)
    } else if c > 1 {
        &&& new_peers == old_peers
        &&& ref_count(new_refs, k) == c - 1
        &&& forall|k2: PairView| k2 != k ==> ref_count(new_refs, k2) == ref_count(old_refs, k2)
        &&& r matches Ok(())
    } else {
        &&& ref_count(new_refs, k) == 0
        &&& forall|k2: PairView| k2 != k ==> ref_count(new_refs, k2) == ref_count(old_refs, k2)
        &&& has_peer(old_peers, k) ==> {
            &&& new_peers == old_peers.remove(peer_index_of(old_peers, k))
            &&& (peer_at(old_peers, k).status is Pending ==> r matches Ok(()))
            &&& (!(peer_at(old_peers, k).status is Pending) ==> (r matches Ok(()) || r matches Err(
                PeerRefRemoveError::ConnectionAlreadyRemoved,
            ) || r matches Err(PeerRefRemoveError::ConnectionError { err: _ })))
        }
    }
}

/// Releases one reference to `peer_id`.  When the last reference is
/// gone the peer leaves the peer map and — unless it was still pending,
/// with no live connection — its connection is closed.  In strict mode
/// releasing an unknown reference is a programmer error and the caller
/// must not ask for it; in lenient mode it is reported as an error.
pub fn remove_peer<D: ConnectionDriver>(
    peer_id: PeerTokenPair,
    connector: &mut D,
    unreferenced_peers: &mut UnreferencedPeerState,
    peers: &mut PeerMap,
    ref_map: &mut RefMap,
    strict_ref_counts: bool,
) -> (r: Result<(), PeerRefRemoveError>)
    requires
        old(peers).wf(),
        old(unreferenced_peers).wf(),
        old(ref_map).wf(),
        state_inv(old(peers)@, old(unreferenced_peers).peers_view(), old(ref_map)@),
        strict_ref_counts ==> ref_count(old(ref_map)@, peer_id@) >= 1,
    ensures
        final(peers).wf(),
        final(unreferenced_peers).wf(),
        final(ref_map).wf(),
        final(peers).initial_retry_frequency == old(peers).initial_retry_frequency,
        final(unreferenced_peers).reqs_view() == old(unreferenced_peers).reqs_view(),
        final(unreferenced_peers).last_connection_attempt == old(
            unreferenced_peers,
        ).last_connection_attempt,
        final(unreferenced_peers).retry_frequency == old(unreferenced_peers).retry_frequency,
        state_inv(final(peers)@, final(unreferenced_peers).peers_view(), final(ref_map)@),
        final(unreferenced_peers).peers_view() == (if has_unref(
            old(unreferenced_peers).peers_view(),
            peer_id@,
        ) {
            old(unreferenced_peers).peers_view().remove(
                unref_index_of(old(unreferenced_peers).peers_view(), peer_id@),
            )
        } else {
            old(unreferenced_peers).peers_view()
        }),
        remove_peer_post(old(peers)@, old(ref_map)@, final(peers)@, final(ref_map)@, peer_id@, r),
        trust_endpoints_distinct(old(peers)@) ==> trust_endpoints_distinct(final(peers)@),
{
    let _ = unreferenced_peers.remove_peer(&peer_id);
    let removed_peer = match ref_map.remove_ref(&peer_id) {
        Ok(removed_peer) => removed_peer,
        Err(err) => {
            proof {
                lemma_state_inv_frame(
                    old(peers)@,
                    old(unreferenced_peers).peers_view(),
                    old(ref_map)@,
                    peers@,
                    unreferenced_peers.peers_view(),
                    ref_map@,
                );
            }
            return Err(PeerRefRemoveError::UnknownPeer);
        },
    };
    match removed_peer {
        Some(removed) => {
            let meta_found = peers.remove(&removed);
            match meta_found {
                Some(peer_metadata) => {
                    proof {
                        let oldv = old(peers)@;
                        let newv = peers@;
                        oldv.remove_ensures(peer_index_of(oldv, peer_id@));
                        assert forall|k2: PairView| has_peer(newv, k2) implies ref_count(
                            ref_map@,
                            k2,
                        ) >= 1 by {
                            assert(has_peer(oldv, k2));
                            assert(k2 != peer_id@);
                        }
                        assert forall|k2: PairView| has_ref(ref_map@, k2) implies has_peer(
                            newv,
                            k2,
                        ) by {
                            let w = crate::ref_map::ref_index(ref_map@, k2);
                            assert(ref_map@[w].1 >= 1);
                            assert(ref_count(ref_map@, k2) >= 1);
                            assert(k2 != peer_id@);
                            assert(ref_count(old(ref_map)@, k2) >= 1);
                            if !has_ref(old(ref_map)@, k2) {
                                assert(ref_count(old(ref_map)@, k2) == 0);
                            }
                            assert(has_peer(oldv, k2));
                        }
                        assert forall|k2: PairView| has_peer(newv, k2) implies !has_unref(
                            unreferenced_peers.peers_view(),
                            k2,
                        ) by {
                            assert(has_peer(oldv, k2));
                            assert(!has_unref(old(unreferenced_peers).peers_view(), k2));
                        }
                    }
                    let is_pending = match peer_metadata.status {
                        PeerStatus::Pending => true,
                        _ => false,
                    };
                    if is_pending {
                        return Ok(());
                    }
                    let res = connector.remove_connection(
                        peer_metadata.active_endpoint.as_str(),
                        peer_metadata.connection_id.as_str(),
                    );
                    removal_result(res)
                },
                None => {
                    // Unreachable while the state invariant holds: the last
                    // reference of a key is always a peer-map entry.
                    proof {
                        assert(ref_count(old(ref_map)@, peer_id@) >= 1);
                        assert(has_ref(old(ref_map)@, peer_id@));
                        assert(has_peer(old(peers)@, peer_id@));
                        assert(false);
                    }
                    Err(PeerRefRemoveError::MissingPeerMetadata)
                },
            }
        },
        None => {
            proof {
                assert forall|k2: PairView| has_peer(peers@, k2) implies ref_count(ref_map@, k2)
                    >= 1 by {
                    if k2 != peer_id@ {
                        assert(ref_count(old(ref_map)@, k2) >= 1);
                    }
                }
                assert forall|k2: PairView| has_ref(ref_map@, k2) implies has_peer(peers@, k2) by {
                    let w = crate::ref_map::ref_index(ref_map@, k2);
                    assert(ref_map@[w].1 >= 1);
                    assert(ref_count(ref_map@, k2) >= 1);
                    assert(ref_count(old(ref_map)@, k2) >= 1);
                    if !has_ref(old(ref_map)@, k2) {
                        assert(ref_count(old(ref_map)@, k2) == 0);
                    }
                    assert(has_peer(old(peers)@, k2));
                }
                assert forall|k2: PairView| has_peer(peers@, k2) implies !has_unref(
                    unreferenced_peers.peers_view(),
                    k2,
                ) by {
                    assert(has_peer(old(peers)@, k2));
                    assert(!has_unref(old(unreferenced_peers).peers_view(), k2));
                }
            }
            Ok(())
        },
    }
}

/// What removing one reference to the peer using connection id `cid`
/// does.
pub open spec fn remove_by_endpoint_post(
    old_peers: Seq<PeerMetadataView>,
    old_refs: Seq<(PairView, u64)>,
    new_peers: Seq<PeerMetadataView>,
    new_refs: Seq<(PairView, u64)>,
    cid: Seq<char>,
    r: Result<(), PeerRefRemoveError>,
) -> bool {
    if !has_conn(old_peers, cid) {
        &&& new_peers == old_peers
        &&& refs_eq(old_refs, new_refs)
        &&& r matches Err(PeerRefRemoveError::MissingPeerMetadata)
    } else {
        let k = conn_at(old_peers, cid).key();
        remove_peer_post(old_peers, old_refs, new_peers, new_refs, k, r)
    }
}

/// Releases the reference held by an endpoint handle: the peer is found
/// by its connection id and one reference is removed, exactly as in
/// [`remove_peer`].  An unknown connection id means the peer is already
/// gone.
pub fn remove_peer_by_endpoint<D: ConnectionDriver>(
    endpoint: String,
    connection_id: String,
    connector: &mut D,
    peers: &mut PeerMap,
    ref_map: &mut RefMap,
    strict_ref_counts: bool,
) -> (r: Result<(), PeerRefRemoveError>)
    requires
        old(peers).wf(),
        old(ref_map).wf(),
        forall|k: PairView| has_peer(old(peers)@, k) ==> ref_count(old(ref_map)@, k) >= 1,
        forall|k: PairView| has_ref(old(ref_map)@, k) ==> has_peer(old(peers)@, k),
    ensures
        final(peers).wf(),
        final(ref_map).wf(),
        final(peers).initial_retry_frequency == old(peers).initial_retry_frequency,
        forall|k: PairView| has_peer(final(peers)@, k) ==> ref_count(final(ref_map)@, k) >= 1,
        forall|k: PairView| has_ref(final(ref_map)@, k) ==> has_peer(final(peers)@, k),
        forall|k: PairView| has_peer(final(peers)@, k) ==> has_peer(old(peers)@, k),
        remove_by_endpoint_post(
            old(peers)@,
            old(ref_map)@,
            final(peers)@,
            final(ref_map)@,
            connection_id@,
            r,
        ),
        trust_endpoints_distinct(old(peers)@) ==> trust_endpoints_distinct(final(peers)@),
{
    let found = match peers.get_by_connection_id(&connection_id) {
        Some(m) => Some(m.clone()),
        None => None,
    };
    let peer_metadata = match found {
        Some(m) => m,
        None => {
            return Err(PeerRefRemoveError::MissingPeerMetadata);
        },
    };
    let peer_token_pair = PeerTokenPair::new(
        peer_metadata.id.clone(),
        peer_metadata.required_local_auth.clone(),
    );
    let ghost k = peer_token_pair@;
    proof {
        crate::model::lemma_first_index(old(peers)@, crate::peer_map::conn_id_is(connection_id@));
        let ci = conn_index_of(old(peers)@, connection_id@);
        assert(old(peers)@[ci].key() == k);
        assert(has_peer(old(peers)@, k));
        assert(ref_count(old(ref_map)@, k) >= 1);
    }
    let removed_peer = match ref_map.remove_ref(&peer_token_pair) {
        Ok(removed_peer) => removed_peer,
        Err(err) => {
            // Unreachable: the peer was just found by connection id, so its
            // key holds a reference.
            proof {
                assert(false);
            }
            return Err(PeerRefRemoveError::UnknownPeer);
        },
    };
    match removed_peer {
        Some(removed) => {
            let meta_found = peers.remove(&removed);
            match meta_found {
                Some(removed_metadata) => {
                    proof {
                        let oldv = old(peers)@;
                        let newv = peers@;
                        assert forall|k2: PairView| has_peer(newv, k2) implies ref_count(
                            ref_map@,
                            k2,
                        ) >= 1 by {
                            assert(has_peer(oldv, k2));
                            assert(k2 != k);
                        }
                        assert forall|k2: PairView| has_ref(ref_map@, k2) implies has_peer(
                            newv,
                            k2,
                        ) by {
                            let w = crate::ref_map::ref_index(ref_map@, k2);
                            assert(ref_map@[w].1 >= 1);
                            assert(ref_count(ref_map@, k2) >= 1);
                            assert(k2 != k);
                            assert(ref_count(old(ref_map)@, k2) >= 1);
                            if !has_ref(old(ref_map)@, k2) {
                                assert(ref_count(old(ref_map)@, k2) == 0);
                            }
                            assert(has_peer(oldv, k2));
                        }
                    }
                    let is_pending = match removed_metadata.status {
                        PeerStatus::Pending => true,
                        _ => false,
                    };
                    if is_pending {
                        return Ok(());
                    }
                    let res = connector.remove_connection(
                        removed_metadata.active_endpoint.as_str(),
                        removed_metadata.connection_id.as_str(),
                    );
                    removal_result(res)
                },
                None => {
                    // Unreachable: the record found by connection id is
                    // removable by its own key.
                    proof {
                        assert(false);
                    }
                    Err(PeerRefRemoveError::MissingPeerMetadata)
                },
            }
        },
        None => Ok(()),
    }
}

/// Whole seconds elapsed on a monotonic clock, zero if the clock moved
/// backwards.
pub open spec fn elapsed_secs_spec(now: u64, earlier: u64) -> int {
    if now >= earlier {
        now - earlier
    } else {
        0
    }
}

/// Whole seconds elapsed between `earlier` and `now`.
pub fn elapsed_secs(now: u64, earlier: u64) -> (r: u64)
    ensures
        r == elapsed_secs_spec(now, earlier),
{
    if now >= earlier {
        now - earlier
    } else {
        0
    }
}

/// True when a pending peer has waited out its backoff and is due for a
/// round of connection attempts.
pub open spec fn retry_due(m: PeerMetadataView, now: u64) -> bool {
    m.status is Pending && elapsed_secs_spec(now, m.last_connection_attempt) > m.retry_frequency
}

/// The record of a due pending peer after a retry sweep: backoff
/// doubled (capped), attempt time stamped, active endpoint possibly
/// moved to another configured endpoint.
pub open spec fn swept(m: PeerMetadataView, m2: PeerMetadataView, max: u64, now: u64) -> bool {
    &&& m2 == (PeerMetadataView {
        active_endpoint: m2.active_endpoint,
        retry_frequency: (bounded_double(m.retry_frequency, max) as u64),
        last_connection_attempt: now,
        ..m
    })
    &&& (m2.active_endpoint == m.active_endpoint || m.endpoints.contains(m2.active_endpoint))
}

/// Dials every endpoint of every due pending peer, remembering the last
/// endpoint the connection manager accepted as the new active endpoint,
/// and doubles each swept peer's backoff (capped at
/// `max_retry_frequency`).  When the by-endpoint requests' own backoff
/// has elapsed, re-requests every recorded endpoint that no peer claims
/// yet, each under a fresh connection id.
pub fn retry_pending<D: ConnectionDriver>(
    peers: &mut PeerMap,
    connector: &mut D,
    unreferenced_peers: &mut UnreferencedPeerState,
    max_retry_frequency: u64,
    now: u64,
)
    requires
        old(peers).wf(),
        old(unreferenced_peers).wf(),
    ensures
        final(peers).wf(),
        final(unreferenced_peers).wf(),
        final(peers).initial_retry_frequency == old(peers).initial_retry_frequency,
        final(peers)@.len() == old(peers)@.len(),
        forall|i: int|
            0 <= i < old(peers)@.len() ==> (if retry_due(old(peers)@[i], now) {
                swept(old(peers)@[i], final(peers)@[i], max_retry_frequency, now)
            } else {
                final(peers)@[i] == old(peers)@[i]
            }),
        forall|k: PairView| has_peer(final(peers)@, k) == has_peer(old(peers)@, k),
        forall|i: int|
            0 <= i < final(peers)@.len() ==> final(peers)@[i].id == old(peers)@[i].id
                && final(peers)@[i].endpoints == old(peers)@[i].endpoints
                && final(peers)@[i].required_local_auth == old(peers)@[i].required_local_auth,
        final(unreferenced_peers).peers_view() == old(unreferenced_peers).peers_view(),
        final(unreferenced_peers).reqs_view() == old(unreferenced_peers).reqs_view(),
        final(unreferenced_peers).retry_frequency == old(unreferenced_peers).retry_frequency,
        final(unreferenced_peers).last_connection_attempt == (if elapsed_secs_spec(
            now,
            old(unreferenced_peers).last_connection_attempt,
        ) > old(unreferenced_peers).retry_frequency {
            now
        } else {
            old(unreferenced_peers).last_connection_attempt
        }),
{
    let n = peers.peers.len();
    let mut i: usize = 0;
    while i < n
        invariant
            old(peers).wf(),
            peers.wf(),
            0 <= i <= n,
            n == old(peers)@.len(),
            peers@.len() == old(peers)@.len(),
            peers.initial_retry_frequency == old(peers).initial_retry_frequency,
            forall|j: int|
                0 <= j < i ==> (if retry_due(old(peers)@[j], now) {
                    swept(old(peers)@[j], peers@[j], max_retry_frequency, now)
                } else {
                    peers@[j] == old(peers)@[j]
                }),
            forall|j: int| i <= j < n ==> peers@[j] == old(peers)@[j],
        decreases n - i,
    {
        let is_pending = match peers.peers[i].status {
            PeerStatus::Pending => true,
            _ => false,
        };
        let due = is_pending && elapsed_secs(now, peers.peers[i].last_connection_attempt)
            > peers.peers[i].retry_frequency;
        if due {
            let mut peer_metadata = peers.peers[i].clone();
            let ghost m = peers@[i as int];
            let ne = peer_metadata.endpoints.len();
            let mut t: usize = 0;
            while t < ne
                invariant
                    0 <= t <= ne,
                    ne == peer_metadata.endpoints@.len(),
                    peer_metadata.endpoints.deep_view() == m.endpoints,
                    peer_metadata.connection_id@ == m.connection_id,
                    peer_metadata.id@ == m.id,
                    peer_metadata.required_local_auth@ == m.required_local_auth,
                    peer_metadata.status == m.status,
                    peer_metadata.retry_frequency == m.retry_frequency,
                    peer_metadata.last_connection_attempt == m.last_connection_attempt,
                    peer_metadata.old_connection_ids.deep_view() == m.old_connection_ids,
                    peer_metadata.active_endpoint@ == m.active_endpoint || m.endpoints.contains(
                        peer_metadata.active_endpoint@,
                    ),
                decreases ne - t,
            {
                let r = connector.request_connection(
                    peer_metadata.endpoints[t].as_str(),
                    peer_metadata.connection_id.as_str(),
                    Some(&peer_metadata.id),
                    Some(&peer_metadata.required_local_auth),
                );
                match r {
                    Ok(()) => {
                        let chosen = peer_metadata.endpoints[t].clone();
                        proof {
                            assert(peer_metadata.endpoints.deep_view()[t as int] == chosen@);
                        }
                        peer_metadata.active_endpoint = chosen;
                    },
                    Err(_) => {},
                }
                t = t + 1;
            }
            peer_metadata.retry_frequency = double_retry_frequency(
                peer_metadata.retry_frequency,
                max_retry_frequency,
            );
            peer_metadata.last_connection_attempt = now;
            let ghost m2 = peer_metadata@;
            let ghost prev = peers@;
            proof {
                assert(m2.key() == prev[i as int].key());
                assert(has_peer(prev, m2.key()));
                let w = peer_index_of(prev, m2.key());
                if w != i {
                    assert(prev[w].key() == prev[i as int].key());
                }
                lemma_update_same_key(prev, m2, i as int);
            }
            let _ = peers.update_peer(peer_metadata);
            proof {
                assert(peers@ == prev.update(i as int, m2));
                assert(swept(old(peers)@[i as int], peers@[i as int], max_retry_frequency, now));
            }
        }
        i = i + 1;
    }
    proof {
        assert forall|k: PairView| has_peer(peers@, k) == has_peer(old(peers)@, k) by {
            if has_peer(old(peers)@, k) {
                let w = peer_index_of(old(peers)@, k);
                assert(peers@[w].key() == k);
            }
            if has_peer(peers@, k) {
                let w = peer_index_of(peers@, k);
                assert(old(peers)@[w].key() == k);
            }
        }
    }
    if elapsed_secs(now, unreferenced_peers.last_connection_attempt)
        > unreferenced_peers.retry_frequency {
        let reqs = unreferenced_peers.requested_endpoints_list();
        let rn = reqs.len();
        let mut t: usize = 0;
        while t < rn
            invariant
                0 <= t <= rn,
                rn == reqs@.len(),
            decreases rn - t,
        {
            if !peers.contains_endpoint(&reqs[t].endpoint) {
                let connection_id = fresh_connection_id();
                let _ = connector.request_connection(
                    reqs[t].endpoint.as_str(),
                    connection_id.as_str(),
                    None,
                    Some(&reqs[t].local_authorization),
                );
            }
            t = t + 1;
        }
        unreferenced_peers.last_connection_attempt = now;
        proof {
            assert(unreferenced_peers.peers_view() == old(unreferenced_peers).peers_view());
            assert(unreferenced_peers.reqs_view() == old(unreferenced_peers).reqs_view());
        }
    }
}

/// What handling a fatal connection error does to the peer map.
pub open spec fn fatal_post(
    old_peers: Seq<PeerMetadataView>,
    new_peers: Seq<PeerMetadataView>,
    cid: Seq<char>,
    max_retry_frequency: u64,
    now: u64,
    notes: Seq<NotificationView>,
) -> bool {
    if has_conn(old_peers, cid) {
        let ci = conn_index_of(old_peers, cid);
        let m = old_peers[ci];
        &&& new_peers == old_peers.update(
            ci,
            (PeerMetadataView {
                status: PeerStatus::Pending,
                retry_frequency: (bounded_double(m.retry_frequency, max_retry_frequency) as u64),
                last_connection_attempt: now,
                ..m
            }),
        )
        &&& notes == seq![(NotificationView::Disconnected { peer: m.key() })]
    } else {
        new_peers == old_peers && notes.len() == 0
    }
}

/// What handling a non-fatal connection error does to the peer map: the
/// failing peer's retry count is recorded, except that a stale report
/// for an endpoint other than the active one is ignored once the retry
/// limit is reached.
pub open spec fn nonfatal_post(
    old_peers: Seq<PeerMetadataView>,
    new_peers: Seq<PeerMetadataView>,
    endpoint: Seq<char>,
    attempts: u64,
    cid: Seq<char>,
    max_retry_attempts: u64,
) -> bool {
    if has_conn(old_peers, cid) {
        let ci = conn_index_of(old_peers, cid);
        let m = old_peers[ci];
        if attempts >= max_retry_attempts && m.active_endpoint != endpoint {
            new_peers == old_peers
        } else {
            new_peers == old_peers.update(
                ci,
                (PeerMetadataView {
                    status: PeerStatus::Disconnected { retry_attempts: attempts },
                    ..m
                }),
            )
        }
    } else {
        new_peers == old_peers
    }
}

/// Handles a non-fatal connection error: records the attempt count on
/// the failing peer and, once the connection manager has exhausted its
/// retries of the active endpoint, dials the peer's other endpoints.
fn handle_non_fatal_connection<D: ConnectionDriver>(
    endpoint: String,
    attempts: u64,
    connection_id: String,
    peers: &mut PeerMap,
    connector: &mut D,
    max_retry_attempts: u64,
) -> (notes: Vec<PeerManagerNotification>)
    requires
        old(peers).wf(),
    ensures
        final(peers).wf(),
        final(peers).initial_retry_frequency == old(peers).initial_retry_frequency,
        final(peers)@.len() == old(peers)@.len(),
        nonfatal_post(
            old(peers)@,
            final(peers)@,
            endpoint@,
            attempts,
            connection_id@,
            max_retry_attempts,
        ),
        notes@.len() == 0,
        forall|k: PairView| has_peer(final(peers)@, k) == has_peer(old(peers)@, k),
        forall|i: int|
            0 <= i < final(peers)@.len() ==> final(peers)@[i].id == old(peers)@[i].id
                && final(peers)@[i].endpoints == old(peers)@[i].endpoints
                && final(peers)@[i].required_local_auth == old(peers)@[i].required_local_auth,
{
    let notes: Vec<PeerManagerNotification> = Vec::new();
    let found = match peers.get_by_connection_id(&connection_id) {
        Some(m) => Some(m.clone()),
        None => None,
    };
    match found {
        Some(mut peer_metadata) => {
            proof {
                crate::model::lemma_first_index(
                    old(peers)@,
                    crate::peer_map::conn_id_is(connection_id@),
                );
            }
            let ghost oldv = old(peers)@;
            let ghost ci = conn_index_of(oldv, connection_id@);
            if attempts >= max_retry_attempts {
                if !(endpoint == peer_metadata.active_endpoint) {
                    return notes;
                }
                let ne = peer_metadata.endpoints.len();
                let mut t: usize = 0;
                let mut connected = false;
                while t < ne && !connected
                    invariant
                        0 <= t <= ne,
                        ne == peer_metadata.endpoints@.len(),
                    decreases ne - t,
                {
                    if !(peer_metadata.endpoints[t] == peer_metadata.active_endpoint) {
                        let r = connector.request_connection(
                            peer_metadata.endpoints[t].as_str(),
                            peer_metadata.connection_id.as_str(),
                            Some(&peer_metadata.id),
                            Some(&peer_metadata.required_local_auth),
                        );
                        match r {
                            Ok(()) => {
                                connected = true;
                            },
                            Err(_) => {},
                        }
                    }
                    t = t + 1;
                }
            }
            peer_metadata.status = PeerStatus::Disconnected { retry_attempts: attempts };
            proof {
                assert(peer_metadata@.key() == oldv[ci].key());
                assert(has_peer(oldv, oldv[ci].key()));
                let pi = peer_index_of(oldv, oldv[ci].key());
                if pi != ci {
                    assert(oldv[pi].key() == oldv[ci].key());
                }
            }
            let ghost m2 = peer_metadata@;
            let _ = peers.update_peer(peer_metadata);
            proof {
                lemma_update_same_key(oldv, m2, ci);
                assert(peers@ == oldv.update(ci, m2));
            }
            notes
        },
        None => notes,
    }
}

/// What handling a connection-manager notification does to the four
/// tables, by notification kind.
pub open spec fn notifications_post(
    old_peers: Seq<PeerMetadataView>,
    old_unref: Seq<(PairView, UnreferencedPeerView)>,
    old_reqs: Seq<crate::unreferenced::RequestedEndpointView>,
    old_refs: Seq<(PairView, u64)>,
    new_peers: Seq<PeerMetadataView>,
    new_unref: Seq<(PairView, UnreferencedPeerView)>,
    new_reqs: Seq<crate::unreferenced::RequestedEndpointView>,
    new_refs: Seq<(PairView, u64)>,
    notification: ConnectionManagerNotification,
    max_retry_attempts: u64,
    retry_frequency: u64,
    initial_retry: u64,
    max_retry_frequency: u64,
    now: u64,
    notes: Seq<NotificationView>,
) -> bool {
    match notification {
        ConnectionManagerNotification::Disconnected { endpoint, identity, connection_id } => {
            &&& disconnection_post(
                old_peers,
                old_unref,
                new_peers,
                new_unref,
                endpoint@,
                connection_id@,
                notes,
            )
            &&& new_reqs == old_reqs
            &&& refs_eq(old_refs, new_refs)
        },
        ConnectionManagerNotification::NonFatalConnectionError {
            endpoint,
            attempts,
            connection_id,
        } => {
            &&& nonfatal_post(
                old_peers,
                new_peers,
                endpoint@,
                attempts,
                connection_id@,
                max_retry_attempts,
            )
            &&& new_unref == old_unref
            &&& new_reqs == old_reqs
            &&& refs_eq(old_refs, new_refs)
            &&& notes.len() == 0
        },
        ConnectionManagerNotification::InboundConnection {
            endpoint,
            connection_id,
            identity,
            local_identity,
        } => {
            &&& inbound_post(
                old_peers,
                old_unref,
                new_peers,
                new_unref,
                endpoint@,
                identity@,
                connection_id@,
                local_identity@,
                retry_frequency,
                now,
                notes,
            )
            &&& new_reqs == old_reqs
            &&& refs_eq(old_refs, new_refs)
        },
        ConnectionManagerNotification::Connected {
            endpoint,
            connection_id,
            identity,
            local_identity,
        } => {
            &&& connected_post(
                old_peers,
                old_unref,
                old_reqs,
                old_refs,
                new_peers,
                new_unref,
                new_refs,
                endpoint@,
                identity@,
                connection_id@,
                local_identity@,
                retry_frequency,
                initial_retry,
                now,
                notes,
            )
            &&& new_reqs == old_reqs
        },
        ConnectionManagerNotification::FatalConnectionError { connection_id, error } => {
            &&& fatal_post(old_peers, new_peers, connection_id@, max_retry_frequency, now, notes)
            &&& new_unref == old_unref
            &&& new_reqs == old_reqs
            &&& refs_eq(old_refs, new_refs)
        },
    }
}

/// Dispatches one connection-manager notification to its handler and
/// returns the peer notifications to broadcast.
pub fn handle_notifications<D: ConnectionDriver>(
    notification: ConnectionManagerNotification,
    unreferenced_peers: &mut UnreferencedPeerState,
    peers: &mut PeerMap,
    connector: &mut D,
    max_retry_attempts: u64,
    ref_map: &mut RefMap,
    retry_frequency: u64,
    max_retry_frequency: u64,
    now: u64,
) -> (notes: Vec<PeerManagerNotification>)
    requires
        old(peers).wf(),
        old(unreferenced_peers).wf(),
        old(ref_map).wf(),
        state_inv(old(peers)@, old(unreferenced_peers).peers_view(), old(ref_map)@),
        notification matches ConnectionManagerNotification::Connected {
            endpoint,
            identity,
            local_identity,
            ..
        } ==> (!has_peer(old(peers)@, pair_of(identity@, local_identity@)) && has_req(
            old(unreferenced_peers).reqs_view(),
            endpoint@,
        ) ==> req_at(old(unreferenced_peers).reqs_view(), endpoint@).local_authorization
            == local_identity@),
    ensures
        final(peers).wf(),
        final(unreferenced_peers).wf(),
        final(ref_map).wf(),
        final(peers).initial_retry_frequency == old(peers).initial_retry_frequency,
        final(unreferenced_peers).last_connection_attempt == old(
            unreferenced_peers,
        ).last_connection_attempt,
        final(unreferenced_peers).retry_frequency == old(unreferenced_peers).retry_frequency,
        state_inv(final(peers)@, final(unreferenced_peers).peers_view(), final(ref_map)@),
        notifications_post(
            old(peers)@,
            old(unreferenced_peers).peers_view(),
            old(unreferenced_peers).reqs_view(),
            old(ref_map)@,
            final(peers)@,
            final(unreferenced_peers).peers_view(),
            final(unreferenced_peers).reqs_view(),
            final(ref_map)@,
            notification,
            max_retry_attempts,
            retry_frequency,
            old(peers).initial_retry_frequency,
            max_retry_frequency,
            now,
            notes_view(notes@),
        ),
        trust_endpoints_distinct(old(peers)@) && (notification matches ConnectionManagerNotification::Connected {
            endpoint,
            identity,
            ..
        } ==> (identity@ is Trust ==> !trust_conflict(old(peers)@, identity@, seq![endpoint@])))
            ==> trust_endpoints_distinct(final(peers)@),
{
    match notification {
        ConnectionManagerNotification::Disconnected { endpoint, identity, connection_id } => {
            let notes = handle_disconnection(
                endpoint,
                identity,
                connection_id,
                unreferenced_peers,
                peers,
                connector,
            );
            proof {
                lemma_state_inv_frame(
                    old(peers)@,
                    old(unreferenced_peers).peers_view(),
                    old(ref_map)@,
                    peers@,
                    unreferenced_peers.peers_view(),
                    ref_map@,
                );
                assert forall|i: int, j: int, e: Seq<char>|
                    #![trigger claims_endpoint(peers@[i], e), claims_endpoint(peers@[j], e)]
                    trust_endpoints_distinct(old(peers)@) && 0 <= i < peers@.len() && 0 <= j
                        < peers@.len() && claims_endpoint(peers@[i], e) && claims_endpoint(
                        peers@[j],
                        e,
                    ) && peers@[i].id is Trust && peers@[j].id is Trust implies peers@[i].id
                    == peers@[j].id by {
                    assert(peers@.len() == old(peers)@.len());
                    assert(peers@[i].endpoints == old(peers)@[i].endpoints);
                    assert(peers@[j].endpoints == old(peers)@[j].endpoints);
                    assert(peers@[i].id == old(peers)@[i].id);
                    assert(peers@[j].id == old(peers)@[j].id);
                    assert(claims_endpoint(old(peers)@[i], e) && claims_endpoint(
                        old(peers)@[j],
                        e,
                    ));
                }
            }
            notes
        },
        ConnectionManagerNotification::NonFatalConnectionError {
            endpoint,
            attempts,
            connection_id,
        } => {
            let notes = handle_non_fatal_connection(
                endpoint,
                attempts,
                connection_id,
                peers,
                connector,
                max_retry_attempts,
            );
            proof {
                lemma_state_inv_frame(
                    old(peers)@,
                    old(unreferenced_peers).peers_view(),
                    old(ref_map)@,
                    peers@,
                    unreferenced_peers.peers_view(),
                    ref_map@,
                );
                assert(notes_view(notes@) =~= Seq::<NotificationView>::empty());
                assert forall|i: int, j: int, e: Seq<char>|
                    #![trigger claims_endpoint(peers@[i], e), claims_endpoint(peers@[j], e)]
                    trust_endpoints_distinct(old(peers)@) && 0 <= i < peers@.len() && 0 <= j
                        < peers@.len() && claims_endpoint(peers@[i], e) && claims_endpoint(
                        peers@[j],
                        e,
                    ) && peers@[i].id is Trust && peers@[j].id is Trust implies peers@[i].id
                    == peers@[j].id by {
                    assert(peers@.len() == old(peers)@.len());
                    assert(peers@[i].endpoints == old(peers)@[i].endpoints);
                    assert(peers@[j].endpoints == old(peers)@[j].endpoints);
                    assert(peers@[i].id == old(peers)@[i].id);
                    assert(peers@[j].id == old(peers)@[j].id);
                    assert(claims_endpoint(old(peers)@[i], e) && claims_endpoint(
                        old(peers)@[j],
                        e,
                    ));
                }
            }
            notes
        },
        ConnectionManagerNotification::InboundConnection {
            endpoint,
            connection_id,
            identity,
            local_identity,
        } => {
            let notes = handle_inbound_connection(
                endpoint,
                identity,
                connection_id,
                local_identity,
                unreferenced_peers,
                peers,
                connector,
                retry_frequency,
                now,
            );
            proof {
                lemma_state_inv_frame(
                    old(peers)@,
                    old(unreferenced_peers).peers_view(),
                    old(ref_map)@,
                    peers@,
                    unreferenced_peers.peers_view(),
                    ref_map@,
                );
                assert forall|i: int, j: int, e: Seq<char>|
                    #![trigger claims_endpoint(peers@[i], e), claims_endpoint(peers@[j], e)]
                    trust_endpoints_distinct(old(peers)@) && 0 <= i < peers@.len() && 0 <= j
                        < peers@.len() && claims_endpoint(peers@[i], e) && claims_endpoint(
                        peers@[j],
                        e,
                    ) && peers@[i].id is Trust && peers@[j].id is Trust implies peers@[i].id
                    == peers@[j].id by {
                    assert(peers@.len() == old(peers)@.len());
                    assert(peers@[i].endpoints == old(peers)@[i].endpoints);
                    assert(peers@[j].endpoints == old(peers)@[j].endpoints);
                    assert(peers@[i].id == old(peers)@[i].id);
                    assert(peers@[j].id == old(peers)@[j].id);
                    assert(claims_endpoint(old(peers)@[i], e) && claims_endpoint(
                        old(peers)@[j],
                        e,
                    ));
                }
            }
            notes
        },
        ConnectionManagerNotification::Connected {
            endpoint,
            connection_id,
            identity,
            local_identity,
        } => handle_connected(
            endpoint,
            identity,
            connection_id,
            local_identity,
            unreferenced_peers,
            peers,
            connector,
            ref_map,
            retry_frequency,
            now,
        ),
        ConnectionManagerNotification::FatalConnectionError { connection_id, error } => {
            let notes = handle_fatal_connection(
                connection_id,
                error,
                peers,
                max_retry_frequency,
                now,
            );
            proof {
                lemma_state_inv_frame(
                    old(peers)@,
                    old(unreferenced_peers).peers_view(),
                    old(ref_map)@,
                    peers@,
                    unreferenced_peers.peers_view(),
                    ref_map@,
                );
                assert forall|i: int, j: int, e: Seq<char>|
                    #![trigger claims_endpoint(peers@[i], e), claims_endpoint(peers@[j], e)]
                    trust_endpoints_distinct(old(peers)@) && 0 <= i < peers@.len() && 0 <= j
                        < peers@.len() && claims_endpoint(peers@[i], e) && claims_endpoint(
                        peers@[j],
                        e,
                    ) && peers@[i].id is Trust && peers@[j].id is Trust implies peers@[i].id
                    == peers@[j].id by {
                    assert(peers@.len() == old(peers)@.len());
                    assert(peers@[i].endpoints == old(peers)@[i].endpoints);
                    assert(peers@[j].endpoints == old(peers)@[j].endpoints);
                    assert(peers@[i].id == old(peers)@[i].id);
                    assert(peers@[j].id == old(peers)@[j].id);
                    assert(claims_endpoint(old(peers)@[i], e) && claims_endpoint(
                        old(peers)@[j],
                        e,
                    ));
                }
            }
            notes
        },
    }
}

/// What handling one caller request does to the five tables and what it
/// replies.
pub open spec fn request_post(
    old_peers: Seq<PeerMetadataView>,
    old_unref: Seq<(PairView, UnreferencedPeerView)>,
    old_reqs: Seq<crate::unreferenced::RequestedEndpointView>,
    old_refs: Seq<(PairView, u64)>,
    old_subs: Seq<u64>,
    old_next: u64,
    new_peers: Seq<PeerMetadataView>,
    new_unref: Seq<(PairView, UnreferencedPeerView)>,
    new_reqs: Seq<crate::unreferenced::RequestedEndpointView>,
    new_refs: Seq<(PairView, u64)>,
    new_subs: Seq<u64>,
    new_next: u64,
    request: PeerManagerRequest,
    initial_retry: u64,
    now: u64,
    reply: PeerManagerReply,
    notes: Seq<NotificationView>,
) -> bool {
    match request {
        PeerManagerRequest::AddPeer { peer_id, endpoints, required_local_auth } => {
            &&& reply matches PeerManagerReply::PeerAdded(res) && add_peer_post(
                old_peers,
                old_unref,
                old_reqs,
                old_refs,
                new_peers,
                new_unref,
                new_refs,
                peer_id@,
                endpoints.deep_view(),
                required_local_auth@,
                initial_retry,
                now,
                res,
                notes,
            )
            &&& new_subs == old_subs && new_next == old_next
        },
        PeerManagerRequest::AddUnidentified { endpoint, local_authorization } => {
            &&& reply matches PeerManagerReply::UnidentifiedAdded(Ok(epr))
                && add_unidentified_post(
                old_peers,
                old_reqs,
                old_refs,
                new_reqs,
                new_refs,
                endpoint@,
                local_authorization@,
                epr,
            )
            &&& new_peers == old_peers
            &&& new_unref == old_unref
            &&& new_subs == old_subs && new_next == old_next
            &&& notes.len() == 0
        },
        PeerManagerRequest::RemovePeer { peer_id } => {
            &&& reply matches PeerManagerReply::PeerRemoved(res) && remove_peer_post(
                old_peers,
                old_refs,
                new_peers,
                new_refs,
                peer_id@,
                res,
            )
            &&& new_unref == (if has_unref(old_unref, peer_id@) {
                old_unref.remove(unref_index_of(old_unref, peer_id@))
            } else {
                old_unref
            })
            &&& new_reqs == old_reqs
            &&& new_subs == old_subs && new_next == old_next
            &&& notes.len() == 0
        },
        PeerManagerRequest::RemovePeerByEndpoint { endpoint, connection_id } => {
            &&& reply matches PeerManagerReply::PeerRemoved(res) && remove_by_endpoint_post(
                old_peers,
                old_refs,
                new_peers,
                new_refs,
                connection_id@,
                res,
            )
            &&& new_unref == old_unref
            &&& new_reqs == old_reqs
            &&& new_subs == old_subs && new_next == old_next
            &&& notes.len() == 0
        },
        PeerManagerRequest::ListPeers => {
            &&& reply matches PeerManagerReply::Peers(Ok(v)) && v@.len() == old_peers.len() && (
            forall|i: int| 0 <= i < v@.len() ==> v@[i]@ == old_peers[i].id)
            &&& tables_unchanged(
                old_peers,
                old_unref,
                old_reqs,
                old_refs,
                old_subs,
                old_next,
                new_peers,
                new_unref,
                new_reqs,
                new_refs,
                new_subs,
                new_next,
            )
            &&& notes.len() == 0
        },
        PeerManagerRequest::ListUnreferencedPeers => {
            &&& reply matches PeerManagerReply::UnreferencedPeers(Ok(v)) && v@.len()
                == old_unref.len() && (forall|i: int|
                0 <= i < v@.len() ==> v@[i]@ == old_unref[i].0)
            &&& tables_unchanged(
                old_peers,
                old_unref,
                old_reqs,
                old_refs,
                old_subs,
                old_next,
                new_peers,
                new_unref,
                new_reqs,
                new_refs,
                new_subs,
                new_next,
            )
            &&& notes.len() == 0
        },
        PeerManagerRequest::ConnectionIds => {
            &&& reply matches PeerManagerReply::ConnectionIds(Ok(cmap)) && cmap@.len()
                == old_peers.len() && (forall|i: int|
                0 <= i < cmap@.len() ==> cmap@[i].0 == old_peers[i].key() && cmap@[i].1
                    == old_peers[i].connection_id)
            &&& tables_unchanged(
                old_peers,
                old_unref,
                old_reqs,
                old_refs,
                old_subs,
                old_next,
                new_peers,
                new_unref,
                new_reqs,
                new_refs,
                new_subs,
                new_next,
            )
            &&& notes.len() == 0
        },
        PeerManagerRequest::GetConnectionId { peer_id } => {
            &&& reply matches PeerManagerReply::ConnectionId(Ok(opt)) && (
            if has_peer(old_peers, peer_id@) {
                opt matches Some(c) && c@ == peer_at(old_peers, peer_id@).connection_id
            } else if has_unref(old_unref, peer_id@) {
                opt matches Some(c) && c@ == unref_at(old_unref, peer_id@).connection_id
            } else {
                opt matches None
            })
            &&& tables_unchanged(
                old_peers,
                old_unref,
                old_reqs,
                old_refs,
                old_subs,
                old_next,
                new_peers,
                new_unref,
                new_reqs,
                new_refs,
                new_subs,
                new_next,
            )
            &&& notes.len() == 0
        },
        PeerManagerRequest::GetPeerId { connection_id } => {
            &&& reply matches PeerManagerReply::PeerId(Ok(opt)) && (if has_conn(
                old_peers,
                connection_id@,
            ) {
                opt matches Some(p) && p@ == conn_at(old_peers, connection_id@).key()
            } else if crate::unreferenced::has_unref_conn(old_unref, connection_id@) {
                opt matches Some(p) && p@ == crate::unreferenced::unref_conn_at(
                    old_unref,
                    connection_id@,
                ).0
            } else {
                opt matches None
            })
            &&& tables_unchanged(
                old_peers,
                old_unref,
                old_reqs,
                old_refs,
                old_subs,
                old_next,
                new_peers,
                new_unref,
                new_reqs,
                new_refs,
                new_subs,
                new_next,
            )
            &&& notes.len() == 0
        },
        PeerManagerRequest::Subscribe => {
            &&& reply matches PeerManagerReply::Subscribed(Ok(id)) && id == old_next && new_subs
                == old_subs.push(id) && new_next == old_next + 1
            &&& new_peers == old_peers
            &&& new_unref == old_unref
            &&& new_reqs == old_reqs
            &&& refs_eq(old_refs, new_refs)
            &&& notes.len() == 0
        },
        PeerManagerRequest::Unsubscribe { subscriber_id } => {
            &&& reply matches PeerManagerReply::Unsubscribed(Ok(u))
            &&& new_subs == old_subs.filter(crate::notification::keep_other_subscribers(
                subscriber_id,
            ))
            &&& new_next == old_next
            &&& new_peers == old_peers
            &&& new_unref == old_unref
            &&& new_reqs == old_reqs
            &&& refs_eq(old_refs, new_refs)
            &&& notes.len() == 0
        },
    }
}

/// No table changed.
pub open spec fn tables_unchanged(
    old_peers: Seq<PeerMetadataView>,
    old_unref: Seq<(PairView, UnreferencedPeerView)>,
    old_reqs: Seq<crate::unreferenced::RequestedEndpointView>,
    old_refs: Seq<(PairView, u64)>,
    old_subs: Seq<u64>,
    old_next: u64,
    new_peers: Seq<PeerMetadataView>,
    new_unref: Seq<(PairView, UnreferencedPeerView)>,
    new_reqs: Seq<crate::unreferenced::RequestedEndpointView>,
    new_refs: Seq<(PairView, u64)>,
    new_subs: Seq<u64>,
    new_next: u64,
) -> bool {
    &&& new_peers == old_peers
    &&& new_unref == old_unref
    &&& new_reqs == old_reqs
    &&& refs_eq(old_refs, new_refs)
    &&& new_subs == old_subs
    &&& new_next == old_next
}

/// Handles one caller request: dispatches to the matching operation and
/// returns the reply (sent back on the caller's channel by the actor)
/// together with the notifications to broadcast.
pub fn handle_request<D: ConnectionDriver>(
    request: PeerManagerRequest,
    connector: &mut D,
    unreferenced_peers: &mut UnreferencedPeerState,
    peers: &mut PeerMap,
    ref_map: &mut RefMap,
    subscribers: &mut SubscriberMap,
    strict_ref_counts: bool,
    now: u64,
) -> (res: (PeerManagerReply, Vec<PeerManagerNotification>))
    requires
        old(peers).wf(),
        old(unreferenced_peers).wf(),
        old(ref_map).wf(),
        old(subscribers).wf(),
        state_inv(old(peers)@, old(unreferenced_peers).peers_view(), old(ref_map)@),
        request matches PeerManagerRequest::AddPeer { peer_id, required_local_auth, .. }
            ==> ref_count(old(ref_map)@, pair_of(peer_id@, required_local_auth@)) < u64::MAX,
        request matches PeerManagerRequest::AddUnidentified { .. } ==> (forall|i: int|
            0 <= i < old(peers)@.len() ==> ref_count(old(ref_map)@, old(peers)@[i].key())
                < u64::MAX),
        request matches PeerManagerRequest::RemovePeer { peer_id } ==> (strict_ref_counts
            ==> ref_count(old(ref_map)@, peer_id@) >= 1),
        request matches PeerManagerRequest::Subscribe ==> old(subscribers).next_id < u64::MAX,
    ensures
        final(peers).wf(),
        final(unreferenced_peers).wf(),
        final(ref_map).wf(),
        final(subscribers).wf(),
        final(peers).initial_retry_frequency == old(peers).initial_retry_frequency,
        final(unreferenced_peers).last_connection_attempt == old(
            unreferenced_peers,
        ).last_connection_attempt,
        final(unreferenced_peers).retry_frequency == old(unreferenced_peers).retry_frequency,
        state_inv(final(peers)@, final(unreferenced_peers).peers_view(), final(ref_map)@),
        request_post(
            old(peers)@,
            old(unreferenced_peers).peers_view(),
            old(unreferenced_peers).reqs_view(),
            old(ref_map)@,
            old(subscribers)@,
            old(subscribers).next_id,
            final(peers)@,
            final(unreferenced_peers).peers_view(),
            final(unreferenced_peers).reqs_view(),
            final(ref_map)@,
            final(subscribers)@,
            final(subscribers).next_id,
            request,
            old(peers).initial_retry_frequency,
            now,
            res.0,
            notes_view(res.1@),
        ),
        trust_endpoints_distinct(old(peers)@) ==> trust_endpoints_distinct(final(peers)@),
{
    match request {
        PeerManagerRequest::AddPeer { peer_id, endpoints, required_local_auth } => {
            let (r, notes) = add_peer(
                peer_id,
                endpoints,
                connector,
                unreferenced_peers,
                peers,
                ref_map,
                required_local_auth,
                now,
            );
            (PeerManagerReply::PeerAdded(r), notes)
        },
        PeerManagerRequest::AddUnidentified { endpoint, local_authorization } => {
            let r = add_unidentified(
                endpoint,
                connector,
                unreferenced_peers,
                peers,
                ref_map,
                local_authorization,
            );
            (PeerManagerReply::UnidentifiedAdded(Ok(r)), Vec::new())
        },
        PeerManagerRequest::RemovePeer { peer_id } => {
            let r = remove_peer(
                peer_id,
                connector,
                unreferenced_peers,
                peers,
                ref_map,
                strict_ref_counts,
            );
            (PeerManagerReply::PeerRemoved(r), Vec::new())
        },
        PeerManagerRequest::RemovePeerByEndpoint { endpoint, connection_id } => {
            let r = remove_peer_by_endpoint(
                endpoint,
                connection_id,
                connector,
                peers,
                ref_map,
                strict_ref_counts,
            );
            proof {
                assert forall|k: PairView| has_peer(peers@, k) implies !has_unref(
                    unreferenced_peers.peers_view(),
                    k,
                ) by {
                    assert(has_peer(old(peers)@, k));
                    assert(!has_unref(old(unreferenced_peers).peers_view(), k));
                }
            }
            (PeerManagerReply::PeerRemoved(r), Vec::new())
        },
        PeerManagerRequest::ListPeers => {
            let ids = peers.peer_ids();
            (PeerManagerReply::Peers(Ok(ids)), Vec::new())
        },
        PeerManagerRequest::ListUnreferencedPeers => {
            let keys = unreferenced_peers.peer_keys();
            (PeerManagerReply::UnreferencedPeers(Ok(keys)), Vec::new())
        },
        PeerManagerRequest::ConnectionIds => {
            let cmap = peers.connection_ids();
            (PeerManagerReply::ConnectionIds(Ok(cmap)), Vec::new())
        },
        PeerManagerRequest::GetConnectionId { peer_id } => {
            let found = match peers.get_by_peer_id(&peer_id) {
                Some(m) => Some(m.connection_id.clone()),
                None => match unreferenced_peers.get_peer(&peer_id) {
                    Some(u) => Some(u.connection_id.clone()),
                    None => None,
                },
            };
            (PeerManagerReply::ConnectionId(Ok(found)), Vec::new())
        },
        PeerManagerRequest::GetPeerId { connection_id } => {
            let found = match peers.get_by_connection_id(&connection_id) {
                Some(m) => {
                    proof {
                        crate::model::lemma_first_index(
                            peers@,
                            crate::peer_map::conn_id_is(connection_id@),
                        );
                    }
                    Some(PeerTokenPair::new(m.id.clone(), m.required_local_auth.clone()))
                },
                None => match unreferenced_peers.get_by_connection_id(&connection_id) {
                    Some((id, _)) => Some(id),
                    None => None,
                },
            };
            (PeerManagerReply::PeerId(Ok(found)), Vec::new())
        },
        PeerManagerRequest::Subscribe => {
            let id = subscribers.add_subscriber();
            (PeerManagerReply::Subscribed(Ok(id)), Vec::new())
        },
        PeerManagerRequest::Unsubscribe { subscriber_id } => {
            subscribers.remove_subscriber(subscriber_id);
            (PeerManagerReply::Unsubscribed(Ok(())), Vec::new())
        },
    }
}

} // verus!

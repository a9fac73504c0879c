//! Peers without outstanding references.
//!
//! Two tables: inbound peers that connected before anyone asked for them
//! (`peers`), and endpoints that were requested without knowing the
//! remote identity yet (`requested_endpoints`).  Entries move out of
//! these tables when a caller adds a reference or when the learned
//! identity promotes a requested endpoint to a full peer.

use vstd::prelude::*;

use crate::model::{first_index, has_match};
use crate::peer_map::clone_string_vec;
use crate::token::{PairView, PeerAuthorizationToken, PeerTokenPair, TokenView};

verus! {

/// The mathematical value of an [`UnreferencedPeer`].
pub struct UnreferencedPeerView {
    pub connection_id: Seq<char>,
    pub endpoint: Seq<char>,
    pub local_authorization: TokenView,
    pub old_connection_ids: Seq<Seq<char>>,
}

/// An inbound or superseded peer connection with no outstanding handle.
#[derive(Debug)]
pub struct UnreferencedPeer {
    /// The id of the peer's current connection.
    pub connection_id: String,
    /// The endpoint the connection uses.
    pub endpoint: String,
    /// The local token the connection was authorized under.
    pub local_authorization: PeerAuthorizationToken,
    /// Ids of superseded connections that may still produce trailing
    /// notifications.
    pub old_connection_ids: Vec<String>,
}

impl View for UnreferencedPeer {
    type V = UnreferencedPeerView;

    open spec fn view(&self) -> UnreferencedPeerView {
        UnreferencedPeerView {
            connection_id: self.connection_id@,
            endpoint: self.endpoint@,
            local_authorization: self.local_authorization@,
            old_connection_ids: self.old_connection_ids.deep_view(),
        }
    }
}

impl Clone for UnreferencedPeer {
    /// Cloning preserves the entry's value.
    fn clone(&self) -> (r: Self)
        ensures
            r@ == self@,
    {
        UnreferencedPeer {
            connection_id: self.connection_id.clone(),
            endpoint: self.endpoint.clone(),
            local_authorization: self.local_authorization.clone(),
            old_connection_ids: clone_string_vec(&self.old_connection_ids),
        }
    }
}

/// The mathematical value of a [`RequestedEndpoint`].
pub struct RequestedEndpointView {
    pub endpoint: Seq<char>,
    pub local_authorization: TokenView,
}

/// An endpoint requested before the remote identity is known.
#[derive(Debug)]
pub struct RequestedEndpoint {
    pub endpoint: String,
    /// The local token the connection was requested under.
    pub local_authorization: PeerAuthorizationToken,
}

impl View for RequestedEndpoint {
    type V = RequestedEndpointView;

    open spec fn view(&self) -> RequestedEndpointView {
        RequestedEndpointView {
            endpoint: self.endpoint@,
            local_authorization: self.local_authorization@,
        }
    }
}

impl Clone for RequestedEndpoint {
    /// Cloning preserves the entry's value.
    fn clone(&self) -> (r: Self)
        ensures
            r@ == self@,
    {
        RequestedEndpoint {
            endpoint: self.endpoint.clone(),
            local_authorization: self.local_authorization.clone(),
        }
    }
}

/// True when `s` holds an entry for key `k`.
pub open spec fn has_unref(s: Seq<(PairView, UnreferencedPeerView)>, k: PairView) -> bool {
    exists|i: int| 0 <= i < s.len() && s[i].0 == k
}

/// The index of the entry for `k` (under distinct keys, the only one).
pub open spec fn unref_index_of(s: Seq<(PairView, UnreferencedPeerView)>, k: PairView) -> int {
    choose|i: int| 0 <= i < s.len() && s[i].0 == k
}

/// The entry for `k` (meaningful when `has_unref(s, k)` holds).
pub open spec fn unref_at(s: Seq<(PairView, UnreferencedPeerView)>, k: PairView) -> UnreferencedPeerView {
    s[unref_index_of(s, k)].1
}

/// The predicate "this entry's connection id is `cid`".
pub open spec fn unref_conn_pred(cid: Seq<char>) -> spec_fn((PairView, UnreferencedPeerView)) -> bool {
    |e: (PairView, UnreferencedPeerView)| e.1.connection_id == cid
}

/// True when some entry's connection id is `cid`.
pub open spec fn has_unref_conn(s: Seq<(PairView, UnreferencedPeerView)>, cid: Seq<char>) -> bool {
    has_match(s, unref_conn_pred(cid))
}

/// The first entry whose connection id is `cid`.
pub open spec fn unref_conn_at(s: Seq<(PairView, UnreferencedPeerView)>, cid: Seq<char>) -> (
    PairView,
    UnreferencedPeerView,
) {
    s[first_index(s, unref_conn_pred(cid))]
}

/// True when `s` holds a request for `endpoint`.
pub open spec fn has_req(s: Seq<RequestedEndpointView>, endpoint: Seq<char>) -> bool {
    exists|i: int| 0 <= i < s.len() && s[i].endpoint == endpoint
}

/// The index of the request for `endpoint` (under distinct endpoints, the
/// only one).
pub open spec fn req_index_of(s: Seq<RequestedEndpointView>, endpoint: Seq<char>) -> int {
    choose|i: int| 0 <= i < s.len() && s[i].endpoint == endpoint
}

/// The request for `endpoint` (meaningful when `has_req` holds).
pub open spec fn req_at(s: Seq<RequestedEndpointView>, endpoint: Seq<char>) -> RequestedEndpointView {
    s[req_index_of(s, endpoint)]
}

/// The peers known to the manager without any outstanding reference.
pub struct UnreferencedPeerState {
    /// Unreferenced peers by key.
    pub peers: Vec<(PeerTokenPair, UnreferencedPeer)>,
    /// Endpoints requested without a known remote identity, by endpoint.
    pub requested_endpoints: Vec<RequestedEndpoint>,
    /// When the requested endpoints were last retried, in seconds of
    /// monotonic time.
    pub last_connection_attempt: u64,
    /// The backoff between retries of requested endpoints, in seconds.
    pub retry_frequency: u64,
}

impl UnreferencedPeerState {
    /// The unreferenced peers, as mathematical values.
    pub open spec fn peers_view(&self) -> Seq<(PairView, UnreferencedPeerView)> {
        self.peers@.map_values(|e: (PeerTokenPair, UnreferencedPeer)| (e.0@, e.1@))
    }

    /// The requested endpoints, as mathematical values.
    pub open spec fn reqs_view(&self) -> Seq<RequestedEndpointView> {
        self.requested_endpoints@.map_values(|e: RequestedEndpoint| e@)
    }

    /// Keys and requested endpoints are pairwise distinct.
    pub open spec fn wf(&self) -> bool {
        &&& forall|i: int, j: int|
            0 <= i < j < self.peers_view().len() ==> self.peers_view()[i].0
                != self.peers_view()[j].0
        &&& forall|i: int, j: int|
            0 <= i < j < self.reqs_view().len() ==> self.reqs_view()[i].endpoint
                != self.reqs_view()[j].endpoint
    }

    pub fn new(retry_frequency: u64, now: u64) -> (r: Self)
        ensures
            r.peers_view() == Seq::<(PairView, UnreferencedPeerView)>::empty(),
            r.reqs_view() == Seq::<RequestedEndpointView>::empty(),
            r.wf(),
            r.retry_frequency == retry_frequency,
            r.last_connection_attempt == now,
    {
        let r = UnreferencedPeerState {
            peers: Vec::new(),
            requested_endpoints: Vec::new(),
            last_connection_attempt: now,
            retry_frequency,
        };
        proof {
            assert(r.peers_view() =~= Seq::<(PairView, UnreferencedPeerView)>::empty());
            assert(r.reqs_view() =~= Seq::<RequestedEndpointView>::empty());
        }
        r
    }

    /// Looks up the unreferenced peer with key `peer_id`.
    pub fn get_peer(&self, peer_id: &PeerTokenPair) -> (r: Option<&UnreferencedPeer>)
        requires
            self.wf(),
        ensures
            match r {
                Some(p) => has_unref(self.peers_view(), peer_id@) && p@ == unref_at(
                    self.peers_view(),
                    peer_id@,
                ),
                None => !has_unref(self.peers_view(), peer_id@),
            },
    {
        let n = self.peers.len();
        let mut i: usize = 0;
        while i < n
            invariant
                self.wf(),
                0 <= i <= n,
                n == self.peers@.len(),
                forall|j: int| 0 <= j < i ==> self.peers_view()[j].0 != peer_id@,
            decreases n - i,
        {
            if self.peers[i].0 == *peer_id {
                proof {
                    assert(self.peers_view()[i as int].0 == peer_id@);
                    assert(has_unref(self.peers_view(), peer_id@));
                    let w = unref_index_of(self.peers_view(), peer_id@);
                    if w != i {
                        assert(self.peers_view()[w].0 == self.peers_view()[i as int].0);
                    }
                }
                return Some(&self.peers[i].1);
            }
            i = i + 1;
        }
        proof {
            if has_unref(self.peers_view(), peer_id@) {
                let w = unref_index_of(self.peers_view(), peer_id@);
                assert(self.peers_view()[w].0 != peer_id@);
            }
        }
        None
    }

    /// Adds an unreferenced peer under a key not yet present.
    pub fn insert_peer(&mut self, peer_id: PeerTokenPair, peer: UnreferencedPeer)
        requires
            old(self).wf(),
            !has_unref(old(self).peers_view(), peer_id@),
        ensures
            final(self).wf(),
            final(self).peers_view() == old(self).peers_view().push((peer_id@, peer@)),
            final(self).reqs_view() == old(self).reqs_view(),
            final(self).last_connection_attempt == old(self).last_connection_attempt,
            final(self).retry_frequency == old(self).retry_frequency,
    {
        self.peers.push((peer_id, peer));
        proof {
            let newv = self.peers_view();
            let oldv = old(self).peers_view();
            assert(newv =~= oldv.push(newv[oldv.len() as int]));
            let n = oldv.len() as int;
            assert forall|i: int, j: int| 0 <= i < j < newv.len() implies newv[i].0
                != newv[j].0 by {
                if j < n {
                    assert(oldv[i].0 != oldv[j].0);
                } else {
                    if newv[i].0 == newv[j].0 {
                        assert(has_unref(oldv, newv[n].0));
                    }
                }
            }
        }
    }

    /// Replaces the entry for a key already present.
    pub fn replace_peer(&mut self, peer_id: &PeerTokenPair, peer: UnreferencedPeer)
        requires
            old(self).wf(),
            has_unref(old(self).peers_view(), peer_id@),
        ensures
            final(self).wf(),
            final(self).peers_view() == old(self).peers_view().update(
                unref_index_of(old(self).peers_view(), peer_id@),
                (peer_id@, peer@),
            ),
            final(self).reqs_view() == old(self).reqs_view(),
            final(self).last_connection_attempt == old(self).last_connection_attempt,
            final(self).retry_frequency == old(self).retry_frequency,
    {
        let n = self.peers.len();
        let mut i: usize = 0;
        while i < n
            invariant
                old(self).wf(),
                self == old(self),
                has_unref(old(self).peers_view(), peer_id@),
                0 <= i <= n,
                n == self.peers@.len(),
                forall|j: int| 0 <= j < i ==> self.peers_view()[j].0 != peer_id@,
            decreases n - i,
        {
            if self.peers[i].0 == *peer_id {
                proof {
                    assert(self.peers_view()[i as int].0 == peer_id@);
                    let w = unref_index_of(self.peers_view(), peer_id@);
                    if w != i {
                        assert(self.peers_view()[w].0 == self.peers_view()[i as int].0);
                    }
                }
                let key = self.peers.remove(i);
                self.peers.insert(i, (key.0, peer));
                proof {
                    let newv = self.peers_view();
                    let oldv = old(self).peers_view();
                    assert(newv =~= oldv.update(i as int, newv[i as int]));
                    assert(newv[i as int].0 == peer_id@);
                    assert forall|a: int, b: int| 0 <= a < b < newv.len() implies newv[a].0
                        != newv[b].0 by {
                        assert(oldv[a].0 != oldv[b].0);
                        assert(oldv[i as int].0 == newv[i as int].0);
                    }
                }
                return ;
            }
            i = i + 1;
        }
        proof {
            let w = unref_index_of(self.peers_view(), peer_id@);
            assert(self.peers_view()[w].0 != peer_id@);
            assert(false);
        }
    }

    /// Removes and returns the entry for `peer_id`, if any.
    pub fn remove_peer(&mut self, peer_id: &PeerTokenPair) -> (r: Option<UnreferencedPeer>)
        requires
            old(self).wf(),
        ensures
            final(self).wf(),
            final(self).reqs_view() == old(self).reqs_view(),
            final(self).last_connection_attempt == old(self).last_connection_attempt,
            final(self).retry_frequency == old(self).retry_frequency,
            has_unref(old(self).peers_view(), peer_id@) ==> (r matches Some(p) && p@ == unref_at(
                old(self).peers_view(),
                peer_id@,
            ) && final(self).peers_view() == old(self).peers_view().remove(
                unref_index_of(old(self).peers_view(), peer_id@),
            ) && !has_unref(final(self).peers_view(), peer_id@)),
            !has_unref(old(self).peers_view(), peer_id@) ==> (r matches None
                && final(self).peers_view() == old(self).peers_view()),
            forall|k: PairView|
                k != peer_id@ ==> has_unref(final(self).peers_view(), k) == has_unref(
                    old(self).peers_view(),
                    k,
                ),
            forall|k: PairView|
                k != peer_id@ && has_unref(old(self).peers_view(), k) ==> unref_at(
                    final(self).peers_view(),
                    k,
                ) == unref_at(old(self).peers_view(), k),
    {
        let n = self.peers.len();
        let mut i: usize = 0;
        while i < n
            invariant
                old(self).wf(),
                self == old(self),
                0 <= i <= n,
                n == self.peers@.len(),
                forall|j: int| 0 <= j < i ==> self.peers_view()[j].0 != peer_id@,
            decreases n - i,
        {
            if self.peers[i].0 == *peer_id {
                proof {
                    assert(self.peers_view()[i as int].0 == peer_id@);
                    assert(has_unref(self.peers_view(), peer_id@));
                    let w = unref_index_of(self.peers_view(), peer_id@);
                    if w != i {
                        assert(self.peers_view()[w].0 == self.peers_view()[i as int].0);
                    }
                }
                let e = self.peers.remove(i);
                proof {
                    let newv = self.peers_view();
                    let oldv = old(self).peers_view();
                    assert(newv =~= oldv.remove(i as int));
                    oldv.remove_ensures(i as int);
                    assert forall|a: int, b: int| 0 <= a < b < newv.len() implies newv[a].0
                        != newv[b].0 by {
                        let asrc = if a < i {
                            a
                        } else {
                            a + 1
                        };
                        let bsrc = if b < i {
                            b
                        } else {
                            b + 1
                        };
                        assert(oldv[asrc].0 != oldv[bsrc].0);
                    }
                    if has_unref(newv, peer_id@) {
                        let w = unref_index_of(newv, peer_id@);
                        let wsrc = if w < i {
                            w
                        } else {
                            w + 1
                        };
                        assert(oldv[wsrc].0 == peer_id@);
                        assert(false);
                    }
                    assert forall|k: PairView| k != peer_id@ implies has_unref(newv, k)
                        == has_unref(oldv, k) by {
                        Self::lemma_remove_unref_other(oldv, i as int, k);
                    }
                    assert forall|k: PairView| k != peer_id@ && has_unref(oldv, k) implies unref_at(
                        newv,
                        k,
                    ) == unref_at(oldv, k) by {
                        Self::lemma_remove_unref_other(oldv, i as int, k);
                    }
                }
                return Some(e.1);
            }
            i = i + 1;
        }
        proof {
            if has_unref(self.peers_view(), peer_id@) {
                let w = unref_index_of(self.peers_view(), peer_id@);
                assert(self.peers_view()[w].0 != peer_id@);
            }
        }
        None
    }

    /// Removing the entry at `i` leaves every other key's entry
    /// unchanged.
    proof fn lemma_remove_unref_other(
        s: Seq<(PairView, UnreferencedPeerView)>,
        i: int,
        k: PairView,
    )
        requires
            forall|a: int, b: int| 0 <= a < b < s.len() ==> s[a].0 != s[b].0,
            0 <= i < s.len(),
            k != s[i].0,
        ensures
            has_unref(s.remove(i), k) == has_unref(s, k),
            has_unref(s, k) ==> unref_at(s.remove(i), k) == unref_at(s, k),
    {
        let t = s.remove(i);
        s.remove_ensures(i);
        if has_unref(s, k) {
            let w = unref_index_of(s, k);
            assert(s[w].0 == k);
            assert(w != i);
            if w < i {
                assert(t[w].0 == k);
            } else {
                assert(t[w - 1].0 == k);
            }
            assert(has_unref(t, k));
            let w2 = unref_index_of(t, k);
            let w2s = if w2 < i {
                w2
            } else {
                w2 + 1
            };
            assert(s[w2s].0 == k);
            if w2s != w {
                assert(s[w2s].0 == s[w].0);
            }
            assert(unref_at(t, k) == unref_at(s, k));
        } else {
            if has_unref(t, k) {
                let w2 = unref_index_of(t, k);
                let w2s = if w2 < i {
                    w2
                } else {
                    w2 + 1
                };
                assert(s[w2s].0 == k);
            }
        }
    }

    /// The keys of all unreferenced peers, in table order.
    pub fn peer_keys(&self) -> (r: Vec<PeerTokenPair>)
        ensures
            r@.len() == self.peers_view().len(),
            forall|i: int| 0 <= i < r@.len() ==> r@[i]@ == self.peers_view()[i].0,
    {
        let n = self.peers.len();
        let mut i: usize = 0;
        let mut out: Vec<PeerTokenPair> = Vec::new();
        while i < n
            invariant
                0 <= i <= n,
                n == self.peers@.len(),
                out@.len() == i,
                forall|j: int| 0 <= j < i ==> out@[j]@ == self.peers_view()[j].0,
            decreases n - i,
        {
            out.push(self.peers[i].0.clone());
            i = i + 1;
        }
        out
    }

    /// The first unreferenced peer using connection id `connection_id`,
    /// with its key.
    pub fn get_by_connection_id(&self, connection_id: &String) -> (r: Option<
        (PeerTokenPair, UnreferencedPeer),
    >)
        ensures
            match r {
                Some(e) => has_unref_conn(self.peers_view(), connection_id@) && (e.0@, e.1@)
                    == unref_conn_at(self.peers_view(), connection_id@),
                None => !has_unref_conn(self.peers_view(), connection_id@),
            },
    {
        let ghost pred = unref_conn_pred(connection_id@);
        let n = self.peers.len();
        let mut i: usize = 0;
        while i < n
            invariant
                0 <= i <= n,
                n == self.peers@.len(),
                pred == unref_conn_pred(connection_id@),
                forall|j: int| 0 <= j < i ==> !pred(self.peers_view()[j]),
            decreases n - i,
        {
            if self.peers[i].1.connection_id == *connection_id {
                proof {
                    assert(pred(self.peers_view()[i as int]));
                    crate::model::lemma_first_index_at(self.peers_view(), pred, i as int);
                }
                let key = self.peers[i].0.clone();
                let peer = self.peers[i].1.clone();
                return Some((key, peer));
            }
            i = i + 1;
        }
        proof {
            if has_unref_conn(self.peers_view(), connection_id@) {
                let w = choose|w: int|
                    0 <= w < self.peers_view().len() && pred(self.peers_view()[w]);
                assert(!pred(self.peers_view()[w]));
            }
        }
        None
    }

    /// True when `endpoint` has an outstanding by-endpoint request.
    pub fn has_requested_endpoint(&self, endpoint: &String) -> (r: bool)
        ensures
            r == has_req(self.reqs_view(), endpoint@),
    {
        let n = self.requested_endpoints.len();
        let mut i: usize = 0;
        while i < n
            invariant
                0 <= i <= n,
                n == self.requested_endpoints@.len(),
                forall|j: int| 0 <= j < i ==> self.reqs_view()[j].endpoint != endpoint@,
            decreases n - i,
        {
            if self.requested_endpoints[i].endpoint == *endpoint {
                proof {
                    assert(self.reqs_view()[i as int].endpoint == endpoint@);
                }
                return true;
            }
            i = i + 1;
        }
        proof {
            if has_req(self.reqs_view(), endpoint@) {
                let w = req_index_of(self.reqs_view(), endpoint@);
                assert(self.reqs_view()[w].endpoint != endpoint@);
            }
        }
        false
    }

    /// Looks up the by-endpoint request for `endpoint`.
    pub fn get_requested_endpoint(&self, endpoint: &String) -> (r: Option<&RequestedEndpoint>)
        requires
            self.wf(),
        ensures
            match r {
                Some(req) => has_req(self.reqs_view(), endpoint@) && req@ == req_at(
                    self.reqs_view(),
                    endpoint@,
                ),
                None => !has_req(self.reqs_view(), endpoint@),
            },
    {
        let n = self.requested_endpoints.len();
        let mut i: usize = 0;
        while i < n
            invariant
                self.wf(),
                0 <= i <= n,
                n == self.requested_endpoints@.len(),
                forall|j: int| 0 <= j < i ==> self.reqs_view()[j].endpoint != endpoint@,
            decreases n - i,
        {
            if self.requested_endpoints[i].endpoint == *endpoint {
                proof {
                    assert(self.reqs_view()[i as int].endpoint == endpoint@);
                    assert(has_req(self.reqs_view(), endpoint@));
                    let w = req_index_of(self.reqs_view(), endpoint@);
                    if w != i {
                        assert(self.reqs_view()[w].endpoint == self.reqs_view()[i as int].endpoint);
                    }
                }
                return Some(&self.requested_endpoints[i]);
            }
            i = i + 1;
        }
        proof {
            if has_req(self.reqs_view(), endpoint@) {
                let w = req_index_of(self.reqs_view(), endpoint@);
                assert(self.reqs_view()[w].endpoint != endpoint@);
            }
        }
        None
    }

    /// Records a by-endpoint request, replacing any previous request for
    /// the same endpoint.
    pub fn insert_requested_endpoint(&mut self, req: RequestedEndpoint)
        requires
            old(self).wf(),
        ensures
            final(self).wf(),
            final(self).peers_view() == old(self).peers_view(),
            final(self).last_connection_attempt == old(self).last_connection_attempt,
            final(self).retry_frequency == old(self).retry_frequency,
            has_req(old(self).reqs_view(), req@.endpoint) ==> final(self).reqs_view() == old(
                self,
            ).reqs_view().update(req_index_of(old(self).reqs_view(), req@.endpoint), req@),
            !has_req(old(self).reqs_view(), req@.endpoint) ==> final(self).reqs_view() == old(
                self,
            ).reqs_view().push(req@),
            has_req(final(self).reqs_view(), req@.endpoint),
    {
        let n = self.requested_endpoints.len();
        let mut i: usize = 0;
        while i < n
            invariant
                old(self).wf(),
                self == old(self),
                0 <= i <= n,
                n == self.requested_endpoints@.len(),
                forall|j: int| 0 <= j < i ==> self.reqs_view()[j].endpoint != req@.endpoint,
            decreases n - i,
        {
            if self.requested_endpoints[i].endpoint == req.endpoint {
                proof {
                    assert(self.reqs_view()[i as int].endpoint == req@.endpoint);
                    assert(has_req(self.reqs_view(), req@.endpoint));
                    let w = req_index_of(self.reqs_view(), req@.endpoint);
                    if w != i {
                        assert(self.reqs_view()[w].endpoint == self.reqs_view()[i as int].endpoint);
                    }
                }
                self.requested_endpoints.remove(i);
                self.requested_endpoints.insert(i, req);
                proof {
                    assert(self.peers_view() == old(self).peers_view());
                    let newv = self.reqs_view();
                    let oldv = old(self).reqs_view();
                    assert(newv =~= oldv.update(i as int, newv[i as int]));
                    assert(newv[i as int].endpoint == oldv[i as int].endpoint);
                    assert forall|a: int, b: int| 0 <= a < b < newv.len() implies newv[a].endpoint
                        != newv[b].endpoint by {
                        assert(oldv[a].endpoint != oldv[b].endpoint);
                    }
                }
                return ;
            }
            i = i + 1;
        }
        proof {
            if has_req(self.reqs_view(), req@.endpoint) {
                let w = req_index_of(self.reqs_view(), req@.endpoint);
                assert(self.reqs_view()[w].endpoint != req@.endpoint);
            }
        }
        self.requested_endpoints.push(req);
        proof {
            assert(self.peers_view() == old(self).peers_view());
            let newv = self.reqs_view();
            let oldv = old(self).reqs_view();
            assert(newv =~= oldv.push(newv[oldv.len() as int]));
            let nn = oldv.len() as int;
            assert forall|a: int, b: int| 0 <= a < b < newv.len() implies newv[a].endpoint
                != newv[b].endpoint by {
                if b < nn {
                    assert(oldv[a].endpoint != oldv[b].endpoint);
                } else {
                    if newv[a].endpoint == newv[b].endpoint {
                        assert(has_req(oldv, newv[nn].endpoint));
                    }
                }
            }
        }
    }

    /// A copy of the by-endpoint requests, in table order.
    pub fn requested_endpoints_list(&self) -> (r: Vec<RequestedEndpoint>)
        ensures
            r@.len() == self.reqs_view().len(),
            forall|i: int| 0 <= i < r@.len() ==> r@[i]@ == self.reqs_view()[i],
    {
        let n = self.requested_endpoints.len();
        let mut i: usize = 0;
        let mut out: Vec<RequestedEndpoint> = Vec::new();
        while i < n
            invariant
                0 <= i <= n,
                n == self.requested_endpoints@.len(),
                out@.len() == i,
                forall|j: int| 0 <= j < i ==> out@[j]@ == self.reqs_view()[j],
            decreases n - i,
        {
            out.push(self.requested_endpoints[i].clone());
            i = i + 1;
        }
        out
    }
}

} // verus!

//! The peer map: the authoritative table of peer metadata.
//!
//! One record per logical peer, keyed by its token pair.  The map is
//! consulted by key, by connection id, and by endpoint; all contracts are
//! stated over the sequence of record views.

use vstd::prelude::*;

use crate::model::{first_index, has_match};
use crate::token::{PairView, PeerAuthorizationToken, PeerTokenPair, TokenView};

verus! {

/// The lifecycle status of a peer.
#[derive(Clone, Copy, Debug, PartialEq, Eq, Structural)]
pub enum PeerStatus {
    /// A connection has been requested but none is established yet.
    Pending,
    /// The peer's connection is established and authorized.
    Connected,
    /// The peer's connection was lost; the connection manager retries it.
    Disconnected { retry_attempts: u64 },
}

/// The mathematical value of a [`PeerMetadata`] record.
pub struct PeerMetadataView {
    pub id: TokenView,
    pub connection_id: Seq<char>,
    pub endpoints: Seq<Seq<char>>,
    pub active_endpoint: Seq<char>,
    pub status: PeerStatus,
    pub last_connection_attempt: u64,
    pub retry_frequency: u64,
    pub required_local_auth: TokenView,
    pub old_connection_ids: Seq<Seq<char>>,
}

impl PeerMetadataView {
    /// The peer's unique key.
    pub open spec fn key(self) -> PairView {
        PairView { remote: self.id, local: self.required_local_auth }
    }
}

/// Everything the manager keeps about one peer.
#[derive(Debug)]
pub struct PeerMetadata {
    /// The remote peer's token.
    pub id: PeerAuthorizationToken,
    /// The id of the current physical connection.
    pub connection_id: String,
    /// The configured candidate endpoints, in preference order.
    pub endpoints: Vec<String>,
    /// The endpoint the current connection uses.
    pub active_endpoint: String,
    pub status: PeerStatus,
    /// When a connection was last attempted, in seconds of monotonic time.
    pub last_connection_attempt: u64,
    /// The current backoff between retry sweeps, in seconds.
    pub retry_frequency: u64,
    /// The local token this node authorizes as for this peer.
    pub required_local_auth: PeerAuthorizationToken,
    /// Ids of superseded connections that may still produce trailing
    /// notifications.
    pub old_connection_ids: Vec<String>,
}

impl View for PeerMetadata {
    type V = PeerMetadataView;

    open spec fn view(&self) -> PeerMetadataView {
        PeerMetadataView {
            id: self.id@,
            connection_id: self.connection_id@,
            endpoints: self.endpoints.deep_view(),
            active_endpoint: self.active_endpoint@,
            status: self.status,
            last_connection_attempt: self.last_connection_attempt,
            retry_frequency: self.retry_frequency,
            required_local_auth: self.required_local_auth@,
            old_connection_ids: self.old_connection_ids.deep_view(),
        }
    }
}

/// Clones a vector of strings, preserving its contents.
pub fn clone_string_vec(v: &Vec<String>) -> (r: Vec<String>)
    ensures
        r@ == v@,
        r.deep_view() == v.deep_view(),
{
    let r = v.clone();
    proof {
        assert forall|i: int| 0 <= i < v@.len() implies r@[i] == v@[i] by {
            assert(vstd::pervasive::cloned::<String>(v@[i], r@[i]));
        }
        assert(v@ =~= r@);
    }
    r
}

impl Clone for PeerMetadata {
    /// Cloning preserves the record's value.
    fn clone(&self) -> (r: Self)
        ensures
            r@ == self@,
    {
        PeerMetadata {
            id: self.id.clone(),
            connection_id: self.connection_id.clone(),
            endpoints: clone_string_vec(&self.endpoints),
            active_endpoint: self.active_endpoint.clone(),
            status: self.status,
            last_connection_attempt: self.last_connection_attempt,
            retry_frequency: self.retry_frequency,
            required_local_auth: self.required_local_auth.clone(),
            old_connection_ids: clone_string_vec(&self.old_connection_ids),
        }
    }
}

/// True when `s` holds a record for key `k`.
pub open spec fn has_peer(s: Seq<PeerMetadataView>, k: PairView) -> bool {
    exists|i: int| 0 <= i < s.len() && s[i].key() == k
}

/// The index of the record for `k` (under distinct keys, the only one).
pub open spec fn peer_index_of(s: Seq<PeerMetadataView>, k: PairView) -> int {
    choose|i: int| 0 <= i < s.len() && s[i].key() == k
}

/// The record for `k` (meaningful when `has_peer(s, k)` holds).
pub open spec fn peer_at(s: Seq<PeerMetadataView>, k: PairView) -> PeerMetadataView {
    s[peer_index_of(s, k)]
}

/// The predicate "this record's connection id is `cid`".
pub open spec fn conn_id_is(cid: Seq<char>) -> spec_fn(PeerMetadataView) -> bool {
    |m: PeerMetadataView| m.connection_id == cid
}

/// True when some record's connection id is `cid`.
pub open spec fn has_conn(s: Seq<PeerMetadataView>, cid: Seq<char>) -> bool {
    has_match(s, conn_id_is(cid))
}

/// The index of the first record whose connection id is `cid`.
pub open spec fn conn_index_of(s: Seq<PeerMetadataView>, cid: Seq<char>) -> int {
    first_index(s, conn_id_is(cid))
}

/// The first record whose connection id is `cid`.
pub open spec fn conn_at(s: Seq<PeerMetadataView>, cid: Seq<char>) -> PeerMetadataView {
    s[conn_index_of(s, cid)]
}

/// True when endpoint `e` is one of `m`'s configured endpoints.
pub open spec fn claims_endpoint(m: PeerMetadataView, e: Seq<char>) -> bool {
    m.endpoints.contains(e)
}

/// The predicate "this record claims endpoint `e`".
pub open spec fn endpoint_pred(e: Seq<char>) -> spec_fn(PeerMetadataView) -> bool {
    |m: PeerMetadataView| claims_endpoint(m, e)
}

/// True when some record claims endpoint `e`.
pub open spec fn endpoint_claimed(s: Seq<PeerMetadataView>, e: Seq<char>) -> bool {
    has_match(s, endpoint_pred(e))
}

/// The predicate "this record is pending".
pub open spec fn pending_pred() -> spec_fn(PeerMetadataView) -> bool {
    |m: PeerMetadataView| m.status is Pending
}

/// Records have pairwise distinct keys.
pub open spec fn peers_distinct(s: Seq<PeerMetadataView>) -> bool {
    forall|i: int, j: int| 0 <= i < j < s.len() ==> s[i].key() != s[j].key()
}

/// The views of a sequence of records.
pub open spec fn metas_view(s: Seq<PeerMetadata>) -> Seq<PeerMetadataView> {
    s.map_values(|p: PeerMetadata| p@)
}

/// Tests whether `v` contains the string `s`.
pub fn string_vec_contains(v: &Vec<String>, s: &String) -> (r: bool)
    ensures
        r == v.deep_view().contains(s@),
{
    let n = v.len();
    let mut i: usize = 0;
    while i < n
        invariant
            0 <= i <= n,
            n == v@.len(),
            forall|j: int| 0 <= j < i ==> v@[j]@ != s@,
        decreases n - i,
    {
        if v[i] == *s {
            proof {
                assert(v.deep_view()[i as int] == v@[i as int]@);
            }
            return true;
        }
        i = i + 1;
    }
    proof {
        if v.deep_view().contains(s@) {
            let w = choose|w: int| 0 <= w < v.deep_view().len() && v.deep_view()[w] == s@;
            assert(v@[w]@ == s@);
        }
    }
    false
}

/// The update to a peer that could not be applied.
#[derive(Debug)]
pub enum PeerUpdateError {
    /// The peer is not in the map.
    NotFound,
}

/// The table of established and pending peers, keyed by token pair.
pub struct PeerMap {
    pub peers: Vec<PeerMetadata>,
    /// The backoff assigned to newly inserted peers, in seconds.
    pub initial_retry_frequency: u64,
}

impl PeerMap {
    /// The records, as mathematical values.
    pub open spec fn view(&self) -> Seq<PeerMetadataView> {
        metas_view(self.peers@)
    }

    pub open spec fn wf(&self) -> bool {
        peers_distinct(self@)
    }

    pub fn new(retry_frequency: u64) -> (r: Self)
        ensures
            r@ == Seq::<PeerMetadataView>::empty(),
            r.wf(),
            r.initial_retry_frequency == retry_frequency,
    {
        let r = PeerMap { peers: Vec::new(), initial_retry_frequency: retry_frequency };
        proof {
            assert(r@ =~= Seq::<PeerMetadataView>::empty());
        }
        r
    }

    /// Inserts a record for a peer that is not yet in the map.  The new
    /// record starts with the map's initial retry frequency and `now` as
    /// its last connection attempt.
    pub fn insert(
        &mut self,
        peer_id: PeerAuthorizationToken,
        connection_id: String,
        endpoints: Vec<String>,
        active_endpoint: String,
        status: PeerStatus,
        required_local_auth: PeerAuthorizationToken,
        old_connection_ids: Vec<String>,
        now: u64,
    )
        requires
            old(self).wf(),
            !has_peer(old(self)@, (PairView { remote: peer_id@, local: required_local_auth@ })),
        ensures
            final(self).wf(),
            final(self)@ == old(self)@.push(
                (PeerMetadataView {
                    id: peer_id@,
                    connection_id: connection_id@,
                    endpoints: endpoints.deep_view(),
                    active_endpoint: active_endpoint@,
                    status: status,
                    last_connection_attempt: now,
                    retry_frequency: old(self).initial_retry_frequency,
                    required_local_auth: required_local_auth@,
                    old_connection_ids: old_connection_ids.deep_view(),
                }),
            ),
            final(self).initial_retry_frequency == old(self).initial_retry_frequency,
    {
        let meta = PeerMetadata {
            id: peer_id,
            connection_id,
            endpoints,
            active_endpoint,
            status,
            last_connection_attempt: now,
            retry_frequency: self.initial_retry_frequency,
            required_local_auth,
            old_connection_ids,
        };
        self.peers.push(meta);
        proof {
            assert(self@ =~= old(self)@.push(self@[old(self)@.len() as int]));
            let newv = self@;
            let oldv = old(self)@;
            let n = oldv.len() as int;
            assert forall|i: int, j: int| 0 <= i < j < newv.len() implies newv[i].key()
                != newv[j].key() by {
                if j < n {
                    assert(oldv[i].key() != oldv[j].key());
                } else {
                    if newv[i].key() == newv[j].key() {
                        assert(oldv[i].key() == newv[n].key());
                        assert(has_peer(oldv, newv[n].key()));
                    }
                }
            }
        }
    }

    /// Looks a peer up by key.
    pub fn get_by_peer_id(&self, peer_id: &PeerTokenPair) -> (r: Option<&PeerMetadata>)
        requires
            self.wf(),
        ensures
            match r {
                Some(m) => has_peer(self@, peer_id@) && m@ == peer_at(self@, peer_id@),
                None => !has_peer(self@, peer_id@),
            },
    {
        let n = self.peers.len();
        let mut i: usize = 0;
        while i < n
            invariant
                self.wf(),
                0 <= i <= n,
                n == self.peers@.len(),
                forall|j: int| 0 <= j < i ==> self@[j].key() != peer_id@,
            decreases n - i,
        {
            if self.peers[i].id == *peer_id.peer_id() && self.peers[i].required_local_auth
                == *peer_id.local_id() {
                proof {
                    assert(self@[i as int].key() == peer_id@);
                    assert(has_peer(self@, peer_id@));
                    let w = peer_index_of(self@, peer_id@);
                    if w != i {
                        assert(self@[w].key() == self@[i as int].key());
                    }
                }
                return Some(&self.peers[i]);
            }
            i = i + 1;
        }
        proof {
            if has_peer(self@, peer_id@) {
                let w = peer_index_of(self@, peer_id@);
                assert(self@[w].key() != peer_id@);
            }
        }
        None
    }

    /// Replaces the record whose key equals `peer_metadata`'s key.
    pub fn update_peer(&mut self, peer_metadata: PeerMetadata) -> (r: Result<(), PeerUpdateError>)
        requires
            old(self).wf(),
        ensures
            final(self).wf(),
            final(self).initial_retry_frequency == old(self).initial_retry_frequency,
            has_peer(old(self)@, peer_metadata@.key()) ==> (r matches Ok(())
                && final(self)@ == old(self)@.update(
                peer_index_of(old(self)@, peer_metadata@.key()),
                peer_metadata@,
            )),
            !has_peer(old(self)@, peer_metadata@.key()) ==> (r matches Err(
                PeerUpdateError::NotFound,
            ) && final(self)@ == old(self)@),
    {
        let n = self.peers.len();
        let mut i: usize = 0;
        while i < n
            invariant
                old(self).wf(),
                self == old(self),
                0 <= i <= n,
                n == self.peers@.len(),
                forall|j: int| 0 <= j < i ==> self@[j].key() != peer_metadata@.key(),
            decreases n - i,
        {
            if self.peers[i].id == peer_metadata.id && self.peers[i].required_local_auth
                == peer_metadata.required_local_auth {
                proof {
                    assert(self@[i as int].key() == peer_metadata@.key());
                    assert(has_peer(self@, peer_metadata@.key()));
                    let w = peer_index_of(self@, peer_metadata@.key());
                    if w != i {
                        assert(self@[w].key() == self@[i as int].key());
                    }
                }
                self.peers[i] = peer_metadata;
                proof {
                    let newv = self@;
                    let oldv = old(self)@;
                    assert(newv =~= oldv.update(i as int, newv[i as int]));
                    assert forall|a: int, b: int| 0 <= a < b < newv.len() implies newv[a].key()
                        != newv[b].key() by {
                        if a != i && b != i {
                            assert(oldv[a].key() != oldv[b].key());
                        } else if a == i {
                            assert(oldv[i as int].key() == newv[i as int].key());
                            assert(oldv[a].key() != oldv[b].key());
                        } else {
                            assert(oldv[i as int].key() == newv[i as int].key());
                            assert(oldv[a].key() != oldv[b].key());
                        }
                    }
                }
                return Ok(());
            }
            i = i + 1;
        }
        proof {
            if has_peer(self@, peer_metadata@.key()) {
                let w = peer_index_of(self@, peer_metadata@.key());
                assert(self@[w].key() != peer_metadata@.key());
            }
        }
        Err(PeerUpdateError::NotFound)
    }

    /// Removes and returns the record for `peer_id`, if any.
    pub fn remove(&mut self, peer_id: &PeerTokenPair) -> (r: Option<PeerMetadata>)
        requires
            old(self).wf(),
        ensures
            final(self).wf(),
            final(self).initial_retry_frequency == old(self).initial_retry_frequency,
            has_peer(old(self)@, peer_id@) ==> (r matches Some(m) && m@ == peer_at(
                old(self)@,
                peer_id@,
            ) && final(self)@ == old(self)@.remove(peer_index_of(old(self)@, peer_id@))
                && !has_peer(final(self)@, peer_id@)),
            !has_peer(old(self)@, peer_id@) ==> (r matches None && final(self)@ == old(self)@),
            forall|k: PairView|
                k != peer_id@ ==> has_peer(final(self)@, k) == has_peer(old(self)@, k),
            forall|k: PairView|
                k != peer_id@ && has_peer(old(self)@, k) ==> peer_at(final(self)@, k) == peer_at(
                    old(self)@,
                    k,
                ),
    {
        let n = self.peers.len();
        let mut i: usize = 0;
        while i < n
            invariant
                old(self).wf(),
                self == old(self),
                0 <= i <= n,
                n == self.peers@.len(),
                forall|j: int| 0 <= j < i ==> self@[j].key() != peer_id@,
            decreases n - i,
        {
            if self.peers[i].id == *peer_id.peer_id() && self.peers[i].required_local_auth
                == *peer_id.local_id() {
                proof {
                    assert(self@[i as int].key() == peer_id@);
                    assert(has_peer(self@, peer_id@));
                    let w = peer_index_of(self@, peer_id@);
                    if w != i {
                        assert(self@[w].key() == self@[i as int].key());
                    }
                }
                let m = self.peers.remove(i);
                proof {
                    let newv = self@;
                    let oldv = old(self)@;
                    assert(newv =~= oldv.remove(i as int));
                    oldv.remove_ensures(i as int);
                    assert forall|a: int, b: int| 0 <= a < b < newv.len() implies newv[a].key()
                        != newv[b].key() by {
                        let asrc = if a < i {
                            a
                        } else {
                            a + 1
                        };
                        let bsrc = if b < i {
                            b
                        } else {
                            b + 1
                        };
                        assert(oldv[asrc].key() != oldv[bsrc].key());
                    }
                    if has_peer(newv, peer_id@) {
                        let w = peer_index_of(newv, peer_id@);
                        let wsrc = if w < i {
                            w
                        } else {
                            w + 1
                        };
                        assert(oldv[wsrc].key() == peer_id@);
                        assert(false);
                    }
                    assert forall|k: PairView| k != peer_id@ implies has_peer(newv, k) == has_peer(
                        oldv,
                        k,
                    ) by {
                        Self::lemma_remove_key_other(oldv, i as int, k);
                    }
                    assert forall|k: PairView| k != peer_id@ && has_peer(oldv, k) implies peer_at(
                        newv,
                        k,
                    ) == peer_at(oldv, k) by {
                        Self::lemma_remove_key_other(oldv, i as int, k);
                    }
                }
                return Some(m);
            }
            i = i + 1;
        }
        proof {
            if has_peer(self@, peer_id@) {
                let w = peer_index_of(self@, peer_id@);
                assert(self@[w].key() != peer_id@);
            }
        }
        None
    }

    /// Removing the record at `i` leaves every other key's record
    /// unchanged.
    proof fn lemma_remove_key_other(s: Seq<PeerMetadataView>, i: int, k: PairView)
        requires
            peers_distinct(s),
            0 <= i < s.len(),
            k != s[i].key(),
        ensures
            has_peer(s.remove(i), k) == has_peer(s, k),
            has_peer(s, k) ==> peer_at(s.remove(i), k) == peer_at(s, k),
    {
        let t = s.remove(i);
        s.remove_ensures(i);
        if has_peer(s, k) {
            let w = peer_index_of(s, k);
            assert(s[w].key() == k);
            assert(w != i);
            if w < i {
                assert(t[w].key() == k);
            } else {
                assert(t[w - 1].key() == k);
            }
            assert(has_peer(t, k));
            let w2 = peer_index_of(t, k);
            let w2s = if w2 < i {
                w2
            } else {
                w2 + 1
            };
            assert(s[w2s].key() == k);
            if w2s != w {
                assert(s[w2s].key() == s[w].key());
            }
            assert(peer_at(t, k) == peer_at(s, k));
        } else {
            if has_peer(t, k) {
                let w2 = peer_index_of(t, k);
                let w2s = if w2 < i {
                    w2
                } else {
                    w2 + 1
                };
                assert(s[w2s].key() == k);
            }
        }
    }

    /// Looks up the first record using connection id `connection_id`.
    pub fn get_by_connection_id(&self, connection_id: &String) -> (r: Option<&PeerMetadata>)
        ensures
            match r {
                Some(m) => has_conn(self@, connection_id@) && m@ == conn_at(self@, connection_id@),
                None => !has_conn(self@, connection_id@),
            },
    {
        let ghost pred = conn_id_is(connection_id@);
        let n = self.peers.len();
        let mut i: usize = 0;
        while i < n
            invariant
                0 <= i <= n,
                n == self.peers@.len(),
                pred == conn_id_is(connection_id@),
                forall|j: int| 0 <= j < i ==> !pred(self@[j]),
            decreases n - i,
        {
            if self.peers[i].connection_id == *connection_id {
                proof {
                    assert(pred(self@[i as int]));
                    crate::model::lemma_first_index_at(self@, pred, i as int);
                }
                return Some(&self.peers[i]);
            }
            i = i + 1;
        }
        proof {
            if has_conn(self@, connection_id@) {
                let w = choose|w: int| 0 <= w < self@.len() && pred(self@[w]);
                assert(!pred(self@[w]));
            }
        }
        None
    }

    /// All records that claim `endpoint` among their configured
    /// endpoints.  Returns `None` when no record does.
    pub fn get_peer_from_endpoint(&self, endpoint: &String) -> (r: Option<Vec<PeerMetadata>>)
        ensures
            match r {
                Some(v) => endpoint_claimed(self@, endpoint@) && metas_view(v@) == self@.filter(
                    endpoint_pred(endpoint@),
                ),
                None => !endpoint_claimed(self@, endpoint@),
            },
    {
        let ghost pred = endpoint_pred(endpoint@);
        let n = self.peers.len();
        let mut i: usize = 0;
        let mut out: Vec<PeerMetadata> = Vec::new();
        proof {
            assert(self@.take(0).filter(pred) =~= Seq::<PeerMetadataView>::empty()) by {
                reveal(Seq::filter);
            }
            assert(metas_view(out@) =~= Seq::<PeerMetadataView>::empty());
        }
        while i < n
            invariant
                0 <= i <= n,
                n == self.peers@.len(),
                pred == endpoint_pred(endpoint@),
                metas_view(out@) == self@.take(i as int).filter(pred),
            decreases n - i,
        {
            proof {
                reveal(Seq::filter);
                assert(self@.take(i as int + 1).drop_last() =~= self@.take(i as int));
                assert(self@.take(i as int + 1).last() == self@[i as int]);
            }
            if string_vec_contains(&self.peers[i].endpoints, endpoint) {
                let m = self.peers[i].clone();
                out.push(m);
                proof {
                    assert(metas_view(out@) =~= self@.take(i as int + 1).filter(pred));
                }
            } else {
                proof {
                    assert(!pred(self@[i as int]));
                }
            }
            i = i + 1;
        }
        proof {
            assert(self@.take(n as int) =~= self@);
        }
        if out.len() == 0 {
            proof {
                if endpoint_claimed(self@, endpoint@) {
                    let w = choose|w: int| 0 <= w < self@.len() && pred(self@[w]);
                    broadcast use vstd::seq_lib::group_filter_ensures;

                    assert(self@.filter(pred).contains(self@[w]));
                }
            }
            None
        } else {
            proof {
                assert(pred(self@.filter(pred)[0])) by {
                    broadcast use vstd::seq_lib::group_filter_ensures;

                }
                let m0 = self@.filter(pred)[0];
                assert(self@.filter(pred).contains(m0));
                self@.lemma_filter_contains_rev(pred, m0);
                let w = choose|w: int| 0 <= w < self@.len() && self@[w] == m0;
                assert(pred(self@[w]));
            }
            Some(out)
        }
    }

    /// True when some record claims `endpoint`.
    pub fn contains_endpoint(&self, endpoint: &String) -> (r: bool)
        ensures
            r == endpoint_claimed(self@, endpoint@),
    {
        let ghost pred = endpoint_pred(endpoint@);
        let n = self.peers.len();
        let mut i: usize = 0;
        while i < n
            invariant
                0 <= i <= n,
                n == self.peers@.len(),
                pred == endpoint_pred(endpoint@),
                forall|j: int| 0 <= j < i ==> !pred(self@[j]),
            decreases n - i,
        {
            if string_vec_contains(&self.peers[i].endpoints, endpoint) {
                proof {
                    assert(pred(self@[i as int]));
                }
                return true;
            }
            i = i + 1;
        }
        proof {
            if endpoint_claimed(self@, endpoint@) {
                let w = choose|w: int| 0 <= w < self@.len() && pred(self@[w]);
                assert(!pred(self@[w]));
            }
        }
        false
    }

    /// The remote tokens of all peers, in map order.
    pub fn peer_ids(&self) -> (r: Vec<PeerAuthorizationToken>)
        ensures
            r@.len() == self@.len(),
            forall|i: int| 0 <= i < r@.len() ==> r@[i]@ == self@[i].id,
    {
        let n = self.peers.len();
        let mut i: usize = 0;
        let mut out: Vec<PeerAuthorizationToken> = Vec::new();
        while i < n
            invariant
                0 <= i <= n,
                n == self.peers@.len(),
                out@.len() == i,
                forall|j: int| 0 <= j < i ==> out@[j]@ == self@[j].id,
            decreases n - i,
        {
            out.push(self.peers[i].id.clone());
            i = i + 1;
        }
        out
    }

    /// The pairing of each peer's key with its connection id.
    pub fn connection_ids(&self) -> (r: ConnectionIdMap)
        ensures
            r@.len() == self@.len(),
            forall|i: int|
                0 <= i < r@.len() ==> r@[i].0 == self@[i].key() && r@[i].1
                    == self@[i].connection_id,
    {
        let n = self.peers.len();
        let mut i: usize = 0;
        let mut entries: Vec<(PeerTokenPair, String)> = Vec::new();
        while i < n
            invariant
                0 <= i <= n,
                n == self.peers@.len(),
                entries@.len() == i,
                forall|j: int|
                    0 <= j < i ==> entries@[j].0@ == self@[j].key() && entries@[j].1@
                        == self@[j].connection_id,
            decreases n - i,
        {
            let key = PeerTokenPair::new(
                self.peers[i].id.clone(),
                self.peers[i].required_local_auth.clone(),
            );
            let cid = self.peers[i].connection_id.clone();
            entries.push((key, cid));
            i = i + 1;
        }
        ConnectionIdMap { entries }
    }

    /// The records of all pending peers, in map order.
    pub fn get_pending(&self) -> (r: Vec<PeerMetadata>)
        ensures
            metas_view(r@) == self@.filter(pending_pred()),
    {
        let ghost pred = pending_pred();
        let n = self.peers.len();
        let mut i: usize = 0;
        let mut out: Vec<PeerMetadata> = Vec::new();
        proof {
            assert(self@.take(0).filter(pred) =~= Seq::<PeerMetadataView>::empty()) by {
                reveal(Seq::filter);
            }
            assert(metas_view(out@) =~= Seq::<PeerMetadataView>::empty());
        }
        while i < n
            invariant
                0 <= i <= n,
                n == self.peers@.len(),
                pred == pending_pred(),
                metas_view(out@) == self@.take(i as int).filter(pred),
            decreases n - i,
        {
            proof {
                reveal(Seq::filter);
                assert(self@.take(i as int + 1).drop_last() =~= self@.take(i as int));
                assert(self@.take(i as int + 1).last() == self@[i as int]);
            }
            let is_pending = match self.peers[i].status {
                PeerStatus::Pending => true,
                _ => false,
            };
            if is_pending {
                let m = self.peers[i].clone();
                out.push(m);
                proof {
                    assert(metas_view(out@) =~= self@.take(i as int + 1).filter(pred));
                }
            } else {
                proof {
                    assert(!pred(self@[i as int]));
                }
            }
            i = i + 1;
        }
        proof {
            assert(self@.take(n as int) =~= self@);
        }
        out
    }
}

/// The two-way pairing of peer keys and connection ids, as handed out by
/// [`PeerMap::connection_ids`].
pub struct ConnectionIdMap {
    pub entries: Vec<(PeerTokenPair, String)>,
}

impl ConnectionIdMap {
    /// The entries, as mathematical values.
    pub open spec fn view(&self) -> Seq<(PairView, Seq<char>)> {
        self.entries@.map_values(|e: (PeerTokenPair, String)| (e.0@, e.1@))
    }

    /// The connection id recorded for a peer key, if any.
    pub fn get_by_key(&self, key: &PeerTokenPair) -> (r: Option<&String>)
        ensures
            match r {
                Some(cid) => exists|i: int| 0 <= i < self@.len() && self@[i] == (key@, cid@),
                None => forall|i: int| 0 <= i < self@.len() ==> self@[i].0 != key@,
            },
    {
        let n = self.entries.len();
        let mut i: usize = 0;
        while i < n
            invariant
                0 <= i <= n,
                n == self.entries@.len(),
                forall|j: int| 0 <= j < i ==> self@[j].0 != key@,
            decreases n - i,
        {
            if self.entries[i].0 == *key {
                proof {
                    assert(self@[i as int] == (key@, self.entries@[i as int].1@));
                }
                return Some(&self.entries[i].1);
            }
            i = i + 1;
        }
        None
    }

    /// The peer key recorded for a connection id, if any.
    pub fn get_by_value(&self, connection_id: &String) -> (r: Option<&PeerTokenPair>)
        ensures
            match r {
                Some(key) => exists|i: int|
                    0 <= i < self@.len() && self@[i] == (key@, connection_id@),
                None => forall|i: int| 0 <= i < self@.len() ==> self@[i].1 != connection_id@,
            },
    {
        let n = self.entries.len();
        let mut i: usize = 0;
        while i < n
            invariant
                0 <= i <= n,
                n == self.entries@.len(),
                forall|j: int| 0 <= j < i ==> self@[j].1 != connection_id@,
            decreases n - i,
        {
            if self.entries[i].1 == *connection_id {
                proof {
                    assert(self@[i as int] == (self.entries@[i as int].0@, connection_id@));
                }
                return Some(&self.entries[i].0);
            }
            i = i + 1;
        }
        None
    }

    /// The number of entries.
    pub fn len(&self) -> (r: usize)
        ensures
            r == self@.len(),
    {
        self.entries.len()
    }
}

} // verus!

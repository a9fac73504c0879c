//! Peer identity tokens.
//!
//! A peer is identified by a [`PeerAuthorizationToken`]: either a `Trust`
//! identity (a plain name) or a `Challenge` identity (a public key).  The
//! ordered pair of a remote token and the required local token, a
//! [`PeerTokenPair`], is the unique key for a logical peer, because the
//! same remote identity can be peered with under different local
//! identities.
//!
//! A total order on tokens (by variant, then by the contained bytes) is
//! used as the tie-breaker when both sides of a pair of nodes connect to
//! each other at the same time.

use vstd::prelude::*;
use vstd::slice::slice_to_vec;
use vstd::utf8::encode_utf8;

verus! {

/// The mathematical value of a [`PeerAuthorizationToken`].
pub enum TokenView {
    Trust { name: Seq<char> },
    Challenge { key: Seq<u8> },
}

/// The mathematical value of a [`PeerTokenPair`].
pub struct PairView {
    pub remote: TokenView,
    pub local: TokenView,
}

/// Lexicographic order on byte sequences.
pub open spec fn bytes_lt(a: Seq<u8>, b: Seq<u8>) -> bool
    decreases a.len(),
{
    if b.len() == 0 {
        false
    } else if a.len() == 0 {
        true
    } else if a[0] < b[0] {
        true
    } else if a[0] > b[0] {
        false
    } else {
        bytes_lt(a.drop_first(), b.drop_first())
    }
}

/// The total order on tokens: `Trust` sorts before `Challenge`, and two
/// tokens of the same variant compare lexicographically on their bytes
/// (for `Trust` names, on the UTF-8 encoding of the name).
pub open spec fn token_lt(a: TokenView, b: TokenView) -> bool {
    match (a, b) {
        (TokenView::Trust { name: x }, TokenView::Trust { name: y }) => bytes_lt(
            encode_utf8(x),
            encode_utf8(y),
        ),
        (TokenView::Trust { .. }, TokenView::Challenge { .. }) => true,
        (TokenView::Challenge { .. }, TokenView::Trust { .. }) => false,
        (TokenView::Challenge { key: x }, TokenView::Challenge { key: y }) => bytes_lt(x, y),
    }
}

/// A peer identity: a trusted name or a challenge public key.
#[derive(Debug)]
pub enum PeerAuthorizationToken {
    Trust { peer_id: String },
    Challenge { public_key: Vec<u8> },
}

impl View for PeerAuthorizationToken {
    type V = TokenView;

    open spec fn view(&self) -> TokenView {
        match self {
            PeerAuthorizationToken::Trust { peer_id } => TokenView::Trust { name: peer_id@ },
            PeerAuthorizationToken::Challenge { public_key } => TokenView::Challenge {
                key: public_key@,
            },
        }
    }
}

impl PeerAuthorizationToken {
    /// Builds a `Trust` token from a peer name.
    pub fn from_peer_id(peer_id: &str) -> (r: Self)
        ensures
            r@ == (TokenView::Trust { name: peer_id@ }),
    {
        PeerAuthorizationToken::Trust { peer_id: peer_id.to_owned() }
    }

    /// Builds a `Challenge` token from a public key.
    pub fn from_public_key(public_key: &[u8]) -> (r: Self)
        ensures
            r@ == (TokenView::Challenge { key: public_key@ }),
    {
        PeerAuthorizationToken::Challenge { public_key: slice_to_vec(public_key) }
    }

    /// True when this token is a `Trust` identity.
    pub fn is_trust(&self) -> (r: bool)
        ensures
            r == (self@ is Trust),
    {
        match self {
            PeerAuthorizationToken::Trust { .. } => true,
            PeerAuthorizationToken::Challenge { .. } => false,
        }
    }
}

impl Clone for PeerAuthorizationToken {
    /// Cloning preserves the token's value.
    fn clone(&self) -> (r: Self)
        ensures
            r@ == self@,
    {
        match self {
            PeerAuthorizationToken::Trust { peer_id } => PeerAuthorizationToken::Trust {
                peer_id: peer_id.clone(),
            },
            PeerAuthorizationToken::Challenge { public_key } => {
                let key = clone_u8_vec(public_key);
                PeerAuthorizationToken::Challenge { public_key: key }
            },
        }
    }
}

impl PartialEq for PeerAuthorizationToken {
    fn eq(&self, other: &Self) -> (r: bool) {
        match (self, other) {
            (
                PeerAuthorizationToken::Trust { peer_id: a },
                PeerAuthorizationToken::Trust { peer_id: b },
            ) => {
                let r = (*a) == (*b);
                proof {
                    assert(self@ == (TokenView::Trust { name: a@ }));
                    assert(other@ == (TokenView::Trust { name: b@ }));
                }
                r
            },
            (
                PeerAuthorizationToken::Challenge { public_key: a },
                PeerAuthorizationToken::Challenge { public_key: b },
            ) => {
                let r = u8_vec_eq(a, b);
                proof {
                    assert(self@ == (TokenView::Challenge { key: a@ }));
                    assert(other@ == (TokenView::Challenge { key: b@ }));
                }
                r
            },
            _ => {
                proof {
                    assert((self@ is Trust && other@ is Challenge) || (self@ is Challenge
                        && other@ is Trust));
                }
                false
            },
        }
    }
}

impl vstd::std_specs::cmp::PartialEqSpecImpl for PeerAuthorizationToken {
    open spec fn obeys_eq_spec() -> bool {
        true
    }

    open spec fn eq_spec(&self, other: &Self) -> bool {
        self@ == other@
    }
}

/// Clones a byte vector, preserving its contents.
pub fn clone_u8_vec(v: &Vec<u8>) -> (r: Vec<u8>)
    ensures
        r@ == v@,
{
    let r = v.clone();
    proof {
        assert(r@ =~= v@);
    }
    r
}

/// Compares two byte vectors for equality of contents.
pub fn u8_vec_eq(a: &Vec<u8>, b: &Vec<u8>) -> (r: bool)
    ensures
        r == (a@ == b@),
{
    let r = a == b;
    proof {
        if r {
            assert(a@ =~= b@);
        } else {
            if a@ == b@ {
                assert(a.len() == b.len());
                assert(forall|i: int| 0 <= i < a.len() ==> a[i] == b[i]);
                assert(false);
            }
        }
    }
    r
}

/// Compares two byte slices in lexicographic order.
pub fn bytes_less(a: &[u8], b: &[u8]) -> (r: bool)
    ensures
        r == bytes_lt(a@, b@),
{
    let alen = a.len();
    let blen = b.len();
    let n = if alen < blen {
        alen
    } else {
        blen
    };
    let mut i: usize = 0;
    proof {
        assert(a@.skip(0) =~= a@);
        assert(b@.skip(0) =~= b@);
    }
    while i < n
        invariant
            0 <= i <= n,
            alen == a@.len(),
            blen == b@.len(),
            n == if alen < blen {
                alen
            } else {
                blen
            },
            bytes_lt(a@, b@) == bytes_lt(a@.skip(i as int), b@.skip(i as int)),
        decreases n - i,
    {
        let x = a[i];
        let y = b[i];
        proof {
            assert(a@.skip(i as int)[0] == a@[i as int]);
            assert(b@.skip(i as int)[0] == b@[i as int]);
        }
        if x < y {
            return true;
        }
        if x > y {
            return false;
        }
        proof {
            assert(a@.skip(i as int).drop_first() =~= a@.skip(i as int + 1));
            assert(b@.skip(i as int).drop_first() =~= b@.skip(i as int + 1));
        }
        i = i + 1;
    }
    proof {
        assert(a@.skip(i as int).len() == alen - n);
        assert(b@.skip(i as int).len() == blen - n);
    }
    alen < blen
}

/// Compares two tokens in the total token order.
pub fn token_is_less(a: &PeerAuthorizationToken, b: &PeerAuthorizationToken) -> (r: bool)
    ensures
        r == token_lt(a@, b@),
{
    match (a, b) {
        (
            PeerAuthorizationToken::Trust { peer_id: x },
            PeerAuthorizationToken::Trust { peer_id: y },
        ) => bytes_less(x.as_str().as_bytes(), y.as_str().as_bytes()),
        (
            PeerAuthorizationToken::Trust { .. },
            PeerAuthorizationToken::Challenge { .. },
        ) => true,
        (
            PeerAuthorizationToken::Challenge { .. },
            PeerAuthorizationToken::Trust { .. },
        ) => false,
        (
            PeerAuthorizationToken::Challenge { public_key: x },
            PeerAuthorizationToken::Challenge { public_key: y },
        ) => bytes_less(x.as_slice(), y.as_slice()),
    }
}

/// The ordered pair of a remote peer token and the required local token:
/// the unique key of a logical peer.
#[derive(Debug)]
pub struct PeerTokenPair {
    pub peer_id: PeerAuthorizationToken,
    pub local_id: PeerAuthorizationToken,
}

impl View for PeerTokenPair {
    type V = PairView;

    open spec fn view(&self) -> PairView {
        PairView { remote: self.peer_id@, local: self.local_id@ }
    }
}

impl PeerTokenPair {
    pub fn new(peer_id: PeerAuthorizationToken, local_id: PeerAuthorizationToken) -> (r: Self)
        ensures
            r@ == (PairView { remote: peer_id@, local: local_id@ }),
    {
        PeerTokenPair { peer_id, local_id }
    }

    /// The remote peer's token.
    pub fn peer_id(&self) -> (r: &PeerAuthorizationToken)
        ensures
            r@ == self@.remote,
    {
        &self.peer_id
    }

    /// The local token the peer is required to authorize as.
    pub fn local_id(&self) -> (r: &PeerAuthorizationToken)
        ensures
            r@ == self@.local,
    {
        &self.local_id
    }
}

impl Clone for PeerTokenPair {
    /// Cloning preserves the pair's value.
    fn clone(&self) -> (r: Self)
        ensures
            r@ == self@,
    {
        PeerTokenPair { peer_id: self.peer_id.clone(), local_id: self.local_id.clone() }
    }
}

impl PartialEq for PeerTokenPair {
    fn eq(&self, other: &Self) -> (r: bool) {
        self.peer_id == other.peer_id && self.local_id == other.local_id
    }
}

impl vstd::std_specs::cmp::PartialEqSpecImpl for PeerTokenPair {
    open spec fn obeys_eq_spec() -> bool {
        true
    }

    open spec fn eq_spec(&self, other: &Self) -> bool {
        self@ == other@
    }
}

} // verus!

//! The laws the peer manager obeys across transitions.
//!
//! Each message handler in [`crate::manager`] carries its own contract;
//! the proofs here state what holds across whole runs: the invariants
//! hold of the initial state (and are preserved by every handler, which
//! each handler's own `ensures` shows), and a peer whose references are
//! all dropped disappears from the peer map.

use vstd::prelude::*;

use crate::manager::{remove_peer_post, state_inv, trust_endpoints_distinct};
use crate::peer_map::{has_peer, PeerMetadataView};
use crate::ref_map::ref_count;
use crate::token::PairView;
use crate::unreferenced::UnreferencedPeerView;

verus! {

/// A freshly started manager — all tables empty — satisfies the state
/// invariant (every peer holds a reference, references belong to peers,
/// and no key is both a peer and an unreferenced peer) and the
/// trust-endpoint invariant (no endpoint is claimed by two distinct
/// `Trust` identities).  Every handler's contract preserves both, so
/// they hold after every message the actor processes.
pub proof fn lemma_initial_state_inv()
    ensures
        state_inv(
            Seq::<PeerMetadataView>::empty(),
            Seq::<(PairView, UnreferencedPeerView)>::empty(),
            Seq::<(PairView, u64)>::empty(),
        ),
        trust_endpoints_distinct(Seq::<PeerMetadataView>::empty()),
{
}

/// One step of dropping a reference to `k`: some reply together with
/// which the states satisfy the removal contract.
pub open spec fn remove_step(
    old_peers: Seq<PeerMetadataView>,
    old_refs: Seq<(PairView, u64)>,
    new_peers: Seq<PeerMetadataView>,
    new_refs: Seq<(PairView, u64)>,
    k: PairView,
) -> bool {
    exists|r: Result<(), crate::error::PeerRefRemoveError>|
        #[trigger] remove_peer_post(old_peers, old_refs, new_peers, new_refs, k, r)
}

/// Along a chain of removal steps the reference count of `k` falls by
/// exactly one per step.
proof fn lemma_counts_descend(
    peers_chain: Seq<Seq<PeerMetadataView>>,
    refs_chain: Seq<Seq<(PairView, u64)>>,
    k: PairView,
    n: int,
    i: int,
)
    requires
        peers_chain.len() == n + 1,
        refs_chain.len() == n + 1,
        0 <= i <= n,
        ref_count(refs_chain[0], k) == n,
        forall|j: int|
            0 <= j < n ==> #[trigger] remove_step(
                peers_chain[j],
                refs_chain[j],
                peers_chain[j + 1],
                refs_chain[j + 1],
                k,
            ),
    ensures
        ref_count(refs_chain[i], k) == n - i,
    decreases i,
{
    if i > 0 {
        lemma_counts_descend(peers_chain, refs_chain, k, n, i - 1);
        let j = i - 1;
        assert(remove_step(
            peers_chain[j],
            refs_chain[j],
            peers_chain[j + 1],
            refs_chain[j + 1],
            k,
        ));
        assert(peers_chain[j + 1] == peers_chain[i]);
        assert(refs_chain[j + 1] == refs_chain[i]);
        let r = choose|r: Result<(), crate::error::PeerRefRemoveError>|
            #[trigger] remove_peer_post(
                peers_chain[j],
                refs_chain[j],
                peers_chain[i],
                refs_chain[i],
                k,
                r,
            );
        assert(ref_count(refs_chain[j], k) == n - i + 1);
    }
}

/// Dropping every handle of a peer removes it from the peer map: when a
/// key holds `n` references and `n` successive steps each satisfy the
/// removal contract, the key holds no references afterwards and is no
/// longer a peer.  Together with the adding contract — each successful
/// `add_peer` call raises the key's count by exactly one — this says
/// that `n` added references followed by `n` drops leave the peer list
/// without the key.
pub proof fn lemma_drop_all_refs_removes_peer(
    peers_chain: Seq<Seq<PeerMetadataView>>,
    refs_chain: Seq<Seq<(PairView, u64)>>,
    k: PairView,
    n: int,
)
    requires
        n >= 1,
        peers_chain.len() == n + 1,
        refs_chain.len() == n + 1,
        ref_count(refs_chain[0], k) == n,
        forall|j: int|
            0 <= j < n ==> #[trigger] remove_step(
                peers_chain[j],
                refs_chain[j],
                peers_chain[j + 1],
                refs_chain[j + 1],
                k,
            ),
        forall|j: int|
            0 <= j <= n ==> (has_peer(peers_chain[j], k) ==> ref_count(refs_chain[j], k) >= 1),
    ensures
        ref_count(refs_chain[n], k) == 0,
        !has_peer(peers_chain[n], k),
{
    lemma_counts_descend(peers_chain, refs_chain, k, n, n);
    assert(ref_count(refs_chain[n], k) == 0);
    if has_peer(peers_chain[n], k) {
        assert(ref_count(refs_chain[n], k) >= 1);
    }
}

} // verus!

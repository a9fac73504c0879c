//! The peer reference map.
//!
//! Counts the outstanding handles per peer key.  `add_ref` increments a
//! peer's count (starting it at one), `remove_ref` decrements it and
//! reports when the last reference is gone — the signal for the manager
//! to drop the peer itself.

use vstd::prelude::*;

use crate::token::{PairView, PeerTokenPair};

verus! {

/// Removing a reference that does not exist.
#[derive(Debug)]
pub enum RefMapError {
    NotFound,
}

/// One reference-count entry.
pub open spec fn entry_view(e: (PeerTokenPair, u64)) -> (PairView, u64) {
    (e.0@, e.1)
}

/// True when `s` holds an entry for `k`.
pub open spec fn has_ref(s: Seq<(PairView, u64)>, k: PairView) -> bool {
    exists|i: int| 0 <= i < s.len() && s[i].0 == k
}

/// The index of the entry for `k` (meaningful when `has_ref` holds; under
/// distinct keys it is the only one).
pub open spec fn ref_index(s: Seq<(PairView, u64)>, k: PairView) -> int {
    choose|i: int| 0 <= i < s.len() && s[i].0 == k
}

/// The number of outstanding references for `k`: the stored count, or
/// zero for an absent key.
pub open spec fn ref_count(s: Seq<(PairView, u64)>, k: PairView) -> nat {
    if has_ref(s, k) {
        s[ref_index(s, k)].1 as nat
    } else {
        0
    }
}

/// Entries have distinct keys and strictly positive counts.
pub open spec fn ref_entries_wf(s: Seq<(PairView, u64)>) -> bool {
    &&& forall|i: int, j: int| 0 <= i < j < s.len() ==> s[i].0 != s[j].0
    &&& forall|i: int| 0 <= i < s.len() ==> s[i].1 >= 1
}

/// The reference-count table: one strictly positive count per peer key.
pub struct RefMap {
    pub entries: Vec<(PeerTokenPair, u64)>,
}

impl RefMap {
    /// The entries, as mathematical values.
    pub open spec fn view(&self) -> Seq<(PairView, u64)> {
        self.entries@.map_values(|e: (PeerTokenPair, u64)| entry_view(e))
    }

    pub open spec fn wf(&self) -> bool {
        ref_entries_wf(self@)
    }

    pub fn new() -> (r: Self)
        ensures
            r@ == Seq::<(PairView, u64)>::empty(),
            r.wf(),
    {
        let r = RefMap { entries: Vec::new() };
        proof {
            assert(r@ =~= Seq::<(PairView, u64)>::empty());
        }
        r
    }

    /// Adds one reference for `peer_id` and returns the new count.  A key
    /// not yet present starts at one.
    pub fn add_ref(&mut self, peer_id: PeerTokenPair) -> (r: u64)
        requires
            old(self).wf(),
            ref_count(old(self)@, peer_id@) < u64::MAX,
        ensures
            final(self).wf(),
            r == ref_count(old(self)@, peer_id@) + 1,
            ref_count(final(self)@, peer_id@) == r,
            forall|k: PairView|
                k != peer_id@ ==> ref_count(final(self)@, k) == ref_count(old(self)@, k),
            forall|k: PairView| has_ref(final(self)@, k) == (has_ref(old(self)@, k) || k == peer_id@),
    {
        let n = self.entries.len();
        let mut i: usize = 0;
        while i < n
            invariant
                old(self).wf(),
                self == old(self),
                ref_count(old(self)@, peer_id@) < u64::MAX,
                0 <= i <= n,
                n == self.entries@.len(),
                forall|j: int| 0 <= j < i ==> self@[j].0 != peer_id@,
            decreases n - i,
        {
            if self.entries[i].0 == peer_id {
                let c = self.entries[i].1;
                proof {
                    assert(self@[i as int].0 == peer_id@);
                    assert(has_ref(self@, peer_id@));
                    let w = ref_index(self@, peer_id@);
                    if w != i {
                        assert(self@[w].0 == self@[i as int].0);
                    }
                    assert(ref_count(self@, peer_id@) == c);
                }
                self.entries[i] = (peer_id, c + 1);
                proof {
                    let newv = self@;
                    let oldv = old(self)@;
                    assert(newv =~= oldv.update(i as int, (oldv[i as int].0, (c + 1) as u64)));
                    assert(newv[i as int].0 == peer_id@);
                    assert(has_ref(newv, peer_id@));
                    let w2 = ref_index(newv, peer_id@);
                    if w2 != i {
                        assert(newv[w2].0 == newv[i as int].0);
                    }
                    assert forall|k: PairView| k != peer_id@ implies ref_count(newv, k) == ref_count(
                        oldv,
                        k,
                    ) by {
                        if has_ref(oldv, k) {
                            let w = ref_index(oldv, k);
                            assert(newv[w] == oldv[w]);
                            assert(has_ref(newv, k));
                            let w3 = ref_index(newv, k);
                            if w3 != w {
                                assert(newv[w3].0 == newv[w].0);
                            }
                        } else {
                            if has_ref(newv, k) {
                                let w = ref_index(newv, k);
                                assert(oldv[w].0 == k);
                            }
                        }
                    }
                    assert forall|k: PairView| has_ref(newv, k) == (has_ref(oldv, k) || k
                        == peer_id@) by {
                        if has_ref(oldv, k) {
                            let w = ref_index(oldv, k);
                            assert(newv[w].0 == k);
                        }
                        if has_ref(newv, k) && k != peer_id@ {
                            let w = ref_index(newv, k);
                            assert(oldv[w].0 == k);
                        }
                    }
                }
                return c + 1;
            }
            i = i + 1;
        }
        proof {
            if has_ref(self@, peer_id@) {
                let w = ref_index(self@, peer_id@);
                assert(self@[w].0 != peer_id@);
            }
            assert(ref_count(self@, peer_id@) == 0);
        }
        self.entries.push((peer_id, 1));
        proof {
            let newv = self@;
            let oldv = old(self)@;
            assert(newv =~= oldv.push((peer_id@, 1u64)));
            assert(newv[oldv.len() as int].0 == peer_id@);
            assert(has_ref(newv, peer_id@));
            let w2 = ref_index(newv, peer_id@);
            if w2 != oldv.len() {
                assert(oldv[w2].0 == peer_id@);
            }
            assert(ref_count(newv, peer_id@) == 1);
            assert forall|k: PairView| k != peer_id@ implies ref_count(newv, k) == ref_count(
                oldv,
                k,
            ) by {
                if has_ref(oldv, k) {
                    let w = ref_index(oldv, k);
                    assert(newv[w] == oldv[w]);
                    assert(has_ref(newv, k));
                    let w3 = ref_index(newv, k);
                    if w3 != w {
                        if w3 == oldv.len() {
                            assert(newv[w3].0 == peer_id@);
                        } else {
                            assert(oldv[w3].0 == oldv[w].0);
                        }
                    }
                } else {
                    if has_ref(newv, k) {
                        let w = ref_index(newv, k);
                        assert(w != oldv.len());
                        assert(oldv[w].0 == k);
                    }
                }
            }
            assert forall|k: PairView| has_ref(newv, k) == (has_ref(oldv, k) || k == peer_id@) by {
                if has_ref(oldv, k) {
                    let w = ref_index(oldv, k);
                    assert(newv[w].0 == k);
                }
                if has_ref(newv, k) && k != peer_id@ {
                    let w = ref_index(newv, k);
                    assert(w != oldv.len());
                    assert(oldv[w].0 == k);
                }
            }
        }
        1
    }

    /// Removes one reference for `peer_id`.  Returns `Ok(Some(key))` when
    /// the removed reference was the last one, `Ok(None)` when references
    /// remain, and `Err(NotFound)` for a key with no references.
    pub fn remove_ref(&mut self, peer_id: &PeerTokenPair) -> (r: Result<
        Option<PeerTokenPair>,
        RefMapError,
    >)
        requires
            old(self).wf(),
        ensures
            final(self).wf(),
            ref_count(old(self)@, peer_id@) == 0 ==> (r matches Err(RefMapError::NotFound)
                && final(self)@ == old(self)@),
            ref_count(old(self)@, peer_id@) == 1 ==> (r matches Ok(Some(q)) && q@ == peer_id@
                && ref_count(final(self)@, peer_id@) == 0),
            ref_count(old(self)@, peer_id@) > 1 ==> (r matches Ok(None) && ref_count(
                final(self)@,
                peer_id@,
            ) == ref_count(old(self)@, peer_id@) - 1),
            forall|k: PairView|
                k != peer_id@ ==> ref_count(final(self)@, k) == ref_count(old(self)@, k),
            forall|k: PairView|
                has_ref(final(self)@, k) == (has_ref(old(self)@, k) && !(k == peer_id@ && ref_count(
                    old(self)@,
                    peer_id@,
                ) == 1)),
    {
        let n = self.entries.len();
        let mut i: usize = 0;
        while i < n
            invariant
                old(self).wf(),
                self == old(self),
                0 <= i <= n,
                n == self.entries@.len(),
                forall|j: int| 0 <= j < i ==> self@[j].0 != peer_id@,
            decreases n - i,
        {
            if self.entries[i].0 == *peer_id {
                proof {
                    assert(self@[i as int].0 == peer_id@);
                    assert(has_ref(self@, peer_id@));
                    let w = ref_index(self@, peer_id@);
                    if w != i {
                        assert(self@[w].0 == self@[i as int].0);
                    }
                }
                let c = self.entries[i].1;
                if c == 1 {
                    let entry = self.entries.remove(i);
                    proof {
                        let newv = self@;
                        let oldv = old(self)@;
                        assert(newv =~= oldv.remove(i as int));
                        oldv.remove_ensures(i as int);
                        if has_ref(newv, peer_id@) {
                            let w = ref_index(newv, peer_id@);
                            if w < i {
                                assert(oldv[w].0 == peer_id@);
                            } else {
                                assert(oldv[w + 1].0 == peer_id@);
                            }
                            assert(false);
                        }
                        assert(ref_count(newv, peer_id@) == 0);
                        assert forall|k: PairView| k != peer_id@ implies (ref_count(newv, k)
                            == ref_count(oldv, k) && has_ref(newv, k) == has_ref(oldv, k)) by {
                            Self::lemma_remove_other(oldv, i as int, k);
                        }
                    }
                    return Ok(Some(entry.0));
                } else {
                    let key = self.entries.remove(i);
                    self.entries.insert(i, (key.0, c - 1));
                    proof {
                        let newv = self@;
                        let oldv = old(self)@;
                        assert(newv =~= oldv.update(i as int, (oldv[i as int].0, (c - 1) as u64)));
                        assert(newv[i as int].0 == peer_id@);
                        assert(has_ref(newv, peer_id@));
                        let w2 = ref_index(newv, peer_id@);
                        if w2 != i {
                            assert(newv[w2].0 == newv[i as int].0);
                        }
                        assert(ref_count(newv, peer_id@) == c - 1);
                        assert forall|k: PairView| k != peer_id@ implies ref_count(newv, k)
                            == ref_count(oldv, k) by {
                            if has_ref(oldv, k) {
                                let w = ref_index(oldv, k);
                                assert(newv[w] == oldv[w]);
                                assert(has_ref(newv, k));
                                let w3 = ref_index(newv, k);
                                if w3 != w {
                                    assert(newv[w3].0 == newv[w].0);
                                }
                            } else {
                                if has_ref(newv, k) {
                                    let w = ref_index(newv, k);
                                    assert(oldv[w].0 == k);
                                }
                            }
                        }
                        assert forall|k: PairView| has_ref(newv, k) == has_ref(oldv, k) by {
                            if has_ref(oldv, k) {
                                let w = ref_index(oldv, k);
                                assert(newv[w].0 == k);
                            }
                            if has_ref(newv, k) {
                                let w = ref_index(newv, k);
                                assert(oldv[w].0 == k);
                            }
                        }
                    }
                    return Ok(None);
                }
            }
            i = i + 1;
        }
        proof {
            if has_ref(self@, peer_id@) {
                let w = ref_index(self@, peer_id@);
                assert(self@[w].0 != peer_id@);
            }
            assert(ref_count(self@, peer_id@) == 0);
        }
        Err(RefMapError::NotFound)
    }

    /// Removing the entry at `i` leaves every other key's count unchanged.
    proof fn lemma_remove_other(s: Seq<(PairView, u64)>, i: int, k: PairView)
        requires
            ref_entries_wf(s),
            0 <= i < s.len(),
            k != s[i].0,
        ensures
            ref_count(s.remove(i), k) == ref_count(s, k),
            has_ref(s.remove(i), k) == has_ref(s, k),
    {
        let t = s.remove(i);
        s.remove_ensures(i);
        assert(t.len() == s.len() - 1);
        assert(forall|j: int| 0 <= j < i ==> t[j] == s[j]);
        assert(forall|j: int| i <= j < t.len() ==> t[j] == s[j + 1]);
        if has_ref(s, k) {
            let w = ref_index(s, k);
            assert(s[w].0 == k);
            assert(w != i);
            if w < i {
                assert(t[w].0 == k);
            } else {
                assert(t[w - 1].0 == k);
            }
            assert(has_ref(t, k));
            let w2 = ref_index(t, k);
            let w2s = if w2 < i {
                w2
            } else {
                w2 + 1
            };
            assert(s[w2s].0 == k);
            if w2s != w {
                assert(s[w2s].0 == s[w].0);
            }
            assert(ref_count(t, k) == ref_count(s, k));
        } else {
            if has_ref(t, k) {
                let w2 = ref_index(t, k);
                let w2s = if w2 < i {
                    w2
                } else {
                    w2 + 1
                };
                assert(s[w2s].0 == k);
            }
        }
    }
}

} // verus!

//! Shared specification helpers for the vector-backed tables.
//!
//! The peer manager's tables are association vectors.  Their contracts
//! are stated over sequences with these helpers: `has_match` says whether
//! some element satisfies a predicate, and `first_index` names the first
//! element that does.

use vstd::prelude::*;

verus! {

/// True when some element of `s` satisfies `pred`.
pub open spec fn has_match<T>(s: Seq<T>, pred: spec_fn(T) -> bool) -> bool {
    exists|i: int| 0 <= i < s.len() && pred(s[i])
}

/// The index of the first element of `s` satisfying `pred` (meaningful
/// only when `has_match(s, pred)` holds).
pub open spec fn first_index<T>(s: Seq<T>, pred: spec_fn(T) -> bool) -> int
    decreases s.len(),
{
    if s.len() == 0 {
        0
    } else if pred(s[0]) {
        0
    } else {
        1 + first_index(s.drop_first(), pred)
    }
}

/// When a match exists, `first_index` points at it and nothing before it
/// matches.
pub proof fn lemma_first_index<T>(s: Seq<T>, pred: spec_fn(T) -> bool)
    requires
        has_match(s, pred),
    ensures
        0 <= first_index(s, pred) < s.len(),
        pred(s[first_index(s, pred)]),
        forall|j: int| 0 <= j < first_index(s, pred) ==> !pred(s[j]),
    decreases s.len(),
{
    if pred(s[0]) {
    } else {
        let w = choose|i: int| 0 <= i < s.len() && pred(s[i]);
        assert(pred(s.drop_first()[w - 1]));
        lemma_first_index(s.drop_first(), pred);
        let f = first_index(s.drop_first(), pred);
        assert(s.drop_first()[f] == s[f + 1]);
        assert forall|j: int| 0 <= j < 1 + f implies !pred(s[j]) by {
            if j > 0 {
                assert(s.drop_first()[j - 1] == s[j]);
            }
        }
    }
}

/// An element that matches, with nothing matching before it, is the first
/// match.
pub proof fn lemma_first_index_at<T>(s: Seq<T>, pred: spec_fn(T) -> bool, i: int)
    requires
        0 <= i < s.len(),
        pred(s[i]),
        forall|j: int| 0 <= j < i ==> !pred(s[j]),
    ensures
        has_match(s, pred),
        first_index(s, pred) == i,
{
    lemma_first_index(s, pred);
    let f = first_index(s, pred);
    if f < i {
        assert(!pred(s[f]));
    }
    if i < f {
        assert(!pred(s[i]));
    }
}

} // verus!

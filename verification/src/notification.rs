//! Peer lifecycle notifications and the subscriber registry.
//!
//! On every peer transition the manager produces
//! [`PeerManagerNotification`] values.  The library keeps only the
//! bookkeeping of subscriber identities in [`SubscriberMap`]; delivering a
//! notification to a subscriber's callback (typically a channel send) is
//! the surrounding application's job, which also drops a subscriber whose
//! callback fails.

use vstd::prelude::*;

use crate::token::{PairView, PeerTokenPair};

verus! {

/// The mathematical value of a [`PeerManagerNotification`].
pub enum NotificationView {
    Connected { peer: PairView },
    Disconnected { peer: PairView },
}

/// A peer lifecycle event published to subscribers.
#[derive(Debug)]
pub enum PeerManagerNotification {
    /// The peer's connection completed authorization and is ready.
    Connected { peer: PeerTokenPair },
    /// The peer's connection was lost.
    Disconnected { peer: PeerTokenPair },
}

impl View for PeerManagerNotification {
    type V = NotificationView;

    open spec fn view(&self) -> NotificationView {
        match self {
            PeerManagerNotification::Connected { peer } => NotificationView::Connected {
                peer: peer@,
            },
            PeerManagerNotification::Disconnected { peer } => NotificationView::Disconnected {
                peer: peer@,
            },
        }
    }
}

impl Clone for PeerManagerNotification {
    /// Cloning preserves the notification's value.
    fn clone(&self) -> (r: Self)
        ensures
            r@ == self@,
    {
        match self {
            PeerManagerNotification::Connected { peer } => PeerManagerNotification::Connected {
                peer: peer.clone(),
            },
            PeerManagerNotification::Disconnected { peer } => {
                PeerManagerNotification::Disconnected { peer: peer.clone() }
            },
        }
    }
}

impl PartialEq for PeerManagerNotification {
    fn eq(&self, other: &Self) -> (r: bool) {
        match (self, other) {
            (
                PeerManagerNotification::Connected { peer: a },
                PeerManagerNotification::Connected { peer: b },
            ) => {
                let r = a == b;
                proof {
                    assert(self@ == (NotificationView::Connected { peer: a@ }));
                    assert(other@ == (NotificationView::Connected { peer: b@ }));
                }
                r
            },
            (
                PeerManagerNotification::Disconnected { peer: a },
                PeerManagerNotification::Disconnected { peer: b },
            ) => {
                let r = a == b;
                proof {
                    assert(self@ == (NotificationView::Disconnected { peer: a@ }));
                    assert(other@ == (NotificationView::Disconnected { peer: b@ }));
                }
                r
            },
            _ => {
                proof {
                    assert((self@ is Connected && other@ is Disconnected) || (self@ is Disconnected
                        && other@ is Connected));
                }
                false
            },
        }
    }
}

impl vstd::std_specs::cmp::PartialEqSpecImpl for PeerManagerNotification {
    open spec fn obeys_eq_spec() -> bool {
        true
    }

    open spec fn eq_spec(&self, other: &Self) -> bool {
        self@ == other@
    }
}

/// The identity of a registered subscriber.
pub type SubscriberId = u64;

/// The registry of subscriber identities.  Each subscriber gets a fresh id
/// that is never reused.
pub struct SubscriberMap {
    pub next_id: u64,
    pub ids: Vec<u64>,
}

impl SubscriberMap {
    /// The ids of the currently registered subscribers.
    pub open spec fn view(&self) -> Seq<u64> {
        self.ids@
    }

    /// All registered ids were allocated below `next_id`.
    pub open spec fn wf(&self) -> bool {
        forall|i: int| 0 <= i < self.ids@.len() ==> self.ids@[i] < self.next_id
    }

    pub fn new() -> (r: Self)
        ensures
            r@ == Seq::<u64>::empty(),
            r.wf(),
            r.next_id == 0,
    {
        SubscriberMap { next_id: 0, ids: Vec::new() }
    }

    /// Registers a new subscriber and returns its fresh id: one that no
    /// current subscriber holds.
    pub fn add_subscriber(&mut self) -> (r: SubscriberId)
        requires
            old(self).wf(),
            old(self).next_id < u64::MAX,
        ensures
            final(self).wf(),
            r == old(self).next_id,
            final(self)@ == old(self)@.push(r),
            !old(self)@.contains(r),
            final(self).next_id == old(self).next_id + 1,
    {
        let id = self.next_id;
        self.next_id = self.next_id + 1;
        self.ids.push(id);
        proof {
            if old(self)@.contains(id) {
                let i = choose|i: int| 0 <= i < old(self)@.len() && old(self)@[i] == id;
                assert(old(self)@[i] < id);
            }
        }
        id
    }

    /// Removes a subscriber; absent ids are ignored.
    pub fn remove_subscriber(&mut self, subscriber_id: SubscriberId)
        requires
            old(self).wf(),
        ensures
            final(self).wf(),
            final(self).next_id == old(self).next_id,
            final(self)@ == old(self)@.filter(keep_other_subscribers(subscriber_id)),
    {
        let ghost pred = keep_other_subscribers(subscriber_id);
        let mut i: usize = 0;
        let n = self.ids.len();
        let mut out: Vec<u64> = Vec::new();
        proof {
            assert(old(self)@.take(0).filter(pred) =~= Seq::<u64>::empty()) by {
                reveal(Seq::filter);
            }
        }
        while i < n
            invariant
                old(self).wf(),
                0 <= i <= n,
                n == old(self).ids@.len(),
                self.ids@ == old(self).ids@,
                self.next_id == old(self).next_id,
                pred == keep_other_subscribers(subscriber_id),
                out@ == old(self)@.take(i as int).filter(pred),
                forall|j: int| 0 <= j < out@.len() ==> out@[j] < self.next_id,
            decreases n - i,
        {
            let id = self.ids[i];
            proof {
                reveal(Seq::filter);
                assert(old(self)@.take(i as int + 1).drop_last() =~= old(self)@.take(i as int));
                assert(old(self)@.take(i as int + 1).last() == old(self)@[i as int]);
                assert(old(self).ids@[i as int] < old(self).next_id);
            }
            if id != subscriber_id {
                out.push(id);
            }
            i = i + 1;
        }
        proof {
            assert(old(self)@.take(n as int) =~= old(self)@);
        }
        self.ids = out;
    }
}

/// The subscribers kept when `id` unsubscribes.
pub open spec fn keep_other_subscribers(id: u64) -> spec_fn(u64) -> bool {
    |x: u64| x != id
}

} // verus!

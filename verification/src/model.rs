//! The mathematical model of the broadcast hub: what the registry and the
//! subscriptions are, and what each operation does to them.
//!
//! A subscription is bound to the channel of one registry entry. The model
//! names that channel by the entry's key together with the flag `attached`:
//! an attached subscription listens to the entry that the registry holds for
//! its key now; a detached one was bound to an entry that has been removed,
//! and nothing published later can reach it.

use crate::request::RequestView;
use vstd::prelude::*;

verus! {

/// Time that has passed between `created` and `now`; zero if `created` lies
/// after `now`.
pub open spec fn elapsed(created: nat, now: nat) -> nat {
    if now >= created {
        (now - created) as nat
    } else {
        0
    }
}

/// Whether an entry created at `created` is older than `ttl` at `now`. An
/// entry whose age is exactly `ttl` has not expired.
///
/// The age counts from the entry's creation. Later subscriptions and
/// publishes do not renew it.
pub open spec fn expired(created: nat, now: nat, ttl: nat) -> bool {
    elapsed(created, now) > ttl
}

/// The loss counter after one more lost message. It stops at the largest
/// 64-bit value.
pub open spec fn bump(missed: nat) -> nat {
    if missed < u64::MAX {
        missed + 1
    } else {
        missed
    }
}

/// What one receive on a subscription yields.
pub enum OutcomeView {
    /// The oldest message that was waiting.
    Message(RequestView),
    /// The number of messages that were dropped since the last report.
    Lagged(nat),
    /// Nothing is waiting, and more may come.
    Empty,
    /// Nothing is waiting, and nothing will come.
    Closed,
}

/// One subscription: the key it listens on, whether its channel is still the
/// registered one, what waits to be received and how many messages were lost.
pub struct SubscriptionView {
    pub key: Seq<char>,
    pub attached: bool,
    pub pending: Seq<RequestView>,
    pub missed: nat,
}

impl SubscriptionView {
    /// A subscription as it is when opened on `key`: attached, with nothing
    /// waiting and nothing lost.
    pub open spec fn fresh(key: Seq<char>) -> SubscriptionView {
        SubscriptionView { key, attached: true, pending: Seq::empty(), missed: 0 }
    }

    /// Whether a publish on `key` reaches this subscription.
    pub open spec fn listens_to(self, key: Seq<char>) -> bool {
        self.attached && self.key == key
    }

    /// The subscription after `request` was queued on it. A full queue loses
    /// its oldest message and counts the loss.
    pub open spec fn enqueue(self, request: RequestView, capacity: nat) -> SubscriptionView {
        if self.pending.len() < capacity {
            SubscriptionView { pending: self.pending.push(request), ..self }
        } else {
            SubscriptionView {
                pending: self.pending.skip(1).push(request),
                missed: bump(self.missed),
                ..self
            }
        }
    }

    /// The subscription after a publish of `request` on `key`.
    pub open spec fn deliver(
        self,
        key: Seq<char>,
        request: RequestView,
        capacity: nat,
    ) -> SubscriptionView {
        if self.listens_to(key) {
            self.enqueue(request, capacity)
        } else {
            self
        }
    }

    /// The subscription after the registry became `registry`: it is detached
    /// once its key is gone.
    pub open spec fn settle(self, registry: Map<Seq<char>, nat>) -> SubscriptionView {
        if self.attached && !registry.contains_key(self.key) {
            SubscriptionView { attached: false, ..self }
        } else {
            self
        }
    }

    /// What the next receive yields: a pending loss report first, then the
    /// oldest waiting message; with nothing waiting, `Closed` once detached
    /// and `Empty` before.
    pub open spec fn outcome(self) -> OutcomeView {
        if self.missed > 0 {
            OutcomeView::Lagged(self.missed)
        } else if self.pending.len() > 0 {
            OutcomeView::Message(self.pending[0])
        } else if !self.attached {
            OutcomeView::Closed
        } else {
            OutcomeView::Empty
        }
    }

    /// The subscription after one receive.
    pub open spec fn advance(self) -> SubscriptionView {
        if self.missed > 0 {
            SubscriptionView { missed: 0, ..self }
        } else if self.pending.len() > 0 {
            SubscriptionView { pending: self.pending.skip(1), ..self }
        } else {
            self
        }
    }
}

/// The hub: the queue bound, the registry from key to creation time, and the
/// subscriptions by slot.
pub struct HubView {
    pub capacity: nat,
    pub registry: Map<Seq<char>, nat>,
    pub subscriptions: Map<nat, SubscriptionView>,
}

impl HubView {
    /// A hub without entries and without subscriptions.
    pub open spec fn empty(capacity: nat) -> HubView {
        HubView { capacity, registry: Map::empty(), subscriptions: Map::empty() }
    }

    /// The invariant of a hub: a positive queue bound, a finite registry, and
    /// for each subscription a queue within the bound, a loss counter within
    /// 64 bits and, while attached, a registered key.
    pub open spec fn wf(self) -> bool {
        &&& self.capacity >= 1
        &&& self.registry.dom().finite()
        &&& forall|slot: nat| #[trigger]
            self.subscriptions.contains_key(slot) ==> {
                &&& self.subscriptions[slot].pending.len() <= self.capacity
                &&& self.subscriptions[slot].missed <= u64::MAX
                &&& self.subscriptions[slot].attached ==> self.registry.contains_key(
                    self.subscriptions[slot].key,
                )
            }
    }

    /// Whether `slot` is the lowest slot that holds no subscription.
    pub open spec fn first_free(self, slot: nat) -> bool {
        &&& !self.subscriptions.contains_key(slot)
        &&& forall|lower: nat| lower < slot ==> #[trigger] self.subscriptions.contains_key(lower)
    }

    /// There is one lowest free slot, so `first_free` names the slot that a
    /// new subscription takes.
    pub proof fn lemma_first_free_is_one(self, slot: nat, other: nat)
        requires
            self.first_free(slot),
            self.first_free(other),
        ensures
            slot == other,
    {
        if slot < other {
            assert(self.subscriptions.contains_key(slot));
        } else if other < slot {
            assert(self.subscriptions.contains_key(other));
        }
    }

    /// The hub after a subscription on `key` was opened in `slot` at `now`.
    /// A missing entry is created with `now` as its creation time; an entry
    /// that exists is left as it is.
    pub open spec fn subscribe(self, key: Seq<char>, now: nat, slot: nat) -> HubView {
        HubView {
            registry: if self.registry.contains_key(key) {
                self.registry
            } else {
                self.registry.insert(key, now)
            },
            subscriptions: self.subscriptions.insert(slot, SubscriptionView::fresh(key)),
            ..self
        }
    }

    /// The hub after a publish of `request` on `key`: without an entry for
    /// `key` nothing changes; with one, every subscription that listens to
    /// `key` has the request queued.
    pub open spec fn publish(self, key: Seq<char>, request: RequestView) -> HubView {
        if !self.registry.contains_key(key) {
            self
        } else {
            HubView {
                subscriptions: Map::new(
                    |slot: nat| self.subscriptions.contains_key(slot),
                    |slot: nat| self.subscriptions[slot].deliver(key, request, self.capacity),
                ),
                ..self
            }
        }
    }

    /// What a receive on `slot` yields. A slot without a subscription is
    /// closed.
    pub open spec fn outcome(self, slot: nat) -> OutcomeView {
        if self.subscriptions.contains_key(slot) {
            self.subscriptions[slot].outcome()
        } else {
            OutcomeView::Closed
        }
    }

    /// The hub after a receive on `slot`.
    pub open spec fn receive(self, slot: nat) -> HubView {
        if self.subscriptions.contains_key(slot) {
            HubView {
                subscriptions: self.subscriptions.insert(slot, self.subscriptions[slot].advance()),
                ..self
            }
        } else {
            self
        }
    }

    /// The hub after the subscription in `slot` was given up.
    pub open spec fn unsubscribe(self, slot: nat) -> HubView {
        HubView { subscriptions: self.subscriptions.remove(slot), ..self }
    }

    /// The registry after a sweep at `now` with `ttl`: the entries that are
    /// not older than `ttl`.
    pub open spec fn surviving(self, now: nat, ttl: nat) -> Map<Seq<char>, nat> {
        Map::new(
            |key: Seq<char>| self.registry.contains_key(key) && !expired(self.registry[key], now, ttl),
            |key: Seq<char>| self.registry[key],
        )
    }

    /// The hub after a sweep at `now` with `ttl`: expired entries leave the
    /// registry, and the subscriptions that were bound to them are detached.
    pub open spec fn sweep(self, now: nat, ttl: nat) -> HubView {
        HubView {
            registry: self.surviving(now, ttl),
            subscriptions: Map::new(
                |slot: nat| self.subscriptions.contains_key(slot),
                |slot: nat| self.subscriptions[slot].settle(self.surviving(now, ttl)),
            ),
            ..self
        }
    }
}

} // verus!

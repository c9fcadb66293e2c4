//! Histories of the service: sequences of operations, and what holds of the
//! state that they lead to.
//!
//! Each operation of `CaptureService` changes the service's view by one
//! `Event`. The proof functions of this module speak of every history, so
//! they hold of every run of the service.

use crate::model::{expired, OutcomeView, SubscriptionView};
use crate::request::RequestView;
use crate::service::ServiceView;
use vstd::prelude::*;

verus! {

/// One operation on the service.
pub enum Event {
    /// A request was captured against `key`.
    Capture { key: Seq<char>, request: RequestView },
    /// A subscription on `key` was opened in `slot` at the time `now`.
    Subscribe { key: Seq<char>, now: nat, slot: nat },
    /// The subscription in `slot` was asked for its next outcome.
    Receive { slot: nat },
    /// The subscription in `slot` was given up.
    Unsubscribe { slot: nat },
    /// The hub was swept at the time `now` with the age `ttl`.
    Sweep { now: nat, ttl: nat },
}

impl Event {
    /// The request that this event captures against `key`, if it does.
    pub open spec fn captured_on(self, key: Seq<char>) -> Option<RequestView> {
        match self {
            Event::Capture { key: k, request } => if k == key {
                Some(request)
            } else {
                None
            },
            _ => None,
        }
    }

    /// Whether this event opens or gives up the subscription in `slot`.
    pub open spec fn rebinds(self, slot: nat) -> bool {
        match self {
            Event::Subscribe { slot: s, .. } => s == slot,
            Event::Unsubscribe { slot: s } => s == slot,
            _ => false,
        }
    }

    /// Whether this event is a receive on `slot`.
    pub open spec fn receives_on(self, slot: nat) -> bool {
        match self {
            Event::Receive { slot: s } => s == slot,
            _ => false,
        }
    }

    /// Whether this event leaves an entry created at `created` in the
    /// registry: every event does, but for a sweep at which the entry has
    /// expired.
    pub open spec fn spares(self, created: nat) -> bool {
        match self {
            Event::Sweep { now, ttl } => !expired(created, now, ttl),
            _ => true,
        }
    }
}

/// The service after one event.
pub open spec fn step(state: ServiceView, event: Event) -> ServiceView {
    match event {
        Event::Capture { key, request } => state.capture(key, request),
        Event::Subscribe { key, now, slot } => state.subscribe(key, now, slot),
        Event::Receive { slot } => state.receive(slot),
        Event::Unsubscribe { slot } => state.unsubscribe(slot),
        Event::Sweep { now, ttl } => state.sweep(now, ttl),
    }
}

/// The service after a history of events, the first event first.
pub open spec fn run(start: ServiceView, events: Seq<Event>) -> ServiceView
    decreases events.len(),
{
    if events.len() == 0 {
        start
    } else {
        step(run(start, events.drop_last()), events.last())
    }
}

/// The requests that a history captures against `key`, in order.
pub open spec fn published_on(events: Seq<Event>, key: Seq<char>) -> Seq<RequestView>
    decreases events.len(),
{
    if events.len() == 0 {
        Seq::empty()
    } else {
        let earlier = published_on(events.drop_last(), key);
        match events.last().captured_on(key) {
            Some(request) => earlier.push(request),
            None => earlier,
        }
    }
}

/// The requests that the receives of a history hand out on `slot`, in order.
pub open spec fn delivered_to(start: ServiceView, events: Seq<Event>, slot: nat) -> Seq<
    RequestView,
>
    decreases events.len(),
{
    if events.len() == 0 {
        Seq::empty()
    } else {
        let earlier = delivered_to(start, events.drop_last(), slot);
        if events.last().receives_on(slot) {
            match run(start, events.drop_last()).hub.outcome(slot) {
                OutcomeView::Message(request) => earlier.push(request),
                _ => earlier,
            }
        } else {
            earlier
        }
    }
}

/// Whether the subscription in `slot` keeps up with the captures against
/// `key` throughout a history: at no point of it do more captures wait to be
/// handed out than a queue holds.
pub open spec fn keeps_up(start: ServiceView, events: Seq<Event>, key: Seq<char>, slot: nat) -> bool {
    forall|n: int|
        0 <= n <= events.len() ==> published_on(#[trigger] events.take(n), key).len()
            - delivered_to(start, events.take(n), slot).len() <= start.hub.capacity
}

/// What a queue of `capacity` messages holds of `all` after it took them
/// all in: the last `capacity` of them.
pub open spec fn retained(all: Seq<RequestView>, capacity: nat) -> Seq<RequestView> {
    if all.len() <= capacity {
        all
    } else {
        all.skip(all.len() - capacity)
    }
}

/// How many of `count` messages a queue of `capacity` messages has lost
/// after it took them all in, as its loss counter gives it.
pub open spec fn lost(count: nat, capacity: nat) -> nat {
    if count <= capacity {
        0
    } else if count - capacity <= u64::MAX {
        (count - capacity) as nat
    } else {
        u64::MAX as nat
    }
}

/// Every event keeps a well-formed hub well-formed.
pub proof fn lemma_step_keeps_wf(state: ServiceView, event: Event)
    requires
        state.hub.wf(),
    ensures
        step(state, event).hub.wf(),
        step(state, event).hub.capacity == state.hub.capacity,
{
    let next = step(state, event);
    if event is Sweep {
        assert(next.hub.registry.dom().subset_of(state.hub.registry.dom()));
        vstd::set_lib::lemma_set_subset_finite(state.hub.registry.dom(), next.hub.registry.dom());
    }
    assert forall|s: nat| #[trigger] next.hub.subscriptions.contains_key(s) implies {
        &&& next.hub.subscriptions[s].pending.len() <= next.hub.capacity
        &&& next.hub.subscriptions[s].missed <= u64::MAX
        &&& next.hub.subscriptions[s].attached ==> next.hub.registry.contains_key(
            next.hub.subscriptions[s].key,
        )
    } by {
        if state.hub.subscriptions.contains_key(s) {
            assert(state.hub.subscriptions[s].pending.len() <= state.hub.capacity);
        }
    }
}

/// Every history keeps a well-formed hub well-formed, with its queue bound.
pub proof fn lemma_run_keeps_wf(start: ServiceView, events: Seq<Event>)
    requires
        start.hub.wf(),
    ensures
        run(start, events).hub.wf(),
        run(start, events).hub.capacity == start.hub.capacity,
    decreases events.len(),
{
    if events.len() > 0 {
        lemma_run_keeps_wf(start, events.drop_last());
        lemma_step_keeps_wf(run(start, events.drop_last()), events.last());
    }
}

/// A lookup returns the last capture. If a history captures `request`
/// against `key` at the position `last`, and no later event of it captures
/// anything against `key`, then after the history the store holds `request`
/// for `key`, whatever else the history does.
pub proof fn lemma_lookup_returns_last_capture(
    start: ServiceView,
    events: Seq<Event>,
    last: int,
    key: Seq<char>,
    request: RequestView,
)
    requires
        0 <= last < events.len(),
        events[last] == (Event::Capture { key, request }),
        forall|j: int| last < j < events.len() ==> (#[trigger] events[j]).captured_on(key) is None,
    ensures
        run(start, events).store.contains_key(key),
        run(start, events).store[key] == request,
    decreases events.len(),
{
    let front = events.drop_last();
    if last < events.len() - 1 {
        assert(front[last] == events[last]);
        assert forall|j: int| last < j < front.len() implies (#[trigger] front[j]).captured_on(
            key,
        ) is None by {
            assert(front[j] == events[j]);
        }
        lemma_lookup_returns_last_capture(start, front, last, key, request);
        assert(events[events.len() - 1].captured_on(key) is None);
    }
}

/// A lookup of an identification that was never captured finds nothing. If
/// the store holds nothing for `key` and no event of a history captures
/// anything against `key`, the store holds nothing for `key` after it.
pub proof fn lemma_uncaptured_stays_absent(start: ServiceView, events: Seq<Event>, key: Seq<char>)
    requires
        !start.store.contains_key(key),
        forall|j: int| 0 <= j < events.len() ==> (#[trigger] events[j]).captured_on(key) is None,
    ensures
        !run(start, events).store.contains_key(key),
    decreases events.len(),
{
    if events.len() > 0 {
        let front = events.drop_last();
        assert forall|j: int| 0 <= j < front.len() implies (#[trigger] front[j]).captured_on(
            key,
        ) is None by {
            assert(front[j] == events[j]);
        }
        lemma_uncaptured_stays_absent(start, front, key);
        assert(events[events.len() - 1].captured_on(key) is None);
    }
}

/// The creation time of an entry is never renewed. If the registry holds
/// `key` and every sweep of a history spares an entry of that creation time,
/// the registry holds `key` with the same creation time after the history,
/// whatever was subscribed, published or received meanwhile.
pub proof fn lemma_creation_time_is_kept(start: ServiceView, events: Seq<Event>, key: Seq<char>)
    requires
        start.hub.registry.contains_key(key),
        forall|j: int|
            0 <= j < events.len() ==> (#[trigger] events[j]).spares(start.hub.registry[key]),
    ensures
        run(start, events).hub.registry.contains_key(key),
        run(start, events).hub.registry[key] == start.hub.registry[key],
    decreases events.len(),
{
    if events.len() > 0 {
        let front = events.drop_last();
        assert forall|j: int| 0 <= j < front.len() implies (#[trigger] front[j]).spares(
            start.hub.registry[key],
        ) by {
            assert(front[j] == events[j]);
        }
        lemma_creation_time_is_kept(start, front, key);
        assert(events[events.len() - 1].spares(start.hub.registry[key]));
    }
}

/// A sweep removes an entry once it is older than the time to live. If the
/// registry holds `key`, no sweep of a history removes it, and the history
/// is followed by a sweep at a time `now` that lies more than `ttl` after
/// the entry's creation, then the registry no longer holds `key`, and every
/// subscription that listened to `key` is detached with its queue as it
/// was.
pub proof fn lemma_sweep_removes_expired_entry(
    start: ServiceView,
    events: Seq<Event>,
    key: Seq<char>,
    now: nat,
    ttl: nat,
)
    requires
        start.hub.registry.contains_key(key),
        forall|j: int|
            0 <= j < events.len() ==> (#[trigger] events[j]).spares(start.hub.registry[key]),
        now > start.hub.registry[key] + ttl,
    ensures
        !run(start, events).sweep(now, ttl).hub.registry.contains_key(key),
        forall|slot: nat|
            run(start, events).hub.subscriptions.contains_key(slot) && (
            #[trigger] run(start, events).hub.subscriptions[slot]).listens_to(key) ==> {
                &&& run(start, events).sweep(now, ttl).hub.subscriptions.contains_key(slot)
                &&& run(start, events).sweep(now, ttl).hub.subscriptions[slot] == (
                SubscriptionView { attached: false, ..run(start, events).hub.subscriptions[slot] })
            },
{
    lemma_creation_time_is_kept(start, events, key);
}

/// A sweep keeps an entry that is not older than the time to live. If the
/// registry holds `key`, no sweep of a history removes it, and the history
/// is followed by a sweep at a time `now` that lies at most `ttl` after the
/// entry's creation, then the registry still holds `key` with its creation
/// time, and every subscription is as it was.
pub proof fn lemma_sweep_keeps_young_entry(
    start: ServiceView,
    events: Seq<Event>,
    key: Seq<char>,
    now: nat,
    ttl: nat,
)
    requires
        start.hub.registry.contains_key(key),
        forall|j: int|
            0 <= j < events.len() ==> (#[trigger] events[j]).spares(start.hub.registry[key]),
        now <= start.hub.registry[key] + ttl,
    ensures
        run(start, events).sweep(now, ttl).hub.registry.contains_key(key),
        run(start, events).sweep(now, ttl).hub.registry[key] == start.hub.registry[key],
        forall|slot: nat|
            run(start, events).hub.subscriptions.contains_key(slot) && (
            #[trigger] run(start, events).hub.subscriptions[slot]).listens_to(key) ==> {
                &&& run(start, events).sweep(now, ttl).hub.subscriptions.contains_key(slot)
                &&& run(start, events).sweep(now, ttl).hub.subscriptions[slot] == run(
                    start,
                    events,
                ).hub.subscriptions[slot]
            },
{
    lemma_creation_time_is_kept(start, events, key);
}

/// Nothing reaches a detached subscription. If the subscription in `slot`
/// is detached and no event of a history opens, gives up or receives on
/// `slot`, the subscription is after the history as it was before, whatever
/// was published or subscribed on its key meanwhile.
pub proof fn lemma_detached_receives_nothing(start: ServiceView, events: Seq<Event>, slot: nat)
    requires
        start.hub.subscriptions.contains_key(slot),
        !start.hub.subscriptions[slot].attached,
        forall|j: int|
            0 <= j < events.len() ==> !(#[trigger] events[j]).rebinds(slot)
                && !events[j].receives_on(slot),
    ensures
        run(start, events).hub.subscriptions.contains_key(slot),
        run(start, events).hub.subscriptions[slot] == start.hub.subscriptions[slot],
    decreases events.len(),
{
    if events.len() > 0 {
        let front = events.drop_last();
        assert forall|j: int| 0 <= j < front.len() implies !(#[trigger] front[j]).rebinds(slot)
            && !front[j].receives_on(slot) by {
            assert(front[j] == events[j]);
        }
        lemma_detached_receives_nothing(start, front, slot);
        assert(!events[events.len() - 1].rebinds(slot));
    }
}

/// A new subscription starts empty. Whatever was captured before, against
/// its key or any other, a subscription that is opened afterwards has
/// nothing waiting, and its first receive finds nothing.
pub proof fn lemma_no_replay(
    start: ServiceView,
    events: Seq<Event>,
    key: Seq<char>,
    now: nat,
    slot: nat,
)
    ensures
        run(start, events).subscribe(key, now, slot).hub.subscriptions[slot].pending
            == Seq::<RequestView>::empty(),
        run(start, events).subscribe(key, now, slot).hub.outcome(slot) == OutcomeView::Empty,
{
}

/// A publish reaches every subscription that listens. After a capture
/// against `key`, every subscription that listened to `key` holds the
/// request as the newest message of its queue.
pub proof fn lemma_fan_out(state: ServiceView, key: Seq<char>, request: RequestView)
    requires
        state.hub.wf(),
    ensures
        forall|slot: nat|
            state.hub.subscriptions.contains_key(slot) && (
            #[trigger] state.hub.subscriptions[slot]).listens_to(key) ==> {
                &&& state.capture(key, request).hub.subscriptions.contains_key(slot)
                &&& state.capture(key, request).hub.subscriptions[slot].pending.len() > 0
                &&& state.capture(key, request).hub.subscriptions[slot].pending.last() == request
            },
{
    assert forall|slot: nat|
        state.hub.subscriptions.contains_key(slot) && (
        #[trigger] state.hub.subscriptions[slot]).listens_to(key) implies {
        &&& state.capture(key, request).hub.subscriptions.contains_key(slot)
        &&& state.capture(key, request).hub.subscriptions[slot].pending.len() > 0
        &&& state.capture(key, request).hub.subscriptions[slot].pending.last() == request
    } by {
        assert(state.hub.registry.contains_key(key));
    }
}

/// A subscriber receives every capture, verbatim and in order. Take a
/// subscription on `key` that has just been opened in `slot`, and a history
/// that does not open or give up `slot`, whose sweeps spare the entry of
/// `key`, and in which the subscription keeps up. Then after the history the
/// subscription still listens to `key`, has lost nothing, and the requests
/// that it has handed out, followed by those that wait in it, are the
/// requests captured against `key`, in their order.
pub proof fn lemma_subscriber_receives_in_order(
    start: ServiceView,
    events: Seq<Event>,
    key: Seq<char>,
    slot: nat,
)
    requires
        start.hub.wf(),
        start.hub.subscriptions.contains_key(slot),
        start.hub.subscriptions[slot] == SubscriptionView::fresh(key),
        forall|j: int|
            0 <= j < events.len() ==> !(#[trigger] events[j]).rebinds(slot) && events[j].spares(
                start.hub.registry[key],
            ),
        keeps_up(start, events, key, slot),
    ensures
        run(start, events).hub.subscriptions.contains_key(slot),
        run(start, events).hub.subscriptions[slot].listens_to(key),
        run(start, events).hub.subscriptions[slot].missed == 0,
        delivered_to(start, events, slot) + run(start, events).hub.subscriptions[slot].pending
            == published_on(events, key),
    decreases events.len(),
{
    if events.len() == 0 {
        assert(delivered_to(start, events, slot) + start.hub.subscriptions[slot].pending
            =~= published_on(events, key));
    } else {
        let front = events.drop_last();
        let event = events.last();
        assert forall|j: int| 0 <= j < front.len() implies !(#[trigger] front[j]).rebinds(slot)
            && front[j].spares(start.hub.registry[key]) by {
            assert(front[j] == events[j]);
        }
        assert(events[events.len() - 1] == event);
        assert forall|n: int| 0 <= n <= front.len() implies published_on(
            #[trigger] front.take(n),
            key,
        ).len() - delivered_to(start, front.take(n), slot).len() <= start.hub.capacity by {
            assert(front.take(n) =~= events.take(n));
        }
        assert(events.take(events.len() as int) =~= events);
        lemma_subscriber_receives_in_order(start, front, key, slot);
        lemma_creation_time_is_kept(start, front, key);
        lemma_run_keeps_wf(start, front);
        let before = run(start, front);
        let after = run(start, events);
        let sub = before.hub.subscriptions[slot];
        let handed = delivered_to(start, front, slot);
        assert(handed + sub.pending == published_on(front, key));
        match event {
            Event::Capture { key: k, request } => {
                if k == key {
                    assert(sub.pending.len() < before.hub.capacity);
                    assert(handed + sub.pending.push(request) =~= (handed + sub.pending).push(
                        request,
                    ));
                }
            },
            Event::Subscribe { key: k, now, slot: s } => {},
            Event::Receive { slot: s } => {
                if s == slot && sub.pending.len() > 0 {
                    assert(handed.push(sub.pending[0]) + sub.pending.skip(1) =~= handed
                        + sub.pending);
                }
            },
            Event::Unsubscribe { slot: s } => {},
            Event::Sweep { now, ttl } => {},
        }
    }
}

/// Two subscribers of one key receive the same. Take two subscriptions on
/// `key` that have just been opened in two slots, and a history as in
/// `lemma_subscriber_receives_in_order` for both. Then for each of them the
/// requests handed out, followed by those that wait, are the requests
/// captured against `key`: each capture reaches both.
pub proof fn lemma_two_subscribers_receive_the_same(
    start: ServiceView,
    events: Seq<Event>,
    key: Seq<char>,
    first: nat,
    second: nat,
)
    requires
        start.hub.wf(),
        first != second,
        start.hub.subscriptions.contains_key(first),
        start.hub.subscriptions.contains_key(second),
        start.hub.subscriptions[first] == SubscriptionView::fresh(key),
        start.hub.subscriptions[second] == SubscriptionView::fresh(key),
        forall|j: int|
            0 <= j < events.len() ==> !(#[trigger] events[j]).rebinds(first)
                && !events[j].rebinds(second) && events[j].spares(start.hub.registry[key]),
        keeps_up(start, events, key, first),
        keeps_up(start, events, key, second),
    ensures
        delivered_to(start, events, first) + run(start, events).hub.subscriptions[first].pending
            == published_on(events, key),
        delivered_to(start, events, second) + run(start, events).hub.subscriptions[second].pending
            == published_on(events, key),
{
    lemma_subscriber_receives_in_order(start, events, key, first);
    lemma_subscriber_receives_in_order(start, events, key, second);
}

/// A queue that overflows keeps the newest messages and counts the rest.
/// Take a subscription on `key` that has just been opened in `slot`, and a
/// history that does not open, give up or receive on `slot` and whose sweeps
/// spare the entry of `key`. Then after the history the queue holds the
/// last captures against `key`, as many as it has room for, in their order,
/// and the loss counter holds the number of the others.
pub proof fn lemma_overflow_drops_oldest(
    start: ServiceView,
    events: Seq<Event>,
    key: Seq<char>,
    slot: nat,
)
    requires
        start.hub.wf(),
        start.hub.subscriptions.contains_key(slot),
        start.hub.subscriptions[slot] == SubscriptionView::fresh(key),
        forall|j: int|
            0 <= j < events.len() ==> !(#[trigger] events[j]).rebinds(slot)
                && !events[j].receives_on(slot) && events[j].spares(start.hub.registry[key]),
    ensures
        run(start, events).hub.subscriptions.contains_key(slot),
        run(start, events).hub.subscriptions[slot].listens_to(key),
        run(start, events).hub.subscriptions[slot].pending == retained(
            published_on(events, key),
            start.hub.capacity,
        ),
        run(start, events).hub.subscriptions[slot].missed == lost(
            published_on(events, key).len(),
            start.hub.capacity,
        ),
    decreases events.len(),
{
    if events.len() > 0 {
        let front = events.drop_last();
        let event = events.last();
        assert forall|j: int| 0 <= j < front.len() implies !(#[trigger] front[j]).rebinds(slot)
            && !front[j].receives_on(slot) && front[j].spares(start.hub.registry[key]) by {
            assert(front[j] == events[j]);
        }
        assert(events[events.len() - 1] == event);
        lemma_overflow_drops_oldest(start, front, key, slot);
        lemma_creation_time_is_kept(start, front, key);
        lemma_run_keeps_wf(start, front);
        let before = run(start, front);
        let sub = before.hub.subscriptions[slot];
        let all = published_on(front, key);
        let capacity = start.hub.capacity;
        match event {
            Event::Capture { key: k, request } => {
                if k == key {
                    if all.len() < capacity {
                    } else {
                        assert(retained(all, capacity).skip(1).push(request) =~= retained(
                            all.push(request),
                            capacity,
                        ));
                    }
                }
            },
            Event::Subscribe { key: k, now, slot: s } => {},
            Event::Receive { slot: s } => {},
            Event::Unsubscribe { slot: s } => {},
            Event::Sweep { now, ttl } => {},
        }
    }
}

} // verus!

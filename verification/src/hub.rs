//! The broadcast hub: a registry of fan-out channels by identification, with
//! a bounded queue for each subscriber.
//!
//! The timestamp of an entry is the time of its creation. Neither a later
//! subscription nor a publish renews it, so the time to live that a sweep
//! applies is the time since the entry was created.

use crate::model::{expired, HubView, OutcomeView, SubscriptionView};
use crate::request::{views_of, CapturedRequest, RequestView};
use std::collections::VecDeque;
use vstd::prelude::*;

verus! {

/// The number of messages that a subscriber's queue holds before the oldest
/// one is dropped.
pub const CHANNEL_CAPACITY: usize = 100;

struct HubEntry {
    key: String,
    created_at: u64,
}

struct Subscription {
    key: String,
    attached: bool,
    queue: VecDeque<CapturedRequest>,
    missed: u64,
}

impl View for Subscription {
    type V = SubscriptionView;

    closed spec fn view(&self) -> SubscriptionView {
        SubscriptionView {
            key: self.key@,
            attached: self.attached,
            pending: views_of(self.queue@),
            missed: self.missed as nat,
        }
    }
}

impl Subscription {
    /// Queues `request`. A full queue loses its oldest message first, and
    /// the loss is counted.
    fn enqueue(&mut self, request: CapturedRequest, capacity: usize)
        requires
            capacity >= 1,
            old(self).queue.len() <= capacity,
        ensures
            final(self)@ == old(self)@.enqueue(request@, capacity as nat),
            final(self).queue.len() <= capacity,
    {
        if self.queue.len() >= capacity {
            let _ = self.queue.pop_front();
            if self.missed < u64::MAX {
                self.missed += 1;
            }
        }
        self.queue.push_back(request);
        proof {
            if old(self).queue.len() < capacity {
                assert(views_of(self.queue@) =~= views_of(old(self).queue@).push(request@));
            } else {
                assert(views_of(self.queue@) =~= views_of(old(self).queue@).skip(1).push(
                    request@,
                ));
            }
        }
    }

    /// Takes what the next receive yields out of the subscription.
    fn take_next(&mut self) -> (outcome: RecvOutcome)
        ensures
            outcome@ == old(self)@.outcome(),
            final(self)@ == old(self)@.advance(),
            final(self).queue.len() <= old(self).queue.len(),
    {
        if self.missed > 0 {
            let missed = self.missed;
            self.missed = 0;
            return RecvOutcome::Lagged(missed);
        }
        match self.queue.pop_front() {
            Some(request) => {
                proof {
                    assert(views_of(self.queue@) =~= views_of(old(self).queue@).skip(1));
                }
                RecvOutcome::Message(request)
            },
            None => {
                if self.attached {
                    RecvOutcome::Empty
                } else {
                    RecvOutcome::Closed
                }
            },
        }
    }
}

/// What one receive on a subscription yields.
#[derive(Debug, PartialEq, Eq)]
pub enum RecvOutcome {
    /// The oldest message that was waiting.
    Message(CapturedRequest),
    /// Messages were dropped because the queue was full: their number since
    /// the last such report. The messages that are left follow.
    Lagged(u64),
    /// Nothing is waiting, and more may come.
    Empty,
    /// Nothing is waiting, and nothing will come: the entry that the
    /// subscription was bound to has left the registry, or the handle names
    /// no subscription.
    Closed,
}

impl View for RecvOutcome {
    type V = OutcomeView;

    open spec fn view(&self) -> OutcomeView {
        match self {
            RecvOutcome::Message(request) => OutcomeView::Message(request@),
            RecvOutcome::Lagged(missed) => OutcomeView::Lagged(*missed as nat),
            RecvOutcome::Empty => OutcomeView::Empty,
            RecvOutcome::Closed => OutcomeView::Closed,
        }
    }
}

/// The registry that a sequence of entries stands for.
spec fn registry_of(entries: Seq<HubEntry>) -> Map<Seq<char>, nat>
    decreases entries.len(),
{
    if entries.len() == 0 {
        Map::empty()
    } else {
        registry_of(entries.drop_last()).insert(
            entries.last().key@,
            entries.last().created_at as nat,
        )
    }
}

spec fn distinct_keys(entries: Seq<HubEntry>) -> bool {
    forall|i: int, j: int|
        0 <= i < j < entries.len() ==> (#[trigger] entries[i]).key@ != (#[trigger] entries[j]).key@
}

spec fn has_key(entries: Seq<HubEntry>, key: Seq<char>) -> bool {
    exists|i: int| 0 <= i < entries.len() && (#[trigger] entries[i]).key@ == key
}

/// The subscriptions that a sequence of slots stands for.
spec fn subscriptions_of(slots: Seq<Option<Subscription>>) -> Map<nat, SubscriptionView> {
    Map::new(
        |slot: nat| slot < slots.len() && slots[slot as int] is Some,
        |slot: nat| slots[slot as int].unwrap()@,
    )
}

/// With distinct keys the registry holds exactly the entries of the
/// sequence, one for each.
proof fn lemma_registry(entries: Seq<HubEntry>)
    requires
        distinct_keys(entries),
    ensures
        registry_of(entries).dom().finite(),
        registry_of(entries).len() == entries.len(),
        forall|key: Seq<char>| #[trigger]
            registry_of(entries).contains_key(key) <==> has_key(entries, key),
        forall|i: int|
            0 <= i < entries.len() ==> registry_of(entries)[(#[trigger] entries[i]).key@]
                == entries[i].created_at,
    decreases entries.len(),
{
    if entries.len() > 0 {
        let front = entries.drop_last();
        let last = entries.last();
        assert forall|i: int, j: int| 0 <= i < j < front.len() implies (#[trigger] front[i]).key@
            != (#[trigger] front[j]).key@ by {
            assert(front[i] == entries[i] && front[j] == entries[j]);
        }
        lemma_registry(front);
        assert(!has_key(front, last.key@)) by {
            if has_key(front, last.key@) {
                let i = choose|i: int| 0 <= i < front.len() && (#[trigger] front[i]).key@ == last.key@;
                assert(front[i] == entries[i]);
                assert(entries[entries.len() - 1] == last);
            }
        }
        assert forall|key: Seq<char>| #[trigger]
            registry_of(entries).contains_key(key) <==> has_key(entries, key) by {
            if has_key(entries, key) {
                let i = choose|i: int| 0 <= i < entries.len() && (#[trigger] entries[i]).key@ == key;
                if i < front.len() {
                    assert(front[i] == entries[i]);
                }
            }
            if registry_of(entries).contains_key(key) {
                if key == last.key@ {
                    assert(entries[entries.len() - 1].key@ == key);
                } else {
                    let i = choose|i: int| 0 <= i < front.len() && (#[trigger] front[i]).key@ == key;
                    assert(entries[i] == front[i]);
                }
            }
        }
        assert forall|i: int| 0 <= i < entries.len() implies registry_of(entries)[(
        #[trigger] entries[i]).key@] == entries[i].created_at by {
            if i < front.len() {
                assert(front[i] == entries[i]);
                assert(entries[entries.len() - 1] == last);
            }
        }
    }
}

spec fn from_tail(entries: Seq<HubEntry>, start: int, entry: HubEntry) -> bool {
    exists|p: int| start <= p < entries.len() && (#[trigger] entries[p]) == entry
}

/// The entries that a sweep keeps.
spec fn kept_by_sweep(before: Seq<HubEntry>, kept: Seq<HubEntry>, now: nat, ttl: nat) -> bool {
    &&& distinct_keys(before)
    &&& distinct_keys(kept)
    &&& forall|j: int|
        0 <= j < kept.len() ==> from_tail(before, 0, #[trigger] kept[j]) && !expired(
            kept[j].created_at as nat,
            now,
            ttl,
        )
    &&& forall|p: int|
        0 <= p < before.len() && !expired((#[trigger] before[p]).created_at as nat, now, ttl)
            ==> kept.contains(before[p])
}

/// The registry of the kept entries is the old registry without the
/// entries that have expired.
proof fn lemma_sweep_registry(before: Seq<HubEntry>, kept: Seq<HubEntry>, now: nat, ttl: nat)
    requires
        kept_by_sweep(before, kept, now, ttl),
    ensures
        registry_of(kept) == Map::new(
            |key: Seq<char>|
                registry_of(before).contains_key(key) && !expired(
                    registry_of(before)[key],
                    now,
                    ttl,
                ),
            |key: Seq<char>| registry_of(before)[key],
        ),
{
    lemma_registry(before);
    lemma_registry(kept);
    let swept = Map::new(
        |key: Seq<char>|
            registry_of(before).contains_key(key) && !expired(registry_of(before)[key], now, ttl),
        |key: Seq<char>| registry_of(before)[key],
    );
    assert forall|key: Seq<char>| registry_of(kept).contains_key(key) implies swept.contains_key(
        key,
    ) && swept[key] == registry_of(kept)[key] by {
        let j = choose|j: int| 0 <= j < kept.len() && (#[trigger] kept[j]).key@ == key;
        assert(from_tail(before, 0, kept[j]));
        let p = choose|p: int| 0 <= p < before.len() && (#[trigger] before[p]) == kept[j];
        assert(before[p].key@ == key);
    }
    assert forall|key: Seq<char>| swept.contains_key(key) implies registry_of(kept).contains_key(
        key,
    ) by {
        let p = choose|p: int| 0 <= p < before.len() && (#[trigger] before[p]).key@ == key;
        assert(kept.contains(before[p]));
        let j = choose|j: int| 0 <= j < kept.len() && kept[j] == before[p];
        assert(kept[j].key@ == key);
    }
    assert(registry_of(kept) =~= swept);
}

fn is_expired(created: u64, now: u64, ttl: u64) -> (gone: bool)
    ensures
        gone == expired(created as nat, now as nat, ttl as nat),
{
    let age: u64 = if now >= created {
        now - created
    } else {
        0
    };
    age > ttl
}

/// What holds of every slot: a subscription's queue is within the bound,
/// and while attached its key has an entry.
spec fn slots_ok(slots: Seq<Option<Subscription>>, entries: Seq<HubEntry>, capacity: usize) -> bool {
    forall|slot: int|
        0 <= slot < slots.len() && (#[trigger] slots[slot]) is Some ==> {
            &&& slots[slot].unwrap().queue.len() <= capacity
            &&& slots[slot].unwrap().attached ==> has_key(entries, slots[slot].unwrap().key@)
        }
}

/// Whether a slot that held `before` may hold `after`: a subscription is
/// still the one on its key, no more attached than it was, with a queue
/// that is within the bound or no longer than it was.
spec fn slot_follows(before: Option<Subscription>, after: Option<Subscription>, capacity: usize) -> bool {
    after is Some ==> {
        &&& before is Some
        &&& after.unwrap().key@ == before.unwrap().key@
        &&& after.unwrap().attached ==> before.unwrap().attached
        &&& after.unwrap().queue.len() <= capacity || after.unwrap().queue.len()
            <= before.unwrap().queue.len()
    }
}

/// Slots that follow slots which are in order are in order.
proof fn lemma_slots_stay_ok(
    before: Seq<Option<Subscription>>,
    after: Seq<Option<Subscription>>,
    entries: Seq<HubEntry>,
    capacity: usize,
)
    requires
        slots_ok(before, entries, capacity),
        after.len() == before.len(),
        forall|slot: int|
            0 <= slot < after.len() ==> slot_follows(before[slot], #[trigger] after[slot], capacity),
    ensures
        slots_ok(after, entries, capacity),
{
    assert forall|slot: int| 0 <= slot < after.len() && (#[trigger] after[slot]) is Some implies {
        &&& after[slot].unwrap().queue.len() <= capacity
        &&& after[slot].unwrap().attached ==> has_key(entries, after[slot].unwrap().key@)
    } by {
        assert(slot_follows(before[slot], after[slot], capacity));
        assert(before[slot] is Some);
    }
}

/// The hub of fan-out channels. Each identification has at most one entry;
/// a subscription is bound to the entry that was registered when it was
/// opened.
pub struct BroadcastHub {
    capacity: usize,
    entries: Vec<HubEntry>,
    slots: Vec<Option<Subscription>>,
}

/// The caller's end of one subscription. It is handed out by
/// `BroadcastHub::subscribe` and names the slot that holds the queue.
#[derive(Debug)]
pub struct ReceiverHandle {
    slot: usize,
}

impl ReceiverHandle {
    /// The slot of the hub that this handle names.
    pub closed spec fn slot_spec(&self) -> usize {
        self.slot
    }

    /// The slot of the hub that this handle names.
    #[verifier::when_used_as_spec(slot_spec)]
    pub fn slot(&self) -> (slot: usize)
        ensures
            slot == self.slot_spec(),
    {
        self.slot
    }
}

impl View for BroadcastHub {
    type V = HubView;

    closed spec fn view(&self) -> HubView {
        HubView {
            capacity: self.capacity as nat,
            registry: registry_of(self.entries@),
            subscriptions: subscriptions_of(self.slots@),
        }
    }
}

fn find_entry(entries: &Vec<HubEntry>, key: &String) -> (found: Option<usize>)
    ensures
        match found {
            Some(i) => i < entries.len() && entries[i as int].key@ == key@,
            None => !has_key(entries@, key@),
        },
{
    let mut i: usize = 0;
    while i < entries.len()
        invariant
            i <= entries.len(),
            forall|j: int| 0 <= j < i ==> (#[trigger] entries[j]).key@ != key@,
        decreases entries.len() - i,
    {
        if entries[i].key == *key {
            return Some(i);
        }
        i += 1;
    }
    None
}

fn first_vacant(slots: &Vec<Option<Subscription>>) -> (slot: usize)
    ensures
        slot <= slots.len(),
        slot < slots.len() ==> slots[slot as int] is None,
        forall|j: int| 0 <= j < slot ==> (#[trigger] slots[j]) is Some,
{
    let mut i: usize = 0;
    while i < slots.len()
        invariant
            i <= slots.len(),
            forall|j: int| 0 <= j < i ==> (#[trigger] slots[j]) is Some,
        decreases slots.len() - i,
    {
        if slots[i].is_none() {
            return i;
        }
        i += 1;
    }
    i
}

impl BroadcastHub {
    /// The invariant of the hub's representation.
    pub closed spec fn wf(&self) -> bool {
        &&& self.capacity >= 1
        &&& distinct_keys(self.entries@)
        &&& slots_ok(self.slots@, self.entries@, self.capacity)
    }

    /// A well-formed hub has a well-formed view.
    pub proof fn lemma_view_wf(&self)
        requires
            self.wf(),
        ensures
            self@.wf(),
    {
        lemma_registry(self.entries@);
        assert forall|slot: nat| #[trigger] self@.subscriptions.contains_key(slot) implies {
            &&& self@.subscriptions[slot].pending.len() <= self@.capacity
            &&& self@.subscriptions[slot].missed <= u64::MAX
            &&& self@.subscriptions[slot].attached ==> self@.registry.contains_key(
                self@.subscriptions[slot].key,
            )
        } by {
            assert(self.slots[slot as int] is Some);
        }
    }

    /// A hub without entries, whose queues hold `CHANNEL_CAPACITY` messages.
    pub fn new() -> (hub: Self)
        ensures
            hub.wf(),
            hub@ == HubView::empty(CHANNEL_CAPACITY as nat),
    {
        let hub = BroadcastHub { capacity: CHANNEL_CAPACITY, entries: Vec::new(), slots: Vec::new() };
        assert(hub@.subscriptions =~= Map::empty());
        hub
    }

    /// A hub without entries, whose queues hold `capacity` messages. A queue
    /// has room for at least one message: for a `capacity` of zero there is
    /// no hub.
    pub fn with_capacity(capacity: usize) -> (made: Option<Self>)
        ensures
            capacity == 0 <==> made is None,
            made matches Some(hub) ==> hub.wf() && hub@ == HubView::empty(capacity as nat),
    {
        if capacity == 0 {
            return None;
        }
        let hub = BroadcastHub { capacity, entries: Vec::new(), slots: Vec::new() };
        assert(hub@.subscriptions =~= Map::empty());
        Some(hub)
    }

    /// Opens a subscription on `id` at the time `now`. Where `id` has no
    /// entry, one is created with `now` as its creation time; an entry that
    /// exists keeps its time. The subscription takes the lowest free slot and
    /// starts with nothing waiting.
    pub fn subscribe(&mut self, id: &str, now: u64) -> (handle: ReceiverHandle)
        requires
            old(self).wf(),
        ensures
            final(self).wf(),
            old(self)@.first_free(handle.slot() as nat),
            final(self)@ == old(self)@.subscribe(id@, now as nat, handle.slot() as nat),
    {
        let key = id.to_owned();
        proof {
            lemma_registry(self.entries@);
        }
        if find_entry(&self.entries, &key).is_none() {
            let ghost before = self.entries@;
            self.entries.push(HubEntry { key: key.clone(), created_at: now });
            proof {
                assert(self.entries@.drop_last() =~= before);
                assert forall|i: int, j: int| 0 <= i < j < self.entries.len() implies (
                #[trigger] self.entries[i]).key@ != (#[trigger] self.entries[j]).key@ by {
                    assert(before[i] == self.entries[i]);
                    if j < before.len() {
                        assert(before[j] == self.entries[j]);
                    }
                }
                assert forall|k: Seq<char>| has_key(before, k) implies has_key(self.entries@, k) by {
                    let i = choose|i: int| 0 <= i < before.len() && (#[trigger] before[i]).key@ == k;
                    assert(self.entries[i] == before[i]);
                }
            }
        }
        assert(has_key(self.entries@, key@)) by {
            lemma_registry(self.entries@);
        }
        let slot = first_vacant(&self.slots);
        let subscription = Subscription { key, attached: true, queue: VecDeque::new(), missed: 0 };
        assert(subscription@ == SubscriptionView::fresh(id@)) by {
            assert(views_of(subscription.queue@) =~= Seq::<RequestView>::empty());
        }
        let ghost slots_before = self.slots@;
        if slot < self.slots.len() {
            self.slots[slot] = Some(subscription);
        } else {
            self.slots.push(Some(subscription));
        }
        proof {
            assert(subscriptions_of(self.slots@) =~= subscriptions_of(slots_before).insert(
                slot as nat,
                SubscriptionView::fresh(id@),
            ));
            assert forall|lower: nat| lower < slot implies #[trigger] subscriptions_of(
                slots_before,
            ).contains_key(lower) by {
                assert(slots_before[lower as int] is Some);
            }
        }
        ReceiverHandle { slot }
    }

    /// Publishes `request` on `id`. Without an entry for `id` nothing
    /// happens, and no entry is created. With one, a copy of the request is
    /// queued for every subscription that is bound to it; a subscription
    /// whose queue is full loses its oldest message.
    pub fn publish(&mut self, id: &str, request: &CapturedRequest)
        requires
            old(self).wf(),
        ensures
            final(self).wf(),
            final(self)@ == old(self)@.publish(id@, request@),
    {
        let key = id.to_owned();
        proof {
            lemma_registry(self.entries@);
        }
        if find_entry(&self.entries, &key).is_none() {
            return ;
        }
        let capacity = self.capacity;
        let mut i: usize = 0;
        while i < self.slots.len()
            invariant
                capacity >= 1,
                key@ == id@,
                self.capacity == capacity,
                old(self).capacity == capacity,
                self.entries == old(self).entries,
                self.slots.len() == old(self).slots.len(),
                i <= self.slots.len(),
                old(self).wf(),
                forall|j: int|
                    0 <= j < i ==> {
                        &&& (#[trigger] self.slots[j]) is Some <==> old(self).slots[j] is Some
                        &&& self.slots[j] is Some ==> {
                            &&& self.slots[j].unwrap()@ == old(self).slots[j].unwrap()@.deliver(
                                id@,
                                request@,
                                capacity as nat,
                            )
                            &&& self.slots[j].unwrap().queue.len() <= capacity
                        }
                    },
                forall|j: int| i <= j < self.slots.len() ==> self.slots[j] == old(self).slots[j],
            decreases self.slots.len() - i,
        {
            let ghost slots_before = self.slots@;
            assert(slots_before[i as int] == old(self).slots[i as int]);
            match &mut self.slots[i] {
                Some(subscription) => {
                    if subscription.attached && subscription.key == key {
                        subscription.enqueue(request.clone(), capacity);
                    }
                },
                None => {},
            }
            proof {
                assert(slots_before[i as int] == old(self).slots[i as int]);
                assert forall|j: int| 0 <= j < self.slots.len() && j != i implies self.slots[j]
                    == slots_before[j] by {}
            }
            i += 1;
        }
        proof {
            lemma_slots_stay_ok(old(self).slots@, self.slots@, self.entries@, self.capacity);
            assert(subscriptions_of(self.slots@) =~= old(self)@.publish(
                id@,
                request@,
            ).subscriptions);
        }
    }

    /// Receives on the subscription that `handle` names: a pending loss
    /// report first, then the oldest waiting message. With nothing waiting
    /// the answer is `Empty` while the subscription is bound to a registered
    /// entry and `Closed` afterwards. A handle that names no subscription is
    /// answered with `Closed`.
    pub fn receive(&mut self, handle: &ReceiverHandle) -> (outcome: RecvOutcome)
        requires
            old(self).wf(),
        ensures
            final(self).wf(),
            outcome@ == old(self)@.outcome(handle.slot() as nat),
            final(self)@ == old(self)@.receive(handle.slot() as nat),
    {
        let slot = handle.slot;
        if slot >= self.slots.len() {
            return RecvOutcome::Closed;
        }
        let ghost slots_before = self.slots@;
        let outcome = match &mut self.slots[slot] {
            Some(subscription) => subscription.take_next(),
            None => RecvOutcome::Closed,
        };
        proof {
            assert forall|j: int| 0 <= j < self.slots.len() && j != slot implies self.slots[j]
                == slots_before[j] by {}
            assert(subscriptions_of(self.slots@) =~= old(self)@.receive(slot as nat).subscriptions);
            lemma_slots_stay_ok(slots_before, self.slots@, self.entries@, self.capacity);
        }
        outcome
    }

    /// Gives up the subscription that `handle` names. Its slot becomes free,
    /// and what was waiting in it is dropped. The registry is not touched.
    pub fn unsubscribe(&mut self, handle: ReceiverHandle)
        requires
            old(self).wf(),
        ensures
            final(self).wf(),
            final(self)@ == old(self)@.unsubscribe(handle.slot() as nat),
    {
        let slot = handle.slot;
        if slot < self.slots.len() {
            self.slots[slot] = None;
        }
        proof {
            assert(subscriptions_of(self.slots@) =~= subscriptions_of(old(self).slots@).remove(
                slot as nat,
            ));
            lemma_slots_stay_ok(old(self).slots@, self.slots@, self.entries@, self.capacity);
        }
    }

    /// Removes every entry that is older than `ttl` at `now`, and returns how
    /// many were removed. An entry whose age is exactly `ttl` stays. The age
    /// counts from the entry's creation. The subscriptions that were bound to
    /// a removed entry keep what waits in their queues and are closed once
    /// they have received it.
    pub fn sweep_idle(&mut self, now: u64, ttl: u64) -> (removed: usize)
        requires
            old(self).wf(),
        ensures
            final(self).wf(),
            final(self)@ == old(self)@.sweep(now as nat, ttl as nat),
            removed == old(self)@.registry.len() - final(self)@.registry.len(),
    {
        let ghost before = self.entries@;
        let total = self.entries.len();
        let mut kept: Vec<HubEntry> = Vec::new();
        while self.entries.len() > 0
            invariant
                self.capacity == old(self).capacity,
                self.slots == old(self).slots,
                self.entries.len() <= before.len(),
                self.entries@ =~= before.take(self.entries.len() as int),
                distinct_keys(before),
                distinct_keys(kept@),
                kept.len() + self.entries.len() <= before.len(),
                forall|j: int|
                    0 <= j < kept.len() ==> from_tail(
                        before,
                        self.entries.len() as int,
                        #[trigger] kept[j],
                    ) && !expired(kept[j].created_at as nat, now as nat, ttl as nat),
                forall|p: int|
                    self.entries.len() <= p < before.len() && !expired(
                        (#[trigger] before[p]).created_at as nat,
                        now as nat,
                        ttl as nat,
                    ) ==> kept@.contains(before[p]),
            decreases self.entries.len(),
        {
            let ghost kept_before = kept@;
            let ghost rest = self.entries.len() as int;
            let entry = self.entries.pop().unwrap();
            assert(entry == before[rest - 1]);
            if !is_expired(entry.created_at, now, ttl) {
                kept.push(entry);
                proof {
                    assert forall|i: int, j: int| 0 <= i < j < kept.len() implies (
                    #[trigger] kept[i]).key@ != (#[trigger] kept[j]).key@ by {
                        assert(kept[i] == kept_before[i]);
                        if j < kept_before.len() {
                            assert(kept[j] == kept_before[j]);
                        } else {
                            assert(from_tail(before, rest, kept_before[i]));
                            let p = choose|p: int|
                                rest <= p < before.len() && (#[trigger] before[p])
                                    == kept_before[i];
                            assert(before[p].key@ != before[rest - 1].key@);
                        }
                    }
                    assert(kept@[kept.len() - 1] == before[rest - 1]);
                }
            }
            proof {
                assert forall|j: int| 0 <= j < kept.len() implies from_tail(
                    before,
                    rest - 1,
                    #[trigger] kept[j],
                ) by {
                    if j < kept_before.len() {
                        assert(kept[j] == kept_before[j]);
                        assert(from_tail(before, rest, kept_before[j]));
                        let p = choose|p: int|
                            rest <= p < before.len() && (#[trigger] before[p]) == kept_before[j];
                        assert(before[p] == kept[j]);
                    } else {
                        assert(before[rest - 1] == kept[j]);
                    }
                }
                assert forall|p: int|
                    rest - 1 <= p < before.len() && !expired(
                        (#[trigger] before[p]).created_at as nat,
                        now as nat,
                        ttl as nat,
                    ) implies kept@.contains(before[p]) by {
                    if p >= rest {
                        assert(kept_before.contains(before[p]));
                        let j = choose|j: int|
                            0 <= j < kept_before.len() && kept_before[j] == before[p];
                        assert(kept[j] == before[p]);
                    } else {
                        assert(kept[kept.len() - 1] == before[p]);
                    }
                }
            }
        }
        let removed = total - kept.len();
        self.entries = kept;
        proof {
            assert(kept_by_sweep(before, self.entries@, now as nat, ttl as nat)) by {
                assert forall|j: int| 0 <= j < self.entries.len() implies from_tail(
                    before,
                    0,
                    #[trigger] self.entries[j],
                ) by {
                    assert(from_tail(before, 0, self.entries[j]));
                }
            }
            lemma_sweep_registry(before, self.entries@, now as nat, ttl as nat);
            lemma_registry(before);
            lemma_registry(self.entries@);
        }
        let mut i: usize = 0;
        while i < self.slots.len()
            invariant
                old(self).wf(),
                self.capacity == old(self).capacity,
                self.slots.len() == old(self).slots.len(),
                i <= self.slots.len(),
                distinct_keys(self.entries@),
                registry_of(self.entries@) == old(self)@.surviving(now as nat, ttl as nat),
                forall|j: int|
                    0 <= j < i ==> {
                        &&& (#[trigger] self.slots[j]) is Some <==> old(self).slots[j] is Some
                        &&& self.slots[j] is Some ==> {
                            &&& self.slots[j].unwrap()@ == old(self).slots[j].unwrap()@.settle(
                                old(self)@.surviving(now as nat, ttl as nat),
                            )
                            &&& self.slots[j].unwrap().queue.len() <= self.capacity
                            &&& self.slots[j].unwrap().attached ==> has_key(
                                self.entries@,
                                self.slots[j].unwrap().key@,
                            )
                        }
                    },
                forall|j: int| i <= j < self.slots.len() ==> self.slots[j] == old(self).slots[j],
            decreases self.slots.len() - i,
        {
            let ghost slots_before = self.slots@;
            assert(slots_before[i as int] == old(self).slots[i as int]);
            proof {
                lemma_registry(self.entries@);
            }
            let orphaned = match &self.slots[i] {
                Some(subscription) => subscription.attached && find_entry(
                    &self.entries,
                    &subscription.key,
                ).is_none(),
                None => false,
            };
            if orphaned {
                match &mut self.slots[i] {
                    Some(subscription) => {
                        subscription.attached = false;
                    },
                    None => {},
                }
            }
            proof {
                assert forall|j: int| 0 <= j < self.slots.len() && j != i implies self.slots[j]
                    == slots_before[j] by {}
            }
            i += 1;
        }
        proof {
            assert(subscriptions_of(self.slots@) =~= old(self)@.sweep(
                now as nat,
                ttl as nat,
            ).subscriptions);
        }
        removed
    }

    /// Whether the registry holds an entry for `id`.
    pub fn has_entry(&self, id: &str) -> (present: bool)
        requires
            self.wf(),
        ensures
            present == self@.registry.contains_key(id@),
    {
        let key = id.to_owned();
        proof {
            lemma_registry(self.entries@);
        }
        find_entry(&self.entries, &key).is_some()
    }

    /// The creation time of the entry for `id`, if there is one.
    pub fn created_at(&self, id: &str) -> (created: Option<u64>)
        requires
            self.wf(),
        ensures
            match created {
                Some(time) => self@.registry.contains_key(id@) && self@.registry[id@] == time,
                None => !self@.registry.contains_key(id@),
            },
    {
        let key = id.to_owned();
        proof {
            lemma_registry(self.entries@);
        }
        match find_entry(&self.entries, &key) {
            Some(i) => Some(self.entries[i].created_at),
            None => None,
        }
    }

    /// The number of entries in the registry.
    pub fn entry_count(&self) -> (count: usize)
        requires
            self.wf(),
        ensures
            count == self@.registry.len(),
    {
        proof {
            lemma_registry(self.entries@);
        }
        self.entries.len()
    }
}

} // verus!

//! The capture service: one object that owns the request store and the
//! broadcast hub, and the operations that the transport calls on it.
//!
//! Opening a subscription does not write to the store: only a capture does.

use crate::hub::BroadcastHub;
use crate::model::HubView;
use crate::reaper::IdleReaper;
use crate::request::{not_found_message, not_found_text, CapturedRequest, RequestView};
use crate::session::{step_for, StepView, StreamSession, StreamStep};
use crate::store::RequestStore;
use vstd::prelude::*;

verus! {

/// What the service is: the latest capture of each identification, and the
/// hub.
pub struct ServiceView {
    pub store: Map<Seq<char>, RequestView>,
    pub hub: HubView,
}

impl ServiceView {
    /// The service at start: nothing captured, an empty hub.
    pub open spec fn initial(capacity: nat) -> ServiceView {
        ServiceView { store: Map::empty(), hub: HubView::empty(capacity) }
    }

    /// The service after `request` was captured against `key`: it is the
    /// latest value of `key`, and it was published on `key`.
    pub open spec fn capture(self, key: Seq<char>, request: RequestView) -> ServiceView {
        ServiceView { store: self.store.insert(key, request), hub: self.hub.publish(key, request) }
    }

    /// The service after a subscription on `key` was opened in `slot`.
    pub open spec fn subscribe(self, key: Seq<char>, now: nat, slot: nat) -> ServiceView {
        ServiceView { hub: self.hub.subscribe(key, now, slot), ..self }
    }

    /// The service after a receive on `slot`.
    pub open spec fn receive(self, slot: nat) -> ServiceView {
        ServiceView { hub: self.hub.receive(slot), ..self }
    }

    /// The service after the subscription in `slot` was given up.
    pub open spec fn unsubscribe(self, slot: nat) -> ServiceView {
        ServiceView { hub: self.hub.unsubscribe(slot), ..self }
    }

    /// The service after a sweep of the hub.
    pub open spec fn sweep(self, now: nat, ttl: nat) -> ServiceView {
        ServiceView { hub: self.hub.sweep(now, ttl), ..self }
    }
}

/// The answer to a lookup of an identification without a capture.
#[derive(Debug, PartialEq, Eq)]
pub struct NotFound {
    identification: String,
}

impl NotFound {
    /// The identification that was looked up.
    pub closed spec fn id(&self) -> Seq<char> {
        self.identification@
    }

    /// The identification that was looked up.
    pub fn identification(&self) -> (id: &str)
        ensures
            id@ == self.id(),
    {
        self.identification.as_str()
    }

    /// The text for the caller: a fixed sentence followed by the
    /// identification.
    pub fn message(&self) -> (text: String)
        ensures
            text@ == not_found_text(self.id()),
    {
        not_found_message(self.identification.as_str())
    }
}

/// The service that the transport hands every request to.
pub struct CaptureService {
    store: RequestStore,
    hub: BroadcastHub,
    reaper: IdleReaper,
}

impl View for CaptureService {
    type V = ServiceView;

    closed spec fn view(&self) -> ServiceView {
        ServiceView { store: self.store@, hub: self.hub@ }
    }
}

impl CaptureService {
    /// The invariant of the service's representation.
    pub closed spec fn wf(&self) -> bool {
        self.hub.wf()
    }

    /// The age that a hub entry may reach before a sweep of this service
    /// removes it.
    pub closed spec fn ttl(&self) -> nat {
        self.reaper.ttl() as nat
    }

    /// The time that the caller lets pass between two sweeps.
    pub closed spec fn period(&self) -> u64 {
        self.reaper.period()
    }

    /// A well-formed service has a well-formed hub.
    pub proof fn lemma_view_wf(&self)
        requires
            self.wf(),
        ensures
            self@.hub.wf(),
    {
        self.hub.lemma_view_wf();
    }

    /// A service with nothing captured, an empty hub with queues of
    /// `CHANNEL_CAPACITY` messages, and the sweep policy of `IdleReaper::new`.
    pub fn new() -> (service: Self)
        ensures
            service.wf(),
            service@ == ServiceView::initial(crate::hub::CHANNEL_CAPACITY as nat),
            service.ttl() == crate::reaper::IDLE_TTL,
            service.period() == crate::reaper::SWEEP_PERIOD,
    {
        CaptureService {
            store: RequestStore::new(),
            hub: BroadcastHub::new(),
            reaper: IdleReaper::new(),
        }
    }

    /// Captures one inbound request against `id`: builds its record, makes it
    /// the latest value of `id`, publishes it on `id`, and returns it. The
    /// method is kept as data; every method is handled alike.
    pub fn handle_capture(&mut self, id: &str, method: &str, headers: &str, body: &str) -> (record:
        CapturedRequest)
        requires
            old(self).wf(),
        ensures
            final(self).wf(),
            final(self).ttl() == old(self).ttl(),
            final(self).period() == old(self).period(),
            record@ == (RequestView {
                method: method@,
                headers: headers@,
                body: crate::request::callback_body(body@),
            }),
            final(self)@ == old(self)@.capture(id@, record@),
    {
        let record = CapturedRequest::from_callback(method, headers, body);
        self.store.upsert(id, record.clone());
        self.hub.publish(id, &record);
        record
    }

    /// Looks up the latest capture of `id`. Where nothing was ever captured
    /// against `id` the answer is the error that names `id`.
    pub fn handle_latest_lookup(&self, id: &str) -> (found: Result<CapturedRequest, NotFound>)
        ensures
            match found {
                Ok(record) => self@.store.contains_key(id@) && record@ == self@.store[id@],
                Err(missing) => !self@.store.contains_key(id@) && missing.id() == id@,
            },
    {
        match self.store.get(id) {
            Some(record) => Ok(record),
            None => Err(NotFound { identification: id.to_owned() }),
        }
    }

    /// Opens a subscription on `id` at the time `now` and returns the session
    /// that streams from it. The store is not touched.
    pub fn handle_subscribe(&mut self, id: &str, now: u64) -> (session: StreamSession)
        requires
            old(self).wf(),
        ensures
            final(self).wf(),
            final(self).ttl() == old(self).ttl(),
            final(self).period() == old(self).period(),
            !session.finished(),
            old(self)@.hub.first_free(session.slot()),
            final(self)@ == old(self)@.subscribe(id@, now as nat, session.slot()),
    {
        let handle = self.hub.subscribe(id, now);
        StreamSession::open(handle)
    }

    /// Advances `session` by one receive on its subscription. A finished
    /// session answers `Finished` and nothing changes.
    pub fn next_event(&mut self, session: &mut StreamSession) -> (step: StreamStep)
        requires
            old(self).wf(),
        ensures
            final(self).wf(),
            final(self).ttl() == old(self).ttl(),
            final(self).period() == old(self).period(),
            final(session).slot() == old(session).slot(),
            old(session).finished() ==> {
                &&& step@ == StepView::Finished
                &&& final(session).finished()
                &&& final(self)@ == old(self)@
            },
            !old(session).finished() ==> {
                &&& step@ == step_for(old(self)@.hub.outcome(old(session).slot()))
                &&& final(session).finished() == (step@ == StepView::Finished)
                &&& final(self)@ == old(self)@.receive(old(session).slot())
            },
    {
        session.next(&mut self.hub)
    }

    /// Ends `session` because its peer has gone, and frees its slot.
    pub fn handle_disconnect(&mut self, session: StreamSession)
        requires
            old(self).wf(),
        ensures
            final(self).wf(),
            final(self).ttl() == old(self).ttl(),
            final(self).period() == old(self).period(),
            final(self)@ == old(self)@.unsubscribe(session.slot()),
    {
        session.close(&mut self.hub);
    }

    /// One wake-up of the idle reaper at the time `now`: removes the hub
    /// entries that are older than the service's time to live, and returns
    /// how many were removed.
    pub fn reap(&mut self, now: u64) -> (removed: usize)
        requires
            old(self).wf(),
        ensures
            final(self).wf(),
            final(self).ttl() == old(self).ttl(),
            final(self).period() == old(self).period(),
            final(self)@ == old(self)@.sweep(now as nat, old(self).ttl()),
            removed == old(self)@.hub.registry.len() - final(self)@.hub.registry.len(),
    {
        self.reaper.tick(&mut self.hub, now)
    }

    /// The time that the caller lets pass between two calls of `reap`.
    pub fn sweep_period(&self) -> (period: u64)
        ensures
            period == self.period(),
    {
        self.reaper.period()
    }

    /// Whether the hub holds an entry for `id`.
    pub fn has_channel(&self, id: &str) -> (present: bool)
        requires
            self.wf(),
        ensures
            present == self@.hub.registry.contains_key(id@),
    {
        self.hub.has_entry(id)
    }

    /// The number of entries that the hub holds.
    pub fn channel_count(&self) -> (count: usize)
        requires
            self.wf(),
        ensures
            count == self@.hub.registry.len(),
    {
        self.hub.entry_count()
    }
}

} // verus!

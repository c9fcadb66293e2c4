//! The stream session: what one subscriber connection does with what its
//! subscription yields.
//!
//! A session that finds messages lost goes on with the messages that are
//! left. It ends only when its subscription is closed, or when the caller
//! closes it because the peer has gone.

use crate::hub::{BroadcastHub, ReceiverHandle, RecvOutcome};
use crate::model::OutcomeView;
use crate::request::{CapturedRequest, RequestView};
use vstd::prelude::*;
use vstd::string::StringExecFns;

verus! {

/// The text of one live-update record that carries `payload`: the marker
/// `data: `, the payload, and an empty line.
pub open spec fn event_text(payload: Seq<char>) -> Seq<char> {
    "data: "@ + payload + "\n\n"@
}

/// Frames a serialized record as one live-update record.
pub fn event_record(payload: &str) -> (record: String)
    ensures
        record@ == event_text(payload@),
{
    let mut record = "data: ".to_owned();
    record.append(payload);
    record.append("\n\n");
    record
}

/// What a session does next.
pub enum StepView {
    /// Send this request to the peer.
    Emit(RequestView),
    /// This many messages were lost; go on with the next step.
    Skipped(nat),
    /// Nothing to send; wait for the next publish.
    Idle,
    /// The stream has ended.
    Finished,
}

/// The step that answers an outcome of the subscription.
pub open spec fn step_for(outcome: OutcomeView) -> StepView {
    match outcome {
        OutcomeView::Message(request) => StepView::Emit(request),
        OutcomeView::Lagged(missed) => StepView::Skipped(missed),
        OutcomeView::Empty => StepView::Idle,
        OutcomeView::Closed => StepView::Finished,
    }
}

/// What a session does next.
#[derive(Debug, PartialEq, Eq)]
pub enum StreamStep {
    /// Send this request to the peer.
    Emit(CapturedRequest),
    /// This many messages were lost; go on with the next step.
    Skipped(u64),
    /// Nothing to send; wait for the next publish.
    Idle,
    /// The stream has ended.
    Finished,
}

impl View for StreamStep {
    type V = StepView;

    open spec fn view(&self) -> StepView {
        match self {
            StreamStep::Emit(request) => StepView::Emit(request@),
            StreamStep::Skipped(missed) => StepView::Skipped(*missed as nat),
            StreamStep::Idle => StepView::Idle,
            StreamStep::Finished => StepView::Finished,
        }
    }
}

/// One subscriber connection, bound to one subscription of the hub. Once
/// finished it stays finished.
#[derive(Debug)]
pub struct StreamSession {
    handle: ReceiverHandle,
    finished: bool,
}

impl StreamSession {
    /// The slot of the hub that the session receives on.
    pub closed spec fn slot(&self) -> nat {
        self.handle.slot() as nat
    }

    /// Whether the stream has ended.
    pub closed spec fn finished(&self) -> bool {
        self.finished
    }

    /// A session on the subscription that `handle` names.
    pub fn open(handle: ReceiverHandle) -> (session: Self)
        ensures
            session.slot() == handle.slot() as nat,
            !session.finished(),
    {
        StreamSession { handle, finished: false }
    }

    /// Whether the stream has ended.
    pub fn is_finished(&self) -> (done: bool)
        ensures
            done == self.finished(),
    {
        self.finished
    }

    /// The slot of the hub that the session receives on.
    pub fn slot_index(&self) -> (slot: usize)
        ensures
            slot as nat == self.slot(),
    {
        self.handle.slot()
    }

    /// Advances the session by one receive on its subscription. A finished
    /// session answers `Finished` and leaves the hub alone. Otherwise the
    /// answer follows what the subscription yields, and the session is
    /// finished from the moment the subscription is closed.
    pub fn next(&mut self, hub: &mut BroadcastHub) -> (step: StreamStep)
        requires
            old(hub).wf(),
        ensures
            final(hub).wf(),
            final(self).slot() == old(self).slot(),
            old(self).finished() ==> {
                &&& step@ == StepView::Finished
                &&& final(self).finished()
                &&& final(hub)@ == old(hub)@
            },
            !old(self).finished() ==> {
                &&& step@ == step_for(old(hub)@.outcome(old(self).slot()))
                &&& final(self).finished() == (step@ == StepView::Finished)
                &&& final(hub)@ == old(hub)@.receive(old(self).slot())
            },
    {
        if self.finished {
            return StreamStep::Finished;
        }
        match hub.receive(&self.handle) {
            RecvOutcome::Message(request) => StreamStep::Emit(request),
            RecvOutcome::Lagged(missed) => StreamStep::Skipped(missed),
            RecvOutcome::Empty => StreamStep::Idle,
            RecvOutcome::Closed => {
                self.finished = true;
                StreamStep::Finished
            },
        }
    }

    /// Ends the session because the peer has gone: the subscription is given
    /// up and its slot becomes free.
    pub fn close(self, hub: &mut BroadcastHub)
        requires
            old(hub).wf(),
        ensures
            final(hub).wf(),
            final(hub)@ == old(hub)@.unsubscribe(self.slot()),
    {
        hub.unsubscribe(self.handle);
    }
}

} // verus!

//! A state put together from the parts that a state file holds.
use vstd::prelude::*;

use super::merge::{latest, latest_stamp};
use super::model::RuntimeState;
use super::view::StateView;
use crate::event::InboundEventRecord;
use crate::outbox::OutboundDeliveryRecord;
use crate::queue::{QueuedMessage, RunInputRecord};
use crate::run::RunRecord;
use crate::session::Session;

verus! {

/// What a state file holds.
#[derive(Debug, PartialEq, Eq)]
pub struct PersistedStateParts {
    pub sessions: Vec<Session>,
    pub runs: Vec<RunRecord>,
    pub run_inputs: Vec<RunInputRecord>,
    pub inbound_events: Vec<InboundEventRecord>,
    pub queued_messages: Vec<QueuedMessage>,
    pub outbound_deliveries: Vec<OutboundDeliveryRecord>,
    pub updated_at_unix: u64,
    pub normalize_aggregate_updated_at: bool,
}

impl PersistedStateParts {
    /// The state that the parts make, as they stand.
    pub open spec fn raw(self) -> StateView {
        StateView {
            sessions: crate::keyed::views(self.sessions@),
            runs: crate::keyed::views(self.runs@),
            run_inputs: crate::keyed::views(self.run_inputs@),
            inbound_events: crate::keyed::views(self.inbound_events@),
            queued_messages: crate::keyed::views(self.queued_messages@),
            outbound_deliveries: crate::keyed::views(self.outbound_deliveries@),
            updated_at_unix: self.updated_at_unix,
        }
    }
}

impl StateView {
    /// The latest time that any record of the state, or the state, was written.
    pub open spec fn latest_record_time(self) -> u64 {
        let sessions = latest(
            Seq::new(self.sessions.len(), |i: int| self.sessions[i].updated_at_unix),
            self.updated_at_unix,
        );
        let runs = latest(
            Seq::new(self.runs.len(), |i: int| self.runs[i].updated_at_unix),
            sessions,
        );
        let inputs = latest(
            Seq::new(self.run_inputs.len(), |i: int| self.run_inputs[i].claimed_at_unix),
            runs,
        );
        let events = latest(
            Seq::new(self.inbound_events.len(), |i: int| self.inbound_events[i].recorded_at_unix),
            inputs,
        );
        let deliveries = latest(
            Seq::new(
                self.outbound_deliveries.len(),
                |i: int| self.outbound_deliveries[i].updated_at_unix,
            ),
            events,
        );
        latest(
            Seq::new(self.queued_messages.len(), |i: int| self.queued_messages[i].enqueued_at_unix),
            deliveries,
        )
    }

    /// This state, last updated no earlier than any of its records.
    pub open spec fn normalized(self) -> StateView {
        StateView { updated_at_unix: self.latest_record_time(), ..self }
    }

    /// This state where it is valid, and otherwise what is wrong with it.
    pub open spec fn checked(self) -> Result<StateView, Seq<char>> {
        match self.fault() {
            Some(e) => Err(e),
            None => Ok(self),
        }
    }
}

/// A state comes out as `outcome` says.
pub open spec fn gives_state(
    r: Result<RuntimeState, String>,
    outcome: Result<StateView, Seq<char>>,
) -> bool {
    match r {
        Ok(state) => outcome == Ok::<StateView, Seq<char>>(state@),
        Err(e) => outcome == Err::<StateView, Seq<char>>(e@),
    }
}

impl RuntimeState {
    /// Moves the time of the last update forward to that of the latest record.
    fn normalize_migrated_aggregate_updated_at(&mut self)
        ensures
            final(self)@ == old(self)@.normalized(),
    {
        let ghost s = self@;
        proof {
            assert(super::merge::stamps::<Session>(s.sessions) =~= Seq::new(
                s.sessions.len(),
                |i: int| s.sessions[i].updated_at_unix,
            ));
            assert(super::merge::stamps::<RunRecord>(s.runs) =~= Seq::new(
                s.runs.len(),
                |i: int| s.runs[i].updated_at_unix,
            ));
            assert(super::merge::stamps::<RunInputRecord>(s.run_inputs) =~= Seq::new(
                s.run_inputs.len(),
                |i: int| s.run_inputs[i].claimed_at_unix,
            ));
            assert(super::merge::stamps::<InboundEventRecord>(s.inbound_events) =~= Seq::new(
                s.inbound_events.len(),
                |i: int| s.inbound_events[i].recorded_at_unix,
            ));
            assert(super::merge::stamps::<OutboundDeliveryRecord>(s.outbound_deliveries)
                =~= Seq::new(
                s.outbound_deliveries.len(),
                |i: int| s.outbound_deliveries[i].updated_at_unix,
            ));
            assert(super::merge::stamps::<QueuedMessage>(s.queued_messages) =~= Seq::new(
                s.queued_messages.len(),
                |i: int| s.queued_messages[i].enqueued_at_unix,
            ));
        }
        let sessions: u64 = latest_stamp(&self.sessions, self.updated_at_unix);
        let runs: u64 = latest_stamp(&self.runs, sessions);
        let inputs: u64 = latest_stamp(&self.run_inputs, runs);
        let events: u64 = latest_stamp(&self.inbound_events, inputs);
        let deliveries: u64 = latest_stamp(&self.outbound_deliveries, events);
        self.updated_at_unix = latest_stamp(&self.queued_messages, deliveries);
    }

    /// The state that the parts make, where it is valid.
    pub fn from_persisted_parts(parts: PersistedStateParts) -> (r: Result<RuntimeState, String>)
        ensures
            gives_state(
                r,
                if parts.normalize_aggregate_updated_at {
                    parts.raw().normalized().checked()
                } else {
                    parts.raw().checked()
                },
            ),
    {
        let normalize = parts.normalize_aggregate_updated_at;
        let mut state = RuntimeState {
            sessions: parts.sessions,
            runs: parts.runs,
            run_inputs: parts.run_inputs,
            inbound_events: parts.inbound_events,
            queued_messages: parts.queued_messages,
            outbound_deliveries: parts.outbound_deliveries,
            updated_at_unix: parts.updated_at_unix,
        };
        if normalize {
            state.normalize_migrated_aggregate_updated_at();
        }
        match state.validate() {
            Ok(()) => Ok(state),
            Err(e) => Err(e),
        }
    }
}

/// The latest time is one of the times, and none of them is later.
pub proof fn lemma_latest(times: Seq<u64>, base: u64)
    ensures
        base <= latest(times, base),
        forall|i: int| 0 <= i < times.len() ==> #[trigger] times[i] <= latest(times, base),
        latest(times, base) == base || times.contains(latest(times, base)),
    decreases times.len(),
{
    if times.len() > 0 {
        let front = times.drop_last();
        lemma_latest(front, base);
        assert forall|i: int| 0 <= i < times.len() implies #[trigger] times[i] <= latest(
            times,
            base,
        ) by {
            if i < front.len() {
                assert(front[i] == times[i]);
            }
        }
        if latest(times, base) == times.last() {
            assert(times[times.len() - 1] == times.last());
        } else if latest(front, base) != base {
            let i = front.index_of(latest(front, base));
            assert(times[i] == front[i]);
        }
    }
}

/// Normalizing a state moves its last update forward to that of its latest record,
/// and changes nothing else: where the records are in order the state is valid.
pub proof fn law_normalizing_covers_every_record(s: StateView)
    ensures
        ({
            let t = s.normalized();
            &&& t == (StateView { updated_at_unix: t.updated_at_unix, ..s })
            &&& s.updated_at_unix <= t.updated_at_unix
            &&& forall|i: int|
                0 <= i < s.sessions.len() ==> (#[trigger] s.sessions[i]).updated_at_unix
                    <= t.updated_at_unix
            &&& forall|i: int|
                0 <= i < s.runs.len() ==> (#[trigger] s.runs[i]).updated_at_unix
                    <= t.updated_at_unix
            &&& forall|i: int|
                0 <= i < s.run_inputs.len() ==> (#[trigger] s.run_inputs[i]).claimed_at_unix
                    <= t.updated_at_unix
            &&& forall|i: int|
                0 <= i < s.inbound_events.len() ==> (
                #[trigger] s.inbound_events[i]).recorded_at_unix <= t.updated_at_unix
            &&& forall|i: int|
                0 <= i < s.outbound_deliveries.len() ==> (
                #[trigger] s.outbound_deliveries[i]).updated_at_unix <= t.updated_at_unix
            &&& forall|i: int|
                0 <= i < s.queued_messages.len() ==> (
                #[trigger] s.queued_messages[i]).enqueued_at_unix <= t.updated_at_unix
        }),
        s.valid() ==> s.normalized() == s,
{
    let sessions = Seq::new(s.sessions.len(), |i: int| s.sessions[i].updated_at_unix);
    let runs = Seq::new(s.runs.len(), |i: int| s.runs[i].updated_at_unix);
    let inputs = Seq::new(s.run_inputs.len(), |i: int| s.run_inputs[i].claimed_at_unix);
    let events = Seq::new(s.inbound_events.len(), |i: int| s.inbound_events[i].recorded_at_unix);
    let deliveries = Seq::new(
        s.outbound_deliveries.len(),
        |i: int| s.outbound_deliveries[i].updated_at_unix,
    );
    let queue = Seq::new(s.queued_messages.len(), |i: int| s.queued_messages[i].enqueued_at_unix);
    let after_sessions = latest(sessions, s.updated_at_unix);
    let after_runs = latest(runs, after_sessions);
    let after_inputs = latest(inputs, after_runs);
    let after_events = latest(events, after_inputs);
    let after_deliveries = latest(deliveries, after_events);
    lemma_latest(sessions, s.updated_at_unix);
    lemma_latest(runs, after_sessions);
    lemma_latest(inputs, after_runs);
    lemma_latest(events, after_inputs);
    lemma_latest(deliveries, after_events);
    lemma_latest(queue, after_deliveries);
    assert(forall|i: int| 0 <= i < sessions.len() ==> sessions[i] == (
    #[trigger] s.sessions[i]).updated_at_unix);
    assert(forall|i: int| 0 <= i < runs.len() ==> runs[i] == (
    #[trigger] s.runs[i]).updated_at_unix);
    assert(forall|i: int| 0 <= i < inputs.len() ==> inputs[i] == (
    #[trigger] s.run_inputs[i]).claimed_at_unix);
    assert(forall|i: int| 0 <= i < events.len() ==> events[i] == (
    #[trigger] s.inbound_events[i]).recorded_at_unix);
    assert(forall|i: int| 0 <= i < deliveries.len() ==> deliveries[i] == (
    #[trigger] s.outbound_deliveries[i]).updated_at_unix);
    assert(forall|i: int| 0 <= i < queue.len() ==> queue[i] == (
    #[trigger] s.queued_messages[i]).enqueued_at_unix);
    if s.valid() {
        lemma_no_later(sessions, s.updated_at_unix);
        lemma_no_later(runs, after_sessions);
        lemma_no_later(inputs, after_runs);
        lemma_no_later(events, after_inputs);
        lemma_no_later(deliveries, after_events);
        lemma_no_later(queue, after_deliveries);
    }
}

/// The time of a normalized state is that which the state had, or that of one of
/// its records.
pub proof fn law_normalizing_takes_a_record_time(s: StateView)
    ensures
        ({
            let t = s.normalized().updated_at_unix;
            ||| t == s.updated_at_unix
            ||| exists|i: int|
                0 <= i < s.sessions.len() && (#[trigger] s.sessions[i]).updated_at_unix == t
            ||| exists|i: int| 0 <= i < s.runs.len() && (#[trigger] s.runs[i]).updated_at_unix == t
            ||| exists|i: int|
                0 <= i < s.run_inputs.len() && (#[trigger] s.run_inputs[i]).claimed_at_unix == t
            ||| exists|i: int|
                0 <= i < s.inbound_events.len() && (#[trigger] s.inbound_events[i]).recorded_at_unix
                    == t
            ||| exists|i: int|
                0 <= i < s.outbound_deliveries.len() && (
                #[trigger] s.outbound_deliveries[i]).updated_at_unix == t
            ||| exists|i: int|
                0 <= i < s.queued_messages.len() && (
                #[trigger] s.queued_messages[i]).enqueued_at_unix == t
        }),
{
    let sessions = Seq::new(s.sessions.len(), |i: int| s.sessions[i].updated_at_unix);
    let runs = Seq::new(s.runs.len(), |i: int| s.runs[i].updated_at_unix);
    let inputs = Seq::new(s.run_inputs.len(), |i: int| s.run_inputs[i].claimed_at_unix);
    let events = Seq::new(s.inbound_events.len(), |i: int| s.inbound_events[i].recorded_at_unix);
    let deliveries = Seq::new(
        s.outbound_deliveries.len(),
        |i: int| s.outbound_deliveries[i].updated_at_unix,
    );
    let queue = Seq::new(s.queued_messages.len(), |i: int| s.queued_messages[i].enqueued_at_unix);
    let after_sessions = latest(sessions, s.updated_at_unix);
    let after_runs = latest(runs, after_sessions);
    let after_inputs = latest(inputs, after_runs);
    let after_events = latest(events, after_inputs);
    let after_deliveries = latest(deliveries, after_events);
    lemma_latest(sessions, s.updated_at_unix);
    lemma_latest(runs, after_sessions);
    lemma_latest(inputs, after_runs);
    lemma_latest(events, after_inputs);
    lemma_latest(deliveries, after_events);
    lemma_latest(queue, after_deliveries);
    let t = s.normalized().updated_at_unix;
    if t != after_deliveries {
        let i = queue.index_of(t);
        assert(s.queued_messages[i].enqueued_at_unix == t);
    } else if t != after_events {
        let i = deliveries.index_of(t);
        assert(s.outbound_deliveries[i].updated_at_unix == t);
    } else if t != after_inputs {
        let i = events.index_of(t);
        assert(s.inbound_events[i].recorded_at_unix == t);
    } else if t != after_runs {
        let i = inputs.index_of(t);
        assert(s.run_inputs[i].claimed_at_unix == t);
    } else if t != after_sessions {
        let i = runs.index_of(t);
        assert(s.runs[i].updated_at_unix == t);
    } else if t != s.updated_at_unix {
        let i = sessions.index_of(t);
        assert(s.sessions[i].updated_at_unix == t);
    }
}

/// Where no time is later than `base`, `base` is the latest.
pub proof fn lemma_no_later(times: Seq<u64>, base: u64)
    requires
        forall|i: int| 0 <= i < times.len() ==> #[trigger] times[i] <= base,
    ensures
        latest(times, base) == base,
{
    lemma_latest(times, base);
}

} // verus!

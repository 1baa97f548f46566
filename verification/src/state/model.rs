//! The runtime state as a value, and reading from it.
use vstd::prelude::*;

use super::view::{ClaimedView, StateView};
use crate::event::{EventId, InboundEventRecord};
use crate::keyed::{find_record, Record};
use crate::outbox::{OutboundDeliveryId, OutboundDeliveryRecord};
use crate::queue::{MessageQueuePoll, MessageQueuePolicy, QueuedMessage, RunInputRecord};
use crate::run::{RunId, RunRecord};
use crate::session::{Session, SessionId};

verus! {

/// Everything that the runtime keeps across restarts.
#[derive(Debug, PartialEq, Eq)]
pub struct RuntimeState {
    pub sessions: Vec<Session>,
    pub runs: Vec<RunRecord>,
    pub run_inputs: Vec<RunInputRecord>,
    pub inbound_events: Vec<InboundEventRecord>,
    pub queued_messages: Vec<QueuedMessage>,
    pub outbound_deliveries: Vec<OutboundDeliveryRecord>,
    pub updated_at_unix: u64,
}

impl View for RuntimeState {
    type V = StateView;

    open spec fn view(&self) -> StateView {
        StateView {
            sessions: crate::keyed::views(self.sessions@),
            runs: crate::keyed::views(self.runs@),
            run_inputs: crate::keyed::views(self.run_inputs@),
            inbound_events: crate::keyed::views(self.inbound_events@),
            queued_messages: crate::keyed::views(self.queued_messages@),
            outbound_deliveries: crate::keyed::views(self.outbound_deliveries@),
            updated_at_unix: self.updated_at_unix,
        }
    }
}

impl Clone for RuntimeState {
    fn clone(&self) -> (r: Self)
        ensures
            r@ == self@,
    {
        let r = RuntimeState {
            sessions: self.sessions.clone(),
            runs: self.runs.clone(),
            run_inputs: self.run_inputs.clone(),
            inbound_events: self.inbound_events.clone(),
            queued_messages: self.queued_messages.clone(),
            outbound_deliveries: self.outbound_deliveries.clone(),
            updated_at_unix: self.updated_at_unix,
        };
        assert(r@ =~= self@);
        r
    }
}

/// A message that a run has taken, with the session of that run.
pub struct ClaimedMessage<'a> {
    pub session_id: &'a SessionId,
    pub message: &'a QueuedMessage,
}

impl<'a> View for ClaimedMessage<'a> {
    type V = ClaimedView;

    open spec fn view(&self) -> ClaimedView {
        ClaimedView { session_id: self.session_id@, message: self.message@ }
    }
}

impl<'a> Record for ClaimedMessage<'a> {
    fn key_text(&self) -> (r: &String) {
        &self.message.event_id.text
    }
}

/// What a search for a record gives.
pub open spec fn found<T: View>(r: Option<&T>, model: Option<T::V>) -> bool {
    match r {
        Some(item) => model == Some(item@),
        None => model is None,
    }
}

impl RuntimeState {
    /// The session under an id.
    pub fn session(&self, id: &SessionId) -> (r: Option<&Session>)
        ensures
            found(r, crate::keyed::lookup(self@.sessions, id@)),
    {
        match find_record(&self.sessions, &id.text) {
            Some(i) => Some(&self.sessions[i]),
            None => None,
        }
    }

    /// The run under an id.
    pub fn run(&self, id: &RunId) -> (r: Option<&RunRecord>)
        ensures
            found(r, crate::keyed::lookup(self@.runs, id@)),
    {
        match find_record(&self.runs, &id.text) {
            Some(i) => Some(&self.runs[i]),
            None => None,
        }
    }

    /// The messages that a run has taken.
    pub fn run_input(&self, id: &RunId) -> (r: Option<&RunInputRecord>)
        ensures
            found(r, crate::keyed::lookup(self@.run_inputs, id@)),
    {
        match find_record(&self.run_inputs, &id.text) {
            Some(i) => Some(&self.run_inputs[i]),
            None => None,
        }
    }

    /// The ledger entry of an event.
    pub fn inbound_event(&self, id: &EventId) -> (r: Option<&InboundEventRecord>)
        ensures
            found(r, crate::keyed::lookup(self@.inbound_events, id@)),
    {
        match find_record(&self.inbound_events, &id.text) {
            Some(i) => Some(&self.inbound_events[i]),
            None => None,
        }
    }

    /// Whether an event is in the ledger.
    pub fn has_inbound_event(&self, id: &EventId) -> (r: bool)
        ensures
            r == crate::keyed::has_key(self@.inbound_events, id@),
    {
        self.inbound_event(id).is_some()
    }

    /// The delivery under an id.
    pub fn outbound_delivery(&self, id: &OutboundDeliveryId) -> (r: Option<
        &OutboundDeliveryRecord,
    >)
        ensures
            found(r, crate::keyed::lookup(self@.outbound_deliveries, id@)),
    {
        match find_record(&self.outbound_deliveries, &id.text) {
            Some(i) => Some(&self.outbound_deliveries[i]),
            None => None,
        }
    }

    pub fn sessions(&self) -> (r: &[Session])
        ensures
            crate::keyed::views(r@) == self@.sessions,
    {
        self.sessions.as_slice()
    }

    pub fn runs(&self) -> (r: &[RunRecord])
        ensures
            crate::keyed::views(r@) == self@.runs,
    {
        self.runs.as_slice()
    }

    pub fn run_inputs(&self) -> (r: &[RunInputRecord])
        ensures
            crate::keyed::views(r@) == self@.run_inputs,
    {
        self.run_inputs.as_slice()
    }

    pub fn inbound_events(&self) -> (r: &[InboundEventRecord])
        ensures
            crate::keyed::views(r@) == self@.inbound_events,
    {
        self.inbound_events.as_slice()
    }

    pub fn queued_messages(&self) -> (r: &[QueuedMessage])
        ensures
            crate::keyed::views(r@) == self@.queued_messages,
    {
        self.queued_messages.as_slice()
    }

    pub fn outbound_deliveries(&self) -> (r: &[OutboundDeliveryRecord])
        ensures
            crate::keyed::views(r@) == self@.outbound_deliveries,
    {
        self.outbound_deliveries.as_slice()
    }

    pub fn updated_at_unix(&self) -> (r: u64)
        ensures
            r == self@.updated_at_unix,
    {
        self.updated_at_unix
    }

    /// Polls the message queue.
    pub fn poll_message_queue(
        &self,
        policy: &MessageQueuePolicy,
        now_unix: u64,
    ) -> (r: MessageQueuePoll)
        ensures
            r@ == policy.polled(self@.queued_messages, now_unix, Seq::empty()),
    {
        policy.poll(&self.queued_messages, now_unix)
    }

    /// The messages that runs have taken, in order.
    pub(crate) fn claimed_messages(&self) -> (r: Vec<ClaimedMessage<'_>>)
        ensures
            crate::keyed::views(r@) == super::view::claims(self@.run_inputs),
    {
        let ghost inputs = self@.run_inputs;
        let mut all: Vec<ClaimedMessage<'_>> = Vec::new();
        assert(crate::keyed::views(all@) =~= super::view::claims(inputs.take(0)));
        let mut k: usize = 0;
        while k < self.run_inputs.len()
            invariant
                k <= self.run_inputs@.len(),
                inputs == self@.run_inputs,
                crate::keyed::views(all@) == super::view::claims(inputs.take(k as int)),
            decreases self.run_inputs@.len() - k,
        {
            let input = &self.run_inputs[k];
            let ghost head = crate::keyed::views(all@);
            let ghost of_input = super::view::claims_of(inputs[k as int]);
            let mut j: usize = 0;
            assert(crate::keyed::views(all@) =~= head + of_input.take(0));
            while j < input.messages.len()
                invariant
                    j <= input.messages@.len(),
                    of_input == super::view::claims_of(input@),
                    crate::keyed::views(all@) == head + of_input.take(j as int),
                decreases input.messages@.len() - j,
            {
                let ghost before = all@;
                all.push(
                    ClaimedMessage { session_id: &input.session_id, message: &input.messages[j] },
                );
                j = j + 1;
                assert(crate::keyed::views(all@) =~= crate::keyed::views(before).push(
                    of_input[j - 1],
                ));
                assert(of_input.take(j as int) =~= of_input.take(j - 1).push(of_input[j - 1]));
            }
            assert(of_input.take(of_input.len() as int) =~= of_input);
            proof {
                super::validity::lemma_claims_step(inputs, k as int);
            }
            k = k + 1;
        }
        assert(inputs.take(inputs.len() as int) =~= inputs);
        all
    }
}

} // verus!

//! The model of the runtime state, and what makes a state valid.
use vstd::prelude::*;

use crate::event::EventRecordView;
use crate::keyed::{distinct_keys, find_key, has_key, lookup, Keyed};
use crate::outbox::DeliveryView;
use crate::queue::{QueuedView, RunInputView};
use crate::run::RunView;
use crate::session::SessionView;

verus! {

/// The model of a runtime state.
#[verifier::ext_equal]
pub struct StateView {
    pub sessions: Seq<SessionView>,
    pub runs: Seq<RunView>,
    pub run_inputs: Seq<RunInputView>,
    pub inbound_events: Seq<EventRecordView>,
    pub queued_messages: Seq<QueuedView>,
    pub outbound_deliveries: Seq<DeliveryView>,
    pub updated_at_unix: u64,
}

/// A message that a run has taken out of the queue of a session.
#[verifier::ext_equal]
pub struct ClaimedView {
    pub session_id: Seq<char>,
    pub message: QueuedView,
}

impl Keyed for ClaimedView {
    open spec fn key(self) -> Seq<char> {
        self.message.event_id
    }
}

/// The messages that one run has taken, in order.
pub open spec fn claims_of(input: RunInputView) -> Seq<ClaimedView> {
    Seq::new(
        input.messages.len(),
        |i: int| ClaimedView { session_id: input.session_id, message: input.messages[i] },
    )
}

/// The messages that all runs have taken, in order.
pub open spec fn claims(inputs: Seq<RunInputView>) -> Seq<ClaimedView>
    decreases inputs.len(),
{
    if inputs.len() == 0 {
        Seq::empty()
    } else {
        claims(inputs.drop_last()) + claims_of(inputs.last())
    }
}

/// The messages taken before message `j` of input `k`.
pub open spec fn claims_before(inputs: Seq<RunInputView>, k: int, j: int) -> Seq<ClaimedView> {
    claims(inputs.take(k)) + claims_of(inputs[k]).take(j)
}

/// The position of the first active run of a session.
pub open spec fn active_run(runs: Seq<RunView>, session_id: Seq<char>) -> Option<int>
    decreases runs.len(),
{
    if runs.len() == 0 {
        None
    } else {
        match active_run(runs.drop_last(), session_id) {
            Some(i) => Some(i),
            None => if runs.last().active() && runs.last().session_id == session_id {
                Some(runs.len() - 1)
            } else {
                None
            },
        }
    }
}

impl StateView {
    /// Where the ledger holds an event, or -1.
    pub open spec fn position(self, event_id: Seq<char>) -> int {
        match find_key(self.inbound_events, event_id) {
            Some(p) => p,
            None => -1,
        }
    }

    // ------------------------------------------------------------ faults

    /// What is wrong with the session at `i`.
    pub open spec fn session_fault(self, i: int) -> Option<Seq<char>> {
        let session = self.sessions[i];
        if session.flaw() is Some {
            session.flaw()
        } else if has_key(self.sessions.take(i), session.id) {
            Some("duplicate session id "@ + session.id)
        } else if self.updated_at_unix < session.updated_at_unix {
            Some(
                "runtime state updated_at_unix before session "@ + session.id
                    + " updated_at_unix"@,
            )
        } else {
            None
        }
    }

    /// A run refers to a session that is not there.
    pub open spec fn run_session_fault(self, run: RunView) -> Option<Seq<char>> {
        if has_key(self.sessions, run.session_id) {
            None
        } else {
            Some("run "@ + run.id + " references unknown session "@ + run.session_id)
        }
    }

    /// What is wrong with the run at `i`.
    pub open spec fn run_fault(self, i: int) -> Option<Seq<char>> {
        let run = self.runs[i];
        if run.flaw() is Some {
            run.flaw()
        } else if self.run_session_fault(run) is Some {
            self.run_session_fault(run)
        } else if has_key(self.runs.take(i), run.id) {
            Some("duplicate run id "@ + run.id)
        } else if run.active() && active_run(self.runs.take(i), run.session_id) is Some {
            let other = self.runs[active_run(self.runs.take(i), run.session_id)->Some_0];
            Some(
                "session "@ + run.session_id + " has multiple active runs "@ + other.id + (" and "@
                    + run.id),
            )
        } else if self.updated_at_unix < run.updated_at_unix {
            Some("runtime state updated_at_unix before run "@ + run.id + " updated_at_unix"@)
        } else {
            None
        }
    }

    /// What is wrong with the ledger entry at `i`.
    pub open spec fn event_fault(self, i: int) -> Option<Seq<char>> {
        let event = self.inbound_events[i];
        if event.flaw() is Some {
            event.flaw()
        } else if has_key(self.inbound_events.take(i), event.id) {
            Some("duplicate inbound event id "@ + event.id)
        } else if self.updated_at_unix < event.recorded_at_unix {
            Some(
                "runtime state updated_at_unix before inbound event "@ + event.id
                    + " recorded_at_unix"@,
            )
        } else {
            None
        }
    }

    /// A delivery refers to a session that is not there.
    pub open spec fn delivery_session_fault(self, delivery: DeliveryView) -> Option<Seq<char>> {
        if has_key(self.sessions, delivery.session_id) {
            None
        } else {
            Some(
                "outbound delivery "@ + delivery.id + " references unknown session "@
                    + delivery.session_id,
            )
        }
    }

    /// What is wrong with the delivery at `i`.
    pub open spec fn delivery_fault(self, i: int) -> Option<Seq<char>> {
        let delivery = self.outbound_deliveries[i];
        if delivery.flaw() is Some {
            delivery.flaw()
        } else if has_key(self.outbound_deliveries.take(i), delivery.id) {
            Some("duplicate outbound delivery id "@ + delivery.id)
        } else if self.delivery_session_fault(delivery) is Some {
            self.delivery_session_fault(delivery)
        } else if self.updated_at_unix < delivery.updated_at_unix {
            Some(
                "runtime state updated_at_unix before outbound delivery "@ + delivery.id
                    + " updated_at_unix"@,
            )
        } else {
            None
        }
    }

    /// An earlier queue entry stands at or behind `position` in the ledger.
    pub open spec fn queue_overtakes(self, i: int, position: int) -> bool {
        exists|j: int|
            0 <= j < i && self.position((#[trigger] self.queued_messages[j]).event_id) >= position
    }

    /// An earlier queue entry of the same session was queued later.
    pub open spec fn queue_time_drops(self, i: int) -> bool {
        exists|j: int|
            {
                &&& 0 <= j < i
                &&& (#[trigger] self.queued_messages[j]).session_id
                    == self.queued_messages[i].session_id
                &&& self.queued_messages[j].enqueued_at_unix
                    > self.queued_messages[i].enqueued_at_unix
            }
    }

    /// What is wrong with the queue entry at `i`.
    pub open spec fn queued_fault(self, i: int) -> Option<Seq<char>> {
        let queued = self.queued_messages[i];
        let event = self.inbound_events[self.position(queued.event_id)];
        if queued.flaw() is Some {
            queued.flaw()
        } else if has_key(self.queued_messages.take(i), queued.event_id) {
            Some("duplicate queued inbound event id "@ + queued.event_id)
        } else if !has_key(self.inbound_events, queued.event_id) {
            Some("queued message event "@ + queued.event_id + " has no inbound event record"@)
        } else if self.queue_overtakes(i, self.position(queued.event_id)) {
            Some("queued message event "@ + queued.event_id + " is out of inbound ledger order"@)
        } else if queued.received_at_unix != event.received_at_unix {
            Some(
                "queued message event "@ + queued.event_id
                    + " does not match inbound event received_at_unix"@,
            )
        } else if queued.enqueued_at_unix < event.recorded_at_unix {
            Some(
                "queued message event "@ + queued.event_id
                    + " has enqueued_at_unix before inbound event recorded_at_unix"@,
            )
        } else if !has_key(self.sessions, queued.session_id) {
            Some(
                "queued message event "@ + queued.event_id + " references unknown session "@
                    + queued.session_id,
            )
        } else if self.queue_time_drops(i) {
            Some(
                "queued messages for session "@ + queued.session_id
                    + " are not ordered by enqueued_at_unix"@,
            )
        } else if self.updated_at_unix < queued.enqueued_at_unix {
            Some(
                "runtime state updated_at_unix before queued message event "@ + queued.event_id
                    + " enqueued_at_unix"@,
            )
        } else {
            None
        }
    }

    /// One of the messages taken `before` for a session was queued after `at`.
    pub open spec fn claim_time_drops(
        self,
        before: Seq<ClaimedView>,
        session_id: Seq<char>,
        at: u64,
    ) -> bool {
        exists|i: int|
            {
                &&& 0 <= i < before.len()
                &&& (#[trigger] before[i]).session_id == session_id
                &&& before[i].message.enqueued_at_unix > at
            }
    }

    /// One of the messages taken `before` for a session stands at or behind
    /// `position` in the ledger.
    pub open spec fn claim_overtakes(
        self,
        before: Seq<ClaimedView>,
        session_id: Seq<char>,
        position: int,
    ) -> bool {
        exists|i: int|
            {
                &&& 0 <= i < before.len()
                &&& (#[trigger] before[i]).session_id == session_id
                &&& self.position(before[i].message.event_id) >= position
            }
    }

    /// What is wrong with message `j` of the run input at `k`.
    pub open spec fn claim_fault(self, k: int, j: int) -> Option<Seq<char>> {
        let input = self.run_inputs[k];
        let message = input.messages[j];
        let before = claims_before(self.run_inputs, k, j);
        let event = self.inbound_events[self.position(message.event_id)];
        let named = "run input "@ + input.run_id + " message event "@ + message.event_id;
        if has_key(self.queued_messages, message.event_id) {
            Some(
                "run input "@ + input.run_id + " event "@ + message.event_id
                    + " is still present in the message queue"@,
            )
        } else if has_key(before, message.event_id) {
            Some(
                "queued message event "@ + message.event_id + " is claimed by multiple runs"@,
            )
        } else if !has_key(self.inbound_events, message.event_id) {
            Some(named + " has no inbound event record"@)
        } else if message.received_at_unix != event.received_at_unix {
            Some(named + " does not match inbound event received_at_unix"@)
        } else if message.enqueued_at_unix < event.recorded_at_unix {
            Some(named + " was enqueued before its inbound event record"@)
        } else if self.claim_time_drops(before, input.session_id, message.enqueued_at_unix) {
            Some(named + " is out of session enqueue order"@)
        } else if self.claim_overtakes(
            before,
            input.session_id,
            self.position(message.event_id),
        ) {
            Some(named + " is out of session ownership order"@)
        } else {
            None
        }
    }

    /// What is wrong with the run input at `k`, its messages aside.
    pub open spec fn input_head_fault(self, k: int) -> Option<Seq<char>> {
        let input = self.run_inputs[k];
        let run = lookup(self.runs, input.run_id)->Some_0;
        if input.flaw() is Some {
            input.flaw()
        } else if has_key(self.run_inputs.take(k), input.run_id) {
            Some("duplicate run input id "@ + input.run_id)
        } else if !has_key(self.runs, input.run_id) {
            Some("run input "@ + input.run_id + " references unknown run"@)
        } else if run.session_id != input.session_id {
            Some("run input "@ + input.run_id + " does not match run session "@ + run.session_id)
        } else if run.created_at_unix != input.claimed_at_unix {
            Some(
                "run input "@ + input.run_id
                    + " claimed_at_unix does not match run created_at_unix"@,
            )
        } else {
            None
        }
    }

    /// The run input at `k` is newer than the state.
    pub open spec fn input_time_fault(self, k: int) -> Option<Seq<char>> {
        let input = self.run_inputs[k];
        if self.updated_at_unix < input.claimed_at_unix {
            Some(
                "runtime state updated_at_unix before run input "@ + input.run_id
                    + " claimed_at_unix"@,
            )
        } else {
            None
        }
    }

    /// What is wrong with the run input at `k`.
    pub open spec fn input_fault(self, k: int) -> Option<Seq<char>> {
        crate::fault::first_of(
            self.input_head_fault(k),
            crate::fault::first_of(
                crate::fault::first_fault(
                    self.run_inputs[k].messages.len(),
                    |j: int| self.claim_fault(k, j),
                ),
                self.input_time_fault(k),
            ),
        )
    }

    /// How the queue entry at `i` clashes with messages that were taken earlier.
    pub open spec fn handover_fault(self, i: int) -> Option<Seq<char>> {
        let queued = self.queued_messages[i];
        let taken = claims(self.run_inputs);
        if self.claim_time_drops(taken, queued.session_id, queued.enqueued_at_unix) {
            Some(
                "queued message event "@ + queued.event_id
                    + " is before already claimed enqueue time for session "@ + queued.session_id,
            )
        } else if self.claim_overtakes(
            taken,
            queued.session_id,
            self.position(queued.event_id),
        ) {
            Some(
                "queued message event "@ + queued.event_id
                    + " is before already claimed work for session "@ + queued.session_id,
            )
        } else {
            None
        }
    }

    pub open spec fn sessions_fault(self) -> Option<Seq<char>> {
        crate::fault::first_fault(self.sessions.len(), |i: int| self.session_fault(i))
    }

    pub open spec fn runs_fault(self) -> Option<Seq<char>> {
        crate::fault::first_fault(self.runs.len(), |i: int| self.run_fault(i))
    }

    pub open spec fn events_fault(self) -> Option<Seq<char>> {
        crate::fault::first_fault(self.inbound_events.len(), |i: int| self.event_fault(i))
    }

    pub open spec fn deliveries_fault(self) -> Option<Seq<char>> {
        crate::fault::first_fault(self.outbound_deliveries.len(), |i: int| self.delivery_fault(i))
    }

    pub open spec fn queue_fault(self) -> Option<Seq<char>> {
        crate::fault::first_fault(self.queued_messages.len(), |i: int| self.queued_fault(i))
    }

    pub open spec fn inputs_fault(self) -> Option<Seq<char>> {
        crate::fault::first_fault(self.run_inputs.len(), |i: int| self.input_fault(i))
    }

    pub open spec fn handovers_fault(self) -> Option<Seq<char>> {
        crate::fault::first_fault(self.queued_messages.len(), |i: int| self.handover_fault(i))
    }

    /// The first thing that is wrong with this state: sessions are looked at
    /// first, and after them the runs, the ledger, the deliveries, the queue, the
    /// run inputs, and last how the queue follows the run inputs.
    pub open spec fn fault(self) -> Option<Seq<char>> {
        crate::fault::first_of(
            self.sessions_fault(),
            crate::fault::first_of(
                self.runs_fault(),
                crate::fault::first_of(
                    self.events_fault(),
                    crate::fault::first_of(
                        self.deliveries_fault(),
                        crate::fault::first_of(
                            self.queue_fault(),
                            crate::fault::first_of(self.inputs_fault(), self.handovers_fault()),
                        ),
                    ),
                ),
            ),
        )
    }

    // ---------------------------------------------------------- validity

    /// Sessions are sound, distinct, and not newer than the state.
    pub open spec fn sessions_sound(self) -> bool {
        &&& distinct_keys(self.sessions)
        &&& forall|i: int|
            0 <= i < self.sessions.len() ==> {
                &&& (#[trigger] self.sessions[i]).flaw() is None
                &&& self.sessions[i].updated_at_unix <= self.updated_at_unix
            }
    }

    /// Runs are sound, distinct, of known sessions, not newer than the state, and
    /// no session has two active runs.
    pub open spec fn runs_sound(self) -> bool {
        &&& distinct_keys(self.runs)
        &&& forall|i: int|
            0 <= i < self.runs.len() ==> {
                &&& (#[trigger] self.runs[i]).flaw() is None
                &&& has_key(self.sessions, self.runs[i].session_id)
                &&& self.runs[i].updated_at_unix <= self.updated_at_unix
            }
        &&& self.one_active_run_per_session()
    }

    /// No session has two active runs.
    pub open spec fn one_active_run_per_session(self) -> bool {
        forall|i: int, j: int|
            0 <= i < j < self.runs.len() && (#[trigger] self.runs[i]).active() && (
            #[trigger] self.runs[j]).active() ==> self.runs[i].session_id
                != self.runs[j].session_id
    }

    /// Ledger entries are sound, distinct, and not newer than the state.
    pub open spec fn events_sound(self) -> bool {
        &&& distinct_keys(self.inbound_events)
        &&& forall|i: int|
            0 <= i < self.inbound_events.len() ==> {
                &&& (#[trigger] self.inbound_events[i]).flaw() is None
                &&& self.inbound_events[i].recorded_at_unix <= self.updated_at_unix
            }
    }

    /// Deliveries are sound, distinct, of known sessions, and not newer than the
    /// state.
    pub open spec fn deliveries_sound(self) -> bool {
        &&& distinct_keys(self.outbound_deliveries)
        &&& forall|i: int|
            0 <= i < self.outbound_deliveries.len() ==> {
                &&& (#[trigger] self.outbound_deliveries[i]).flaw() is None
                &&& has_key(self.sessions, self.outbound_deliveries[i].session_id)
                &&& self.outbound_deliveries[i].updated_at_unix <= self.updated_at_unix
            }
    }

    /// A queued message agrees with the ledger entry of its event.
    pub open spec fn backed(self, message: QueuedView) -> bool {
        &&& has_key(self.inbound_events, message.event_id)
        &&& message.received_at_unix == self.inbound_events[self.position(
            message.event_id,
        )].received_at_unix
        &&& self.inbound_events[self.position(message.event_id)].recorded_at_unix
            <= message.enqueued_at_unix
    }

    /// Queue entries are sound, agree with the ledger, are of known sessions, are
    /// not newer than the state, stand in ledger order, and in order of time
    /// within each session.
    pub open spec fn queue_sound(self) -> bool {
        &&& forall|i: int|
            0 <= i < self.queued_messages.len() ==> {
                &&& (#[trigger] self.queued_messages[i]).flaw() is None
                &&& self.backed(self.queued_messages[i])
                &&& has_key(self.sessions, self.queued_messages[i].session_id)
                &&& self.queued_messages[i].enqueued_at_unix <= self.updated_at_unix
            }
        &&& self.queue_ordered()
    }

    /// Queue entries stand in ledger order, and in order of time within each
    /// session.
    pub open spec fn queue_ordered(self) -> bool {
        forall|i: int, j: int|
            0 <= i < j < self.queued_messages.len() ==> {
                &&& self.position((#[trigger] self.queued_messages[i]).event_id) < self.position(
                    (#[trigger] self.queued_messages[j]).event_id,
                )
                &&& self.queued_messages[i].session_id == self.queued_messages[j].session_id
                    ==> self.queued_messages[i].enqueued_at_unix
                    <= self.queued_messages[j].enqueued_at_unix
            }
    }

    /// Run inputs are sound, distinct, not newer than the state, and each belongs
    /// to a run of its session that was created by the claim.
    pub open spec fn inputs_sound(self) -> bool {
        &&& distinct_keys(self.run_inputs)
        &&& forall|k: int|
            0 <= k < self.run_inputs.len() ==> {
                &&& (#[trigger] self.run_inputs[k]).flaw() is None
                &&& match lookup(self.runs, self.run_inputs[k].run_id) {
                    Some(run) => {
                        &&& run.session_id == self.run_inputs[k].session_id
                        &&& run.created_at_unix == self.run_inputs[k].claimed_at_unix
                    },
                    None => false,
                }
                &&& self.run_inputs[k].claimed_at_unix <= self.updated_at_unix
            }
    }

    /// Taken messages agree with the ledger, were taken once, are no longer
    /// queued, and were taken in order within each session.
    pub open spec fn claims_sound(self) -> bool {
        let taken = claims(self.run_inputs);
        &&& distinct_keys(taken)
        &&& forall|i: int|
            0 <= i < taken.len() ==> {
                &&& self.backed((#[trigger] taken[i]).message)
                &&& !has_key(self.queued_messages, taken[i].message.event_id)
            }
        &&& self.claims_ordered(taken)
    }

    /// Messages were taken in ledger order and in order of time within each
    /// session.
    pub open spec fn claims_ordered(self, taken: Seq<ClaimedView>) -> bool {
        forall|i: int, j: int|
            0 <= i < j < taken.len() && (#[trigger] taken[i]).session_id == (
            #[trigger] taken[j]).session_id ==> {
                &&& taken[i].message.enqueued_at_unix <= taken[j].message.enqueued_at_unix
                &&& self.position(taken[i].message.event_id) < self.position(
                    taken[j].message.event_id,
                )
            }
    }

    /// Within each session the queue follows what was taken.
    pub open spec fn handover_sound(self) -> bool {
        let taken = claims(self.run_inputs);
        forall|i: int, j: int|
            0 <= i < taken.len() && 0 <= j < self.queued_messages.len() && (
            #[trigger] taken[i]).session_id == (#[trigger] self.queued_messages[j]).session_id
                ==> {
                &&& taken[i].message.enqueued_at_unix <= self.queued_messages[j].enqueued_at_unix
                &&& self.position(taken[i].message.event_id) < self.position(
                    self.queued_messages[j].event_id,
                )
            }
    }

    /// What holds of every state that the runtime keeps.
    pub open spec fn valid(self) -> bool {
        &&& self.sessions_sound()
        &&& self.runs_sound()
        &&& self.events_sound()
        &&& self.deliveries_sound()
        &&& self.queue_sound()
        &&& self.inputs_sound()
        &&& self.claims_sound()
        &&& self.handover_sound()
    }
}

} // verus!

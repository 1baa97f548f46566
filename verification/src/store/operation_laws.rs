//! What each operation of the store hands out and writes, in terms of the state that
//! is loaded.
use vstd::prelude::*;

use super::file_store::{
    law_loaded_states_are_valid, ActionView, ContentView, DiskReport, StoreView,
};
use super::laws::{
    law_claims_are_written, law_completions_are_written, law_delivery_outcomes_are_written,
    law_persisted_events_are_durable, law_queued_deliveries_are_durable, law_run_steps_are_written,
    law_writes_are_valid,
};
use super::run::{output_fault, outputs, replay_delivery_fault};
use crate::event::{EventView, InboundEventRecordStatus};
use crate::fault::lemma_no_fault;
use crate::keyed::{
    find_key, has_key, lemma_find_key, lemma_find_key_update, lemma_find_own_key, lookup, Keyed,
};
use crate::message::MessageView;
use crate::outbox::{DeliveryView, OutboundDeliveryEnqueueStatus, OutboundDeliveryStatus};
use crate::queue::{ClaimView, MessageQueuePolicy};
use crate::run::{RunRecoveryView, RunStatus, RunView};
use crate::state::keeping::{law_delivery_recovery_keeps_valid, law_run_recovery_keeps_valid};
use crate::state::recovery_laws::{
    law_delivery_recovery_gives_up_what_was_under_way, law_delivery_report_follows_the_statuses,
    law_run_recovery_interrupts_runs_without_work, law_run_report_follows_the_statuses,
};
use crate::state::view::StateView;

verus! {

// ------------------------------------------------------ loading and saving

/// Where there is no file, the state that is loaded is empty and as of now. A file
/// that cannot be read or that holds something else is refused, with its path and
/// the reason. Otherwise what is loaded is what the file is read as.
pub proof fn law_loading(store: StoreView, now: u64)
    ensures
        match store.content {
            ContentView::Missing => {
                &&& store.existing() == Ok::<Option<StateView>, Seq<char>>(None)
                &&& store.loaded(now) matches Ok(state) && state.sessions.len() == 0
                    && state.runs.len() == 0 && state.run_inputs.len() == 0
                    && state.inbound_events.len() == 0 && state.queued_messages.len() == 0
                    && state.outbound_deliveries.len() == 0 && state.updated_at_unix == now
            },
            ContentView::Unreadable(e) => {
                let refusal = "failed to read runtime state "@ + store.path + ": "@ + e;
                &&& store.existing() == Err::<Option<StateView>, Seq<char>>(refusal)
                &&& store.loaded(now) == Err::<StateView, Seq<char>>(refusal)
            },
            ContentView::Malformed(e) => {
                let refusal = "failed to parse "@ + store.path + ": "@ + e;
                &&& store.existing() == Err::<Option<StateView>, Seq<char>>(refusal)
                &&& store.loaded(now) == Err::<StateView, Seq<char>>(refusal)
            },
            ContentView::Decoded(file) => match file.decoded() {
                Ok(state) => {
                    &&& store.existing() == Ok::<Option<StateView>, Seq<char>>(Some(state))
                    &&& store.loaded(now) == Ok::<StateView, Seq<char>>(state)
                },
                Err(e) => {
                    let refusal = "failed to parse "@ + store.path + ": "@ + e;
                    &&& store.existing() == Err::<Option<StateView>, Seq<char>>(refusal)
                    &&& store.loaded(now) == Err::<StateView, Seq<char>>(refusal)
                },
            },
        },
{
}

/// A store changes only where a state was to be written and the file has its new
/// content, and then only its content changes. The outcome may be used exactly where
/// nothing had to be done or it was done.
pub proof fn law_settling_actions(store: StoreView, action: ActionView, report: DiskReport)
    ensures
        store.settled(action, report).path == store.path,
        action !is Write ==> store.settled(action, report) == store,
        report is NotReplaced ==> store.settled(action, report) == store,
        action is Write && report !is NotReplaced ==> store.settled(action, report)
            == store.holding(action->Write_0),
        store.settle_error(action, report) is None <==> action is Keep || report is Done,
{
}

/// A snapshot may bring in only so much: deliveries that are not stored are pending,
/// every run input is stored, a run with stored input is not moved on to running or
/// completed, and no run has output deliveries that it does not have in the file.
pub proof fn law_snapshot_rules(s: StateView, stored: StateView)
    requires
        stored.valid(),
    ensures
        s.snapshot_fault(Some(stored)) is None <==> {
            &&& forall|i: int|
                0 <= i < s.outbound_deliveries.len() ==> (#[trigger] s.outbound_deliveries[i]).status
                    is Pending || exists|p: int|
                    0 <= p < stored.outbound_deliveries.len() && (
                    #[trigger] stored.outbound_deliveries[p]).id == s.outbound_deliveries[i].id
            &&& forall|i: int|
                0 <= i < s.run_inputs.len() ==> exists|p: int|
                    0 <= p < stored.run_inputs.len() && (#[trigger] stored.run_inputs[p]).run_id
                        == (#[trigger] s.run_inputs[i]).run_id
            &&& forall|i: int, p: int, q: int|
                0 <= i < s.runs.len() && 0 <= p < stored.run_inputs.len() && 0 <= q
                    < stored.runs.len() && (#[trigger] stored.run_inputs[p]).run_id == (
                #[trigger] s.runs[i]).id && (#[trigger] stored.runs[q]).id == s.runs[i].id && (
                s.runs[i].status is Running || s.runs[i].status is Completed) ==> s.runs[i]
                    == stored.runs[q] || stored.runs[q].descends_from(s.runs[i])
            &&& forall|i: int|
                0 <= i < s.runs.len() && (#[trigger] s.runs[i]).output_delivery_ids.len() > 0
                    ==> exists|q: int|
                    0 <= q < stored.runs.len() && (#[trigger] stored.runs[q]).id == s.runs[i].id
                        && stored.runs[q].output_delivery_ids == s.runs[i].output_delivery_ids
        },
{
    broadcast use lemma_find_key;

    let delivery_at = |i: int| s.delivery_addition_fault(Some(stored), i);
    let input_at = |i: int| s.input_addition_fault(Some(stored), i);
    let agent_at = |i: int| s.agent_transition_fault(Some(stored), i);
    let output_at = |i: int| s.output_addition_fault(Some(stored), i);
    lemma_no_fault(s.outbound_deliveries.len(), delivery_at);
    lemma_no_fault(s.run_inputs.len(), input_at);
    lemma_no_fault(s.runs.len(), agent_at);
    lemma_no_fault(s.runs.len(), output_at);
    assert forall|i: int| 0 <= i < s.outbound_deliveries.len() implies (delivery_at(i) is None <==> (
    #[trigger] s.outbound_deliveries[i]).status is Pending || exists|p: int|
        0 <= p < stored.outbound_deliveries.len() && (#[trigger] stored.outbound_deliveries[p]).id
            == s.outbound_deliveries[i].id) by {
        let id = s.outbound_deliveries[i].id;
        match find_key(stored.outbound_deliveries, id) {
            Some(p) => {
                assert(stored.outbound_deliveries[p].id == id);
            },
            None => {
                assert forall|p: int| 0 <= p < stored.outbound_deliveries.len() implies (
                #[trigger] stored.outbound_deliveries[p]).id != id by {
                    assert(stored.outbound_deliveries[p].key() != id);
                }
            },
        }
    }
    assert forall|i: int| 0 <= i < s.run_inputs.len() implies (input_at(i) is None <==> exists|
        p: int,
    |
        0 <= p < stored.run_inputs.len() && (#[trigger] stored.run_inputs[p]).run_id == (
        #[trigger] s.run_inputs[i]).run_id) by {
        lemma_input_known(stored, s.run_inputs[i].run_id);
    }
    assert forall|i: int| 0 <= i < s.runs.len() implies (agent_at(i) is None <==> forall|
        p: int,
        q: int,
    |
        0 <= p < stored.run_inputs.len() && 0 <= q < stored.runs.len() && (
        #[trigger] stored.run_inputs[p]).run_id == (#[trigger] s.runs[i]).id && (
        #[trigger] stored.runs[q]).id == s.runs[i].id && (s.runs[i].status is Running
            || s.runs[i].status is Completed) ==> s.runs[i] == stored.runs[q]
            || stored.runs[q].descends_from(s.runs[i])) by {
        lemma_input_known(stored, s.runs[i].id);
        assert forall|q: int|
            0 <= q < stored.runs.len() && (#[trigger] stored.runs[q]).id
                == s.runs[i].id implies lookup(stored.runs, s.runs[i].id) == Some(
            stored.runs[q],
        ) by {
            lemma_find_own_key(stored.runs, q);
        }
        if agent_at(i) is Some {
            let p = choose|p: int|
                0 <= p < stored.run_inputs.len() && (#[trigger] stored.run_inputs[p]).run_id
                    == s.runs[i].id;
            let q = find_key(stored.runs, s.runs[i].id)->Some_0;
            assert(stored.runs[q].id == s.runs[i].id);
            assert(stored.run_inputs[p].run_id == s.runs[i].id);
        }
    }
    assert forall|i: int| 0 <= i < s.runs.len() implies (output_at(i) is None <==> ((
    #[trigger] s.runs[i]).output_delivery_ids.len() > 0 ==> exists|q: int|
        0 <= q < stored.runs.len() && (#[trigger] stored.runs[q]).id == s.runs[i].id
            && stored.runs[q].output_delivery_ids == s.runs[i].output_delivery_ids)) by {
        assert forall|q: int|
            0 <= q < stored.runs.len() && (#[trigger] stored.runs[q]).id
                == s.runs[i].id implies lookup(stored.runs, s.runs[i].id) == Some(
            stored.runs[q],
        ) by {
            lemma_find_own_key(stored.runs, q);
        }
        if let Some(q) = find_key(stored.runs, s.runs[i].id) {
            assert(stored.runs[q].id == s.runs[i].id);
        }
    }
    if s.snapshot_fault(Some(stored)) is None {
        assert forall|i: int| 0 <= i < s.outbound_deliveries.len() implies (
        #[trigger] s.outbound_deliveries[i]).status is Pending || exists|p: int|
            0 <= p < stored.outbound_deliveries.len() && (
            #[trigger] stored.outbound_deliveries[p]).id == s.outbound_deliveries[i].id by {
            assert(delivery_at(i) is None);
        }
        assert forall|i: int| 0 <= i < s.run_inputs.len() implies exists|p: int|
            0 <= p < stored.run_inputs.len() && (#[trigger] stored.run_inputs[p]).run_id == (
            #[trigger] s.run_inputs[i]).run_id by {
            assert(input_at(i) is None);
        }
        assert forall|i: int, p: int, q: int|
            0 <= i < s.runs.len() && 0 <= p < stored.run_inputs.len() && 0 <= q < stored.runs.len()
                && (#[trigger] stored.run_inputs[p]).run_id == (#[trigger] s.runs[i]).id && (
            #[trigger] stored.runs[q]).id == s.runs[i].id && (s.runs[i].status is Running
                || s.runs[i].status is Completed) implies s.runs[i] == stored.runs[q]
            || stored.runs[q].descends_from(s.runs[i]) by {
            assert(agent_at(i) is None);
        }
        assert forall|i: int|
            0 <= i < s.runs.len() && (#[trigger] s.runs[i]).output_delivery_ids.len()
                > 0 implies exists|q: int|
            0 <= q < stored.runs.len() && (#[trigger] stored.runs[q]).id == s.runs[i].id
                && stored.runs[q].output_delivery_ids == s.runs[i].output_delivery_ids by {
            assert(output_at(i) is None);
        }
    } else if s.delivery_additions_fault(Some(stored)) is Some {
        let i = choose|i: int|
            0 <= i < s.outbound_deliveries.len() && (#[trigger] delivery_at(i)) is Some;
        assert(s.outbound_deliveries[i].status !is Pending);
    } else if s.input_additions_fault(Some(stored)) is Some {
        let i = choose|i: int| 0 <= i < s.run_inputs.len() && (#[trigger] input_at(i)) is Some;
        assert(!has_key(stored.run_inputs, s.run_inputs[i].run_id));
    } else if s.agent_transitions_fault(Some(stored)) is Some {
        let i = choose|i: int| 0 <= i < s.runs.len() && (#[trigger] agent_at(i)) is Some;
        assert(has_key(stored.run_inputs, s.runs[i].id));
    } else {
        let i = choose|i: int| 0 <= i < s.runs.len() && (#[trigger] output_at(i)) is Some;
        assert(s.runs[i].output_delivery_ids.len() > 0);
    }
}

/// A run has stored input exactly where an input carries its id.
proof fn lemma_input_known(s: StateView, run_id: Seq<char>)
    ensures
        has_key(s.run_inputs, run_id) <==> exists|p: int|
            0 <= p < s.run_inputs.len() && (#[trigger] s.run_inputs[p]).run_id == run_id,
{
    lemma_find_key(s.run_inputs, run_id);
    match find_key(s.run_inputs, run_id) {
        Some(p) => {
            assert(s.run_inputs[p].run_id == run_id);
        },
        None => {
            assert forall|p: int| 0 <= p < s.run_inputs.len() implies (
            #[trigger] s.run_inputs[p]).run_id != run_id by {
                assert(s.run_inputs[p].key() != run_id);
            }
        },
    }
}

/// The first snapshot is written as it is, exactly where it is valid, all its
/// deliveries are pending, and it has neither run inputs nor output deliveries of
/// runs.
pub proof fn law_first_snapshots(store: StoreView, s: StateView)
    requires
        store.existing() == Ok::<Option<StateView>, Seq<char>>(None),
    ensures
        store.saved(s) is Ok <==> {
            &&& s.valid()
            &&& forall|i: int|
                0 <= i < s.outbound_deliveries.len() ==> (#[trigger] s.outbound_deliveries[i]).status
                    is Pending
            &&& s.run_inputs.len() == 0
            &&& forall|i: int|
                0 <= i < s.runs.len() ==> (#[trigger] s.runs[i]).output_delivery_ids.len() == 0
        },
        store.saved(s) matches Ok(action) ==> action == ActionView::Write(s),
{
    let none = None::<StateView>;
    let delivery_at = |i: int| s.delivery_addition_fault(none, i);
    let input_at = |i: int| s.input_addition_fault(none, i);
    let agent_at = |i: int| s.agent_transition_fault(none, i);
    let output_at = |i: int| s.output_addition_fault(none, i);
    lemma_no_fault(s.outbound_deliveries.len(), delivery_at);
    lemma_no_fault(s.run_inputs.len(), input_at);
    lemma_no_fault(s.runs.len(), agent_at);
    lemma_no_fault(s.runs.len(), output_at);
    law_writes_are_valid(store, s);
    if s.snapshot_fault(none) is None {
        assert forall|i: int| 0 <= i < s.outbound_deliveries.len() implies (
        #[trigger] s.outbound_deliveries[i]).status is Pending by {
            assert(delivery_at(i) is None);
        }
        if s.run_inputs.len() > 0 {
            assert(input_at(0) is None);
        }
        assert forall|i: int| 0 <= i < s.runs.len() implies (
        #[trigger] s.runs[i]).output_delivery_ids.len() == 0 by {
            assert(output_at(i) is None);
        }
    } else if s.delivery_additions_fault(none) is Some {
        let i = choose|i: int|
            0 <= i < s.outbound_deliveries.len() && (#[trigger] delivery_at(i)) is Some;
        assert(s.outbound_deliveries[i].status !is Pending);
    } else if s.input_additions_fault(none) is Some {
    } else if s.agent_transitions_fault(none) is Some {
        let i = choose|i: int| 0 <= i < s.runs.len() && (#[trigger] agent_at(i)) is Some;
        assert(agent_at(i) is None);
    } else {
        let i = choose|i: int| 0 <= i < s.runs.len() && (#[trigger] output_at(i)) is Some;
        assert(s.runs[i].output_delivery_ids.len() > 0);
    }
}

/// A later snapshot is saved exactly where it brings in nothing that it may not, it
/// does not contradict what is stored, and both, merged, are valid; what is written
/// is both, merged.
pub proof fn law_later_snapshots(store: StoreView, stored: StateView, s: StateView)
    requires
        store.existing() == Ok::<Option<StateView>, Seq<char>>(Some(stored)),
    ensures
        store.saved(s) is Ok <==> s.snapshot_fault(Some(stored)) is None && (s.merged_with(
            stored,
        ) matches Ok(t) && t.valid()),
        store.saved(s) matches Ok(action) ==> s.merged_with(stored) matches Ok(t) && action
            == ActionView::Write(t),
{
    if let Ok(t) = s.merged_with(stored) {
        law_writes_are_valid(store, t);
    }
}

// ------------------------------------------------------- inbound and outbox

/// Persisting an event does with the loaded state what recording does: a new event
/// is written with it, a known one leaves the file alone, and a refusal stays one.
pub proof fn law_persisting_events(store: StoreView, state: StateView, event: EventView, now: u64)
    requires
        store.loaded(now) == Ok::<StateView, Seq<char>>(state),
    ensures
        match state.recorded(event, now) {
            Err(e) => store.event_persisted(event, now) == Err::<
                (InboundEventRecordStatus, ActionView),
                Seq<char>,
            >(e),
            Ok((next, status)) => store.event_persisted(event, now) == Ok::<
                (InboundEventRecordStatus, ActionView),
                Seq<char>,
            >(
                (
                    status,
                    if status is Recorded {
                        ActionView::Write(next)
                    } else {
                        ActionView::Keep
                    },
                ),
            ),
        },
{
    if let Ok((next, status)) = state.recorded(event, now) {
        if status is Recorded {
            law_persisted_events_are_durable(store, event, state, next, now, now);
        }
    }
}

/// Queueing a delivery does with the loaded state what the outbox does: a new
/// delivery is written with it, a known one leaves the file alone, and a refusal
/// stays one.
pub proof fn law_queueing_deliveries(
    store: StoreView,
    state: StateView,
    delivery: DeliveryView,
    now: u64,
)
    requires
        store.loaded(now) == Ok::<StateView, Seq<char>>(state),
    ensures
        match state.enqueued(delivery, now) {
            Err(e) => store.delivery_enqueued(delivery, now) == Err::<
                (OutboundDeliveryEnqueueStatus, ActionView),
                Seq<char>,
            >(e),
            Ok((next, status)) => store.delivery_enqueued(delivery, now) == Ok::<
                (OutboundDeliveryEnqueueStatus, ActionView),
                Seq<char>,
            >(
                (
                    status,
                    if status is Queued {
                        ActionView::Write(next)
                    } else {
                        ActionView::Keep
                    },
                ),
            ),
        },
{
    if let Ok((next, status)) = state.enqueued(delivery, now) {
        if status is Queued {
            law_queued_deliveries_are_durable(store, delivery, state, next, now, now);
        }
    }
}

/// Claiming a batch does with the loaded state what claiming does: a claim is
/// written and handed out, waiting leaves the file alone, and a refusal stays one.
pub proof fn law_claiming_batches(
    store: StoreView,
    state: StateView,
    run_id: Seq<char>,
    policy: MessageQueuePolicy,
    at: u64,
    now: u64,
)
    requires
        store.loaded(now) == Ok::<StateView, Seq<char>>(state),
    ensures
        match state.batch_claimed(run_id, policy, at, now) {
            Err(e) => store.batch_claimed(run_id, policy, at, now) == Err::<
                (ClaimView, ActionView),
                Seq<char>,
            >(e),
            Ok((next, claim)) => store.batch_claimed(run_id, policy, at, now) == Ok::<
                (ClaimView, ActionView),
                Seq<char>,
            >(
                (
                    claim,
                    if claim is Claimed {
                        ActionView::Write(next)
                    } else {
                        ActionView::Keep
                    },
                ),
            ),
        },
{
    law_claims_are_written(store, state, run_id, policy, at, now);
}

/// Trying the next delivery writes the attempt before it is handed out; where there
/// is none to try the file is left alone, and a refusal stays one.
pub proof fn law_trying_deliveries(store: StoreView, state: StateView, at: u64, now: u64)
    requires
        store.loaded(now) == Ok::<StateView, Seq<char>>(state),
    ensures
        match state.with_next_attempt(at, now) {
            Err(e) => store.next_attempted(at, now) == Err::<
                (Option<DeliveryView>, ActionView),
                Seq<char>,
            >(e),
            Ok((next, tried)) => store.next_attempted(at, now) == Ok::<
                (Option<DeliveryView>, ActionView),
                Seq<char>,
            >(
                (
                    tried,
                    if tried is Some {
                        ActionView::Write(next)
                    } else {
                        ActionView::Keep
                    },
                ),
            ),
        },
{
    super::laws::law_attempts_are_written(store, state, at, now);
}

/// What came of a delivery is written, and the delivery handed out, exactly where the
/// loaded state allows it to be noted.
pub proof fn law_noting_delivery_outcomes(
    store: StoreView,
    state: StateView,
    id: Seq<char>,
    at: u64,
    error: Seq<char>,
    now: u64,
)
    requires
        store.loaded(now) == Ok::<StateView, Seq<char>>(state),
    ensures
        match state.with_delivered(id, at, now) {
            Ok((next, delivery)) => store.delivery_delivered(id, at, now) == Ok::<
                (DeliveryView, ActionView),
                Seq<char>,
            >((delivery, ActionView::Write(next))),
            Err(e) => store.delivery_delivered(id, at, now) == Err::<
                (DeliveryView, ActionView),
                Seq<char>,
            >(e),
        },
        match state.with_failed(id, at, error, now) {
            Ok((next, delivery)) => store.delivery_failed(id, at, error, now) == Ok::<
                (DeliveryView, ActionView),
                Seq<char>,
            >((delivery, ActionView::Write(next))),
            Err(e) => store.delivery_failed(id, at, error, now) == Err::<
                (DeliveryView, ActionView),
                Seq<char>,
            >(e),
        },
        match state.with_uncertain(id, at, error, now) {
            Ok((next, delivery)) => store.delivery_uncertain(id, at, error, now) == Ok::<
                (DeliveryView, ActionView),
                Seq<char>,
            >((delivery, ActionView::Write(next))),
            Err(e) => store.delivery_uncertain(id, at, error, now) == Err::<
                (DeliveryView, ActionView),
                Seq<char>,
            >(e),
        },
{
    law_delivery_outcomes_are_written(store, state, id, at, error, now);
}

/// Settling the delivery under an id as accepted: an uncertain one is settled from
/// its last update on, and that is written; a delivered one is confirmed at its time
/// of delivery; anything else is refused.
pub proof fn law_settling_as_delivered(
    store: StoreView,
    state: StateView,
    id: Seq<char>,
    i: int,
    at: u64,
    now: u64,
)
    requires
        store.loaded(now) == Ok::<StateView, Seq<char>>(state),
        0 <= i < state.outbound_deliveries.len(),
        state.outbound_deliveries[i].id == id,
    ensures
        ({
            let delivery = state.outbound_deliveries[i];
            let settled = DeliveryView {
                status: OutboundDeliveryStatus::Delivered,
                updated_at_unix: at,
                delivered_at_unix: Some(at),
                last_error: None,
                ..delivery
            };
            if delivery.status is Uncertain && delivery.updated_at_unix <= at {
                &&& store.resolved_delivered(id, at, now) matches Ok((
                    handed,
                    ActionView::Write(next),
                )) && handed == settled && next == (StateView {
                    outbound_deliveries: state.outbound_deliveries.update(i, settled),
                    updated_at_unix: next.updated_at_unix,
                    ..state
                }) && next.updated_at_unix >= state.updated_at_unix && next.updated_at_unix >= at
                    && next.updated_at_unix >= now && (next.updated_at_unix
                    == state.updated_at_unix || next.updated_at_unix == at || next.updated_at_unix
                    == now)
            } else if delivery.status is Delivered && delivery.delivered_at_unix == Some(at) {
                store.resolved_delivered(id, at, now) == Ok::<
                    (DeliveryView, ActionView),
                    Seq<char>,
                >((delivery, ActionView::ConfirmDurable))
            } else {
                store.resolved_delivered(id, at, now) is Err
            }
        }),
{
    law_loaded_states_are_valid(store, now);
    lemma_find_own_key(state.outbound_deliveries, i);
    law_delivery_outcomes_are_written(store, state, id, at, id, now);
}

/// Settling the delivery under an id as failed: an uncertain one is settled from its
/// last update on, and that is written; a failed one is confirmed at the time of its
/// last update and with its error; anything else is refused, and so is a blank
/// reason.
pub proof fn law_settling_as_failed(
    store: StoreView,
    state: StateView,
    id: Seq<char>,
    i: int,
    at: u64,
    reason: Seq<char>,
    now: u64,
)
    requires
        store.loaded(now) == Ok::<StateView, Seq<char>>(state),
        0 <= i < state.outbound_deliveries.len(),
        state.outbound_deliveries[i].id == id,
    ensures
        ({
            let delivery = state.outbound_deliveries[i];
            let settled = DeliveryView {
                status: OutboundDeliveryStatus::Failed,
                updated_at_unix: at,
                last_error: Some(reason),
                ..delivery
            };
            let told = !crate::text::is_blank(reason);
            if told && delivery.status is Uncertain && delivery.updated_at_unix <= at {
                &&& store.resolved_failed(id, at, reason, now) matches Ok((
                    handed,
                    ActionView::Write(next),
                )) && handed == settled && next == (StateView {
                    outbound_deliveries: state.outbound_deliveries.update(i, settled),
                    updated_at_unix: next.updated_at_unix,
                    ..state
                }) && next.updated_at_unix >= state.updated_at_unix && next.updated_at_unix >= at
                    && next.updated_at_unix >= now && (next.updated_at_unix
                    == state.updated_at_unix || next.updated_at_unix == at || next.updated_at_unix
                    == now)
            } else if told && delivery.status is Failed && delivery.updated_at_unix == at
                && delivery.last_error == Some(reason) {
                store.resolved_failed(id, at, reason, now) == Ok::<
                    (DeliveryView, ActionView),
                    Seq<char>,
                >((delivery, ActionView::ConfirmDurable))
            } else {
                store.resolved_failed(id, at, reason, now) is Err
            }
        }),
{
    law_loaded_states_are_valid(store, now);
    lemma_find_own_key(state.outbound_deliveries, i);
    law_delivery_outcomes_are_written(store, state, id, at, reason, now);
}

/// A delivery or a run that is not there is neither settled, started, completed,
/// failed nor interrupted.
pub proof fn law_unknown_ids_are_refused(
    store: StoreView,
    state: StateView,
    id: Seq<char>,
    messages: Seq<MessageView>,
    at: u64,
    reason: Seq<char>,
    now: u64,
)
    requires
        store.loaded(now) == Ok::<StateView, Seq<char>>(state),
    ensures
        (forall|i: int|
            0 <= i < state.outbound_deliveries.len() ==> (
            #[trigger] state.outbound_deliveries[i]).id != id) ==> store.resolved_delivered(
            id,
            at,
            now,
        ) is Err && store.resolved_failed(id, at, reason, now) is Err,
        (forall|i: int| 0 <= i < state.runs.len() ==> (#[trigger] state.runs[i]).id != id) ==> {
            &&& store.agent_run_started(id, at, now) is Err
            &&& store.agent_run_completed(id, messages, at, now) is Err
            &&& store.agent_run_failed(id, at, now) is Err
            &&& store.agent_run_interrupted(id, at, now) is Err
        },
{
    lemma_find_key(state.outbound_deliveries, id);
    lemma_find_key(state.runs, id);
    if let Some(i) = find_key(state.outbound_deliveries, id) {
        assert(state.outbound_deliveries[i].id == id);
    }
    if let Some(i) = find_key(state.runs, id) {
        assert(state.runs[i].id == id);
    }
}

// ---------------------------------------------------------------- recovery

/// Recovering the deliveries of a state that can be loaded always succeeds. It hands
/// out the ids of all deliveries that are uncertain afterwards, in order. Where a
/// delivery was under way, the state is written with each of those uncertain;
/// otherwise what is there is confirmed.
pub proof fn law_recovering_deliveries(store: StoreView, state: StateView, at: u64, now: u64)
    requires
        store.loaded(now) == Ok::<StateView, Seq<char>>(state),
    ensures
        ({
            let after = state.deliveries_reconciled(at);
            let uncertain = after.outbound_deliveries.filter(
                |d: DeliveryView| d.status is Uncertain,
            ).map_values(|d: DeliveryView| d.id);
            store.deliveries_recovered(at, now) == Ok::<(Seq<Seq<char>>, ActionView), Seq<char>>(
                (
                    uncertain,
                    if exists|i: int|
                        0 <= i < state.outbound_deliveries.len() && (
                        #[trigger] state.outbound_deliveries[i]).status is Delivering {
                        ActionView::Write(after)
                    } else {
                        ActionView::ConfirmDurable
                    },
                ),
            )
        }),
{
    law_loaded_states_are_valid(store, now);
    law_delivery_recovery_keeps_valid(state, at);
    law_writes_are_valid(store, state.deliveries_reconciled(at));
    law_delivery_report_follows_the_statuses(state, at);
    law_delivery_recovery_gives_up_what_was_under_way(state, at);
}

/// Recovering the runs of a state that can be loaded always succeeds. It hands out
/// the ids of the runs that are pending, interrupted and failed afterwards, each in
/// order. Where a run changed, the state is written so; otherwise the file is left
/// alone.
pub proof fn law_recovering_runs(store: StoreView, state: StateView, at: u64, now: u64)
    requires
        store.loaded(now) == Ok::<StateView, Seq<char>>(state),
    ensures
        ({
            let after = state.runs_reconciled(at);
            let report = RunRecoveryView {
                resumable_pending: after.runs.filter(
                    |r: RunView| r.status is Pending,
                ).map_values(|r: RunView| r.id),
                interrupted: after.runs.filter(|r: RunView| r.status is Interrupted).map_values(
                    |r: RunView| r.id,
                ),
                failed: after.runs.filter(|r: RunView| r.status is Failed).map_values(
                    |r: RunView| r.id,
                ),
            };
            store.runs_recovered(at, now) == Ok::<(RunRecoveryView, ActionView), Seq<char>>(
                (
                    report,
                    if after.runs != state.runs {
                        ActionView::Write(after)
                    } else {
                        ActionView::Keep
                    },
                ),
            )
        }),
{
    law_loaded_states_are_valid(store, now);
    law_run_recovery_keeps_valid(state, at);
    law_writes_are_valid(store, state.runs_reconciled(at));
    law_run_report_follows_the_statuses(state, at);
    law_run_recovery_interrupts_runs_without_work(state, at);
}

// -------------------------------------------------------------- agent runs

/// A run is started exactly while it is pending, from its last update on, and where
/// an input carries its id. That input is handed out, as it is, and the state is
/// written with the run running since that time.
pub proof fn law_starting_agent_runs(
    store: StoreView,
    state: StateView,
    id: Seq<char>,
    i: int,
    at: u64,
    now: u64,
)
    requires
        store.loaded(now) == Ok::<StateView, Seq<char>>(state),
        0 <= i < state.runs.len(),
        state.runs[i].id == id,
    ensures
        store.agent_run_started(id, at, now) is Ok <==> {
            &&& state.runs[i].status is Pending
            &&& state.runs[i].updated_at_unix <= at
            &&& exists|k: int|
                0 <= k < state.run_inputs.len() && (#[trigger] state.run_inputs[k]).run_id == id
        },
        store.agent_run_started(id, at, now) matches Ok((input, action)) ==> {
            &&& input.run_id == id
            &&& state.run_inputs.contains(input)
            &&& action matches ActionView::Write(next) && next == (StateView {
                runs: state.runs.update(
                    i,
                    RunView {
                        status: RunStatus::Running,
                        updated_at_unix: at,
                        started_at_unix: Some(at),
                        ..state.runs[i]
                    },
                ),
                updated_at_unix: next.updated_at_unix,
                ..state
            }) && next.updated_at_unix >= state.updated_at_unix && next.updated_at_unix >= at
                && next.updated_at_unix >= now && (next.updated_at_unix == state.updated_at_unix
                || next.updated_at_unix == at || next.updated_at_unix == now)
        },
{
    law_loaded_states_are_valid(store, now);
    lemma_find_own_key(state.runs, i);
    lemma_input_known(state, id);
    lemma_find_key(state.run_inputs, id);
    law_run_steps_are_written(store, state, id, at, now);
    if let Some(k) = find_key(state.run_inputs, id) {
        assert(state.run_inputs[k].run_id == id);
        assert(state.run_inputs.contains(state.run_inputs[k]));
        assert(lookup(state.runs, state.run_inputs[k].run_id) == Some(state.runs[i]));
    }
}

/// Noting that a run failed: a running one fails from its last update on, and that is
/// written; one that failed after it had started is confirmed at its time of finish;
/// anything else is refused.
pub proof fn law_failing_agent_runs(
    store: StoreView,
    state: StateView,
    id: Seq<char>,
    i: int,
    at: u64,
    now: u64,
)
    requires
        store.loaded(now) == Ok::<StateView, Seq<char>>(state),
        0 <= i < state.runs.len(),
        state.runs[i].id == id,
    ensures
        ({
            let run = state.runs[i];
            let failed = RunView {
                status: RunStatus::Failed,
                updated_at_unix: at,
                finished_at_unix: Some(at),
                ..run
            };
            if run.status is Running && run.updated_at_unix <= at {
                &&& store.agent_run_failed(id, at, now) matches Ok((handed, ActionView::Write(next)))
                    && handed == failed && next == (StateView {
                    runs: state.runs.update(i, failed),
                    updated_at_unix: next.updated_at_unix,
                    ..state
                }) && next.updated_at_unix >= state.updated_at_unix && next.updated_at_unix >= at
                    && next.updated_at_unix >= now && (next.updated_at_unix
                    == state.updated_at_unix || next.updated_at_unix == at || next.updated_at_unix
                    == now)
            } else if run.status is Failed && run.started_at_unix is Some && run.finished_at_unix
                == Some(at) {
                store.agent_run_failed(id, at, now) == Ok::<(RunView, ActionView), Seq<char>>(
                    (run, ActionView::ConfirmDurable),
                )
            } else {
                store.agent_run_failed(id, at, now) is Err
            }
        }),
{
    law_loaded_states_are_valid(store, now);
    lemma_find_own_key(state.runs, i);
    law_run_steps_are_written(store, state, id, at, now);
    if let Ok(next) = state.runs[i].failed(at) {
        lemma_find_key_update(state.runs, i, next, id);
    }
}

/// Noting that a run was interrupted: a running one is interrupted from its last
/// update on, and that is written; one that was interrupted after it had started is
/// confirmed at the time of its last update; anything else is refused.
pub proof fn law_interrupting_agent_runs(
    store: StoreView,
    state: StateView,
    id: Seq<char>,
    i: int,
    at: u64,
    now: u64,
)
    requires
        store.loaded(now) == Ok::<StateView, Seq<char>>(state),
        0 <= i < state.runs.len(),
        state.runs[i].id == id,
    ensures
        ({
            let run = state.runs[i];
            let interrupted = RunView {
                status: RunStatus::Interrupted,
                updated_at_unix: at,
                ..run
            };
            if run.status is Running && run.updated_at_unix <= at {
                &&& store.agent_run_interrupted(id, at, now) matches Ok((
                    handed,
                    ActionView::Write(next),
                )) && handed == interrupted && next == (StateView {
                    runs: state.runs.update(i, interrupted),
                    updated_at_unix: next.updated_at_unix,
                    ..state
                }) && next.updated_at_unix >= state.updated_at_unix && next.updated_at_unix >= at
                    && next.updated_at_unix >= now && (next.updated_at_unix
                    == state.updated_at_unix || next.updated_at_unix == at || next.updated_at_unix
                    == now)
            } else if run.status is Interrupted && run.started_at_unix is Some
                && run.updated_at_unix == at {
                store.agent_run_interrupted(id, at, now) == Ok::<(RunView, ActionView), Seq<char>>(
                    (run, ActionView::ConfirmDurable),
                )
            } else {
                store.agent_run_interrupted(id, at, now) is Err
            }
        }),
{
    law_loaded_states_are_valid(store, now);
    lemma_find_own_key(state.runs, i);
    law_run_steps_are_written(store, state, id, at, now);
    if let Ok(next) = state.runs[i].interrupted(at) {
        lemma_find_key_update(state.runs, i, next, id);
    }
}

/// Output is made of messages exactly where there are some, each of them is the
/// agent's, belongs to the session, and is not newer than the completion. Each
/// message then has one delivery, in order: pending, created at the completion, and
/// with an id that names the run and the place of the message.
pub proof fn law_outputs_are_one_delivery_per_message(
    run_id: Seq<char>,
    session_id: Seq<char>,
    messages: Seq<MessageView>,
    at: u64,
)
    ensures
        outputs(run_id, session_id, messages, at) is Ok <==> messages.len() > 0 && forall|i: int|
            0 <= i < messages.len() ==> (#[trigger] messages[i]).author is Agent
                && messages[i].session_id == Some(session_id) && messages[i].created_at_unix <= at,
        outputs(run_id, session_id, messages, at) matches Ok(deliveries) ==> {
            &&& deliveries.len() == messages.len()
            &&& forall|i: int|
                0 <= i < messages.len() ==> {
                    &&& (#[trigger] deliveries[i]).id == "agent-run-output:"@
                        + crate::text::decimal(vstd::utf8::encode_utf8(run_id).len()) + (":"@
                        + run_id) + (":"@ + crate::text::decimal(i as nat))
                    &&& deliveries[i].session_id == session_id
                    &&& deliveries[i].message == messages[i]
                    &&& deliveries[i].status is Pending
                    &&& deliveries[i].delivery_attempts == 0
                    &&& deliveries[i].created_at_unix == at
                    &&& deliveries[i].updated_at_unix == at
                    &&& deliveries[i].delivered_at_unix is None
                    &&& deliveries[i].last_error is None
                }
        },
{
    let fault_at = |i: int| output_fault(run_id, session_id, messages, i, at);
    lemma_no_fault(messages.len(), fault_at);
    assert forall|i: int| 0 <= i < messages.len() implies ((#[trigger] fault_at(i)) is None <==> (
    messages[i]).author is Agent && messages[i].session_id == Some(session_id)
        && messages[i].created_at_unix <= at) by {}
    if outputs(run_id, session_id, messages, at) is Ok {
        assert forall|i: int| 0 <= i < messages.len() implies (#[trigger] messages[i]).author
            is Agent && messages[i].session_id == Some(session_id) && messages[i].created_at_unix
            <= at by {
            assert(fault_at(i) is None);
        }
    } else if messages.len() > 0 {
        let i = choose|i: int| 0 <= i < messages.len() && (#[trigger] fault_at(i)) is Some;
        assert(!(messages[i].author is Agent && messages[i].session_id == Some(session_id)
            && messages[i].created_at_unix <= at));
    }
}

/// Completing a run needs output messages. A running run is completed as the loaded
/// state allows, and that is written. A completed one is confirmed exactly at its
/// time of finish, where its output are the deliveries of the same messages, each
/// still there as it was queued, however far it came; these are handed out. In every
/// other status the completion is refused.
pub proof fn law_completing_agent_runs(
    store: StoreView,
    state: StateView,
    id: Seq<char>,
    i: int,
    messages: Seq<MessageView>,
    at: u64,
    now: u64,
)
    requires
        store.loaded(now) == Ok::<StateView, Seq<char>>(state),
        0 <= i < state.runs.len(),
        state.runs[i].id == id,
    ensures
        match outputs(id, state.runs[i].session_id, messages, at) {
            Err(_) => store.agent_run_completed(id, messages, at, now) is Err,
            Ok(expected) => match state.runs[i].status {
                RunStatus::Running => match state.with_output(id, expected, at, now) {
                    Ok(next) => store.agent_run_completed(id, messages, at, now) == Ok::<
                        (Seq<DeliveryView>, ActionView),
                        Seq<char>,
                    >((expected, ActionView::Write(next))),
                    Err(e) => store.agent_run_completed(id, messages, at, now) == Err::<
                        (Seq<DeliveryView>, ActionView),
                        Seq<char>,
                    >(e),
                },
                RunStatus::Completed => {
                    &&& store.agent_run_completed(id, messages, at, now) is Ok <==> {
                        &&& state.runs[i].finished_at_unix == Some(at)
                        &&& state.runs[i].output_delivery_ids == expected.map_values(
                            |d: DeliveryView| d.id,
                        )
                        &&& forall|k: int|
                            0 <= k < expected.len() ==> exists|p: int|
                                {
                                    &&& 0 <= p < state.outbound_deliveries.len()
                                    &&& (#[trigger] state.outbound_deliveries[p]).id == (
                                    #[trigger] expected[k]).id
                                    &&& state.outbound_deliveries[p].session_id
                                        == expected[k].session_id
                                    &&& state.outbound_deliveries[p].message == expected[k].message
                                    &&& state.outbound_deliveries[p].created_at_unix
                                        == expected[k].created_at_unix
                                }
                    }
                    &&& store.agent_run_completed(id, messages, at, now) matches Ok((
                        handed,
                        action,
                    )) ==> {
                        &&& action is ConfirmDurable
                        &&& handed.len() == expected.len()
                        &&& forall|k: int|
                            0 <= k < expected.len() ==> (#[trigger] handed[k]).id == expected[k].id
                                && state.outbound_deliveries.contains(handed[k])
                    }
                },
                _ => store.agent_run_completed(id, messages, at, now) is Err,
            },
        },
{
    broadcast use lemma_find_key;

    law_loaded_states_are_valid(store, now);
    lemma_find_own_key(state.runs, i);
    law_completions_are_written(store, state, id, messages, at, now);
    let run = state.runs[i];
    if let Ok(expected) = outputs(id, run.session_id, messages, at) {
        if run.status is Completed {
            let ids = crate::state::completion::delivery_ids(expected);
            assert(ids =~= expected.map_values(|d: DeliveryView| d.id));
            let fault_at = |k: int| replay_delivery_fault(state, run, expected[k]);
            lemma_no_fault(expected.len(), fault_at);
            assert forall|k: int| 0 <= k < expected.len() implies ((#[trigger] fault_at(k)) is None
                <==> exists|p: int|
                {
                    &&& 0 <= p < state.outbound_deliveries.len()
                    &&& (#[trigger] state.outbound_deliveries[p]).id == expected[k].id
                    &&& state.outbound_deliveries[p].session_id == expected[k].session_id
                    &&& state.outbound_deliveries[p].message == expected[k].message
                    &&& state.outbound_deliveries[p].created_at_unix == expected[k].created_at_unix
                }) by {
                assert forall|p: int|
                    0 <= p < state.outbound_deliveries.len() && (
                    #[trigger] state.outbound_deliveries[p]).id == expected[k].id implies lookup(
                    state.outbound_deliveries,
                    expected[k].id,
                ) == Some(state.outbound_deliveries[p]) by {
                    lemma_find_own_key(state.outbound_deliveries, p);
                }
                if let Some(p) = find_key(state.outbound_deliveries, expected[k].id) {
                    assert(state.outbound_deliveries[p].id == expected[k].id);
                }
            }
            if let Ok((handed, action)) = store.agent_run_completed(id, messages, at, now) {
                assert forall|k: int| 0 <= k < expected.len() implies (#[trigger] handed[k]).id
                    == expected[k].id && state.outbound_deliveries.contains(handed[k]) by {
                    assert(fault_at(k) is None);
                    let p = find_key(state.outbound_deliveries, expected[k].id)->Some_0;
                    assert(state.outbound_deliveries[p].key() == expected[k].id);
                    assert(ids[k] == expected[k].id);
                    assert(handed[k] == state.outbound_deliveries[p]);
                }
                assert forall|k: int| 0 <= k < expected.len() implies exists|p: int|
                    {
                        &&& 0 <= p < state.outbound_deliveries.len()
                        &&& (#[trigger] state.outbound_deliveries[p]).id == (
                        #[trigger] expected[k]).id
                        &&& state.outbound_deliveries[p].session_id == expected[k].session_id
                        &&& state.outbound_deliveries[p].message == expected[k].message
                        &&& state.outbound_deliveries[p].created_at_unix
                            == expected[k].created_at_unix
                    } by {
                    assert(fault_at(k) is None);
                }
            } else if run.finished_at_unix == Some(at) && run.output_delivery_ids == ids {
                let k = choose|k: int| 0 <= k < expected.len() && (#[trigger] fault_at(k)) is Some;
                assert(fault_at(k) is Some);
                assert(expected[k].id == expected[k].id);
            }
        }
    }
}

} // verus!

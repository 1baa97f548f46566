//! What holds of the store across operations: what was decided is written as it
//! is, what was written is there afterwards, and what was done can be repeated.
use vstd::prelude::*;

use super::addition_laws::{adds_to, law_merging_an_addition_gives_it};
use super::file_store::{
    law_load_gives_back_what_was_written, law_loaded_states_are_valid, ActionView, DiskReport,
    StoreView,
};
use super::run::{
    law_output_ids_are_distinct, outputs, persisted_outputs, replay_delivery_fault, replay_fault,
};
use crate::event::{EventView, InboundEventRecordStatus};
use crate::fault::lemma_no_fault;
use crate::keyed::{
    distinct_keys, find_key, has_key, lemma_find_key, lemma_find_key_push, lemma_find_key_update,
    lookup, Keyed,
};
use crate::message::MessageView;
use crate::outbox::{DeliveryView, OutboundDeliveryEnqueueStatus};
use crate::queue::{ClaimView, MessageQueuePolicy};
use crate::run::RunView;
use crate::state::completion::delivery_ids;
use crate::state::keeping::{
    law_completion_keeps_valid, law_delivery_recovery_keeps_valid, law_delivery_steps_keep_valid,
    law_enqueue_keeps_valid, law_run_recovery_keeps_valid, law_run_steps_keep_valid,
};
use crate::state::keeping_queue::{law_claiming_keeps_valid, law_recording_keeps_valid};
use crate::state::laws::{law_enqueueing_is_idempotent, law_recording_is_idempotent};
use crate::state::validity::law_fault_free_is_valid;
use crate::state::view::StateView;

verus! {

/// Only valid states are written, and every valid state that is to be written is.
pub proof fn law_writes_are_valid(store: StoreView, state: StateView)
    ensures
        store.write(state) == (if state.valid() {
            Ok(ActionView::Write(state))
        } else {
            Err(state.fault()->Some_0)
        }),
{
    law_fault_free_is_valid(state);
}

/// A snapshot with nothing but what is stored and new pending deliveries brings in
/// nothing that it may not.
proof fn lemma_addition_is_allowed(next: StateView, stored: StateView)
    requires
        next.valid(),
        adds_to(next, stored),
        forall|i: int|
            stored.outbound_deliveries.len() <= i < next.outbound_deliveries.len() ==> (
            #[trigger] next.outbound_deliveries[i]).status is Pending,
    ensures
        next.snapshot_fault(Some(stored)) is None,
{
    broadcast use lemma_find_key;

    let delivery_fault_at = |i: int| next.delivery_addition_fault(Some(stored), i);
    assert forall|i: int| 0 <= i < next.outbound_deliveries.len() implies (
    #[trigger] delivery_fault_at(i)) is None by {
        if i < stored.outbound_deliveries.len() {
            assert(stored.outbound_deliveries[i] == next.outbound_deliveries[i]);
            assert(stored.outbound_deliveries[i].key() == next.outbound_deliveries[i].id);
        }
    }
    lemma_no_fault(next.outbound_deliveries.len(), delivery_fault_at);
    let input_fault_at = |i: int| next.input_addition_fault(Some(stored), i);
    assert forall|i: int| 0 <= i < next.run_inputs.len() implies (
    #[trigger] input_fault_at(i)) is None by {
        assert(stored.run_inputs[i].key() == next.run_inputs[i].run_id);
    }
    lemma_no_fault(next.run_inputs.len(), input_fault_at);
    let run_fault_at = |i: int| next.agent_transition_fault(Some(stored), i);
    let output_fault_at = |i: int| next.output_addition_fault(Some(stored), i);
    assert forall|i: int| 0 <= i < next.runs.len() implies (#[trigger] run_fault_at(i)) is None by {
        crate::keyed::lemma_find_own_key(stored.runs, i);
    }
    assert forall|i: int| 0 <= i < next.runs.len() implies (
    #[trigger] output_fault_at(i)) is None by {
        crate::keyed::lemma_find_own_key(stored.runs, i);
    }
    lemma_no_fault(next.runs.len(), run_fault_at);
    lemma_no_fault(next.runs.len(), output_fault_at);
}

/// A valid snapshot that only adds to what is stored is saved as it is; so is one
/// that was loaded and not changed.
pub proof fn law_additions_are_saved_as_they_are(
    store: StoreView,
    stored: StateView,
    next: StateView,
)
    requires
        store.existing() == Ok::<Option<StateView>, Seq<char>>(Some(stored)),
        next.valid(),
        adds_to(next, stored),
        forall|i: int|
            stored.outbound_deliveries.len() <= i < next.outbound_deliveries.len() ==> (
            #[trigger] next.outbound_deliveries[i]).status is Pending,
    ensures
        store.saved(next) == Ok::<ActionView, Seq<char>>(ActionView::Write(next)),
{
    lemma_addition_is_allowed(next, stored);
    law_merging_an_addition_gives_it(next, stored);
    law_writes_are_valid(store, next);
}

/// Saving what was loaded writes it back unchanged.
pub proof fn law_saving_the_loaded_state_changes_nothing(store: StoreView, stored: StateView)
    requires
        store.existing() == Ok::<Option<StateView>, Seq<char>>(Some(stored)),
    ensures
        store.saved(stored) == Ok::<ActionView, Seq<char>>(ActionView::Write(stored)),
{
    law_loaded_states_are_valid(store, 0);
    assert(adds_to(stored, stored));
    law_additions_are_saved_as_they_are(store, stored, stored);
}

/// Where there is no file yet, a valid snapshot without claimed or delivered work
/// is written as it is.
pub proof fn law_first_save_writes_the_snapshot(store: StoreView, state: StateView)
    requires
        store.content is Missing,
        state.valid(),
        state.run_inputs.len() == 0,
        forall|i: int|
            0 <= i < state.runs.len() ==> (
            #[trigger] state.runs[i]).output_delivery_ids.len() == 0,
        forall|i: int|
            0 <= i < state.outbound_deliveries.len() ==> (
            #[trigger] state.outbound_deliveries[i]).status is Pending,
    ensures
        store.saved(state) == Ok::<ActionView, Seq<char>>(ActionView::Write(state)),
{
    lemma_no_fault(
        state.outbound_deliveries.len(),
        |i: int| state.delivery_addition_fault(None, i),
    );
    lemma_no_fault(state.run_inputs.len(), |i: int| state.input_addition_fault(None, i));
    lemma_no_fault(state.runs.len(), |i: int| state.agent_transition_fault(None, i));
    lemma_no_fault(state.runs.len(), |i: int| state.output_addition_fault(None, i));
    law_writes_are_valid(store, state);
}

/// Persisting a new event writes the loaded state with that event recorded, and
/// nothing else. Once that is done the event is in the ledger that is loaded, and
/// persisting it again finds it there and leaves the file alone.
pub proof fn law_persisted_events_are_durable(
    store: StoreView,
    event: EventView,
    state: StateView,
    next: StateView,
    now: u64,
    again: u64,
)
    requires
        store.loaded(now) == Ok::<StateView, Seq<char>>(state),
        state.recorded(event, now) == Ok::<(StateView, InboundEventRecordStatus), Seq<char>>(
            (next, InboundEventRecordStatus::Recorded),
        ),
    ensures
        store.event_persisted(event, now) == Ok::<
            (InboundEventRecordStatus, ActionView),
            Seq<char>,
        >((InboundEventRecordStatus::Recorded, ActionView::Write(next))),
        ({
            let after = store.settled(ActionView::Write(next), DiskReport::Done);
            &&& after.loaded(again) == Ok::<StateView, Seq<char>>(next)
            &&& has_key(next.inbound_events, event.id)
            &&& after.event_persisted(event, again) == Ok::<
                (InboundEventRecordStatus, ActionView),
                Seq<char>,
            >((InboundEventRecordStatus::Duplicate, ActionView::Keep))
        }),
{
    broadcast use lemma_find_key;

    law_loaded_states_are_valid(store, now);
    law_recording_keeps_valid(state, event, now);
    lemma_find_key_push(
        state.inbound_events,
        crate::event::event_record(event, now),
        event.id,
    );
    match store.existing() {
        Ok(Some(stored)) => {
            assert(adds_to(next, stored)) by {
                assert(stored.inbound_events.is_prefix_of(next.inbound_events));
                assert(stored.queued_messages.is_prefix_of(next.queued_messages));
                assert(stored.outbound_deliveries.is_prefix_of(next.outbound_deliveries));
                assert forall|j: int|
                    stored.queued_messages.len() <= j < next.queued_messages.len() implies !has_key(
                    stored.inbound_events,
                    (#[trigger] next.queued_messages[j]).event_id,
                ) by {
                    assert(next.queued_messages[j].event_id == event.id);
                }
            }
            law_additions_are_saved_as_they_are(store, stored, next);
        },
        _ => {
            law_first_save_writes_the_snapshot(store, next);
        },
    }
    law_load_gives_back_what_was_written(store, next, again);
    law_recording_is_idempotent(state, event, now, again);
}

/// Queueing a new delivery writes the loaded state with that delivery queued, and
/// nothing else. Once that is done the delivery is loaded as it was queued, and
/// queueing it again finds it there and leaves the file alone.
pub proof fn law_queued_deliveries_are_durable(
    store: StoreView,
    delivery: DeliveryView,
    state: StateView,
    next: StateView,
    now: u64,
    again: u64,
)
    requires
        store.loaded(now) == Ok::<StateView, Seq<char>>(state),
        state.enqueued(delivery, now) == Ok::<
            (StateView, OutboundDeliveryEnqueueStatus),
            Seq<char>,
        >((next, OutboundDeliveryEnqueueStatus::Queued)),
    ensures
        store.delivery_enqueued(delivery, now) == Ok::<
            (OutboundDeliveryEnqueueStatus, ActionView),
            Seq<char>,
        >((OutboundDeliveryEnqueueStatus::Queued, ActionView::Write(next))),
        ({
            let after = store.settled(ActionView::Write(next), DiskReport::Done);
            &&& after.loaded(again) == Ok::<StateView, Seq<char>>(next)
            &&& lookup(next.outbound_deliveries, delivery.id) == Some(delivery)
            &&& after.delivery_enqueued(delivery, again) == Ok::<
                (OutboundDeliveryEnqueueStatus, ActionView),
                Seq<char>,
            >((OutboundDeliveryEnqueueStatus::Duplicate, ActionView::Keep))
        }),
{
    broadcast use lemma_find_key;

    law_loaded_states_are_valid(store, now);
    law_enqueue_keeps_valid(state, delivery, now);
    lemma_find_key_push(state.outbound_deliveries, delivery, delivery.id);
    match store.existing() {
        Ok(Some(stored)) => {
            assert(adds_to(next, stored)) by {
                assert(stored.outbound_deliveries.is_prefix_of(next.outbound_deliveries));
            }
            law_additions_are_saved_as_they_are(store, stored, next);
        },
        _ => {
            law_first_save_writes_the_snapshot(store, next);
        },
    }
    law_load_gives_back_what_was_written(store, next, again);
    law_enqueueing_is_idempotent(state, delivery, now, again);
}

/// A claim of messages for a run is written as it was decided.
pub proof fn law_claims_are_written(
    store: StoreView,
    state: StateView,
    run_id: Seq<char>,
    policy: MessageQueuePolicy,
    at: u64,
    now: u64,
)
    requires
        store.loaded(now) == Ok::<StateView, Seq<char>>(state),
    ensures
        state.batch_claimed(run_id, policy, at, now) matches Ok((next, claim)) ==> (claim is Claimed
            ==> store.batch_claimed(run_id, policy, at, now) == Ok::<
            (ClaimView, ActionView),
            Seq<char>,
        >((claim, ActionView::Write(next)))),
{
    law_loaded_states_are_valid(store, now);
    law_claiming_keeps_valid(state, run_id, policy, at, now);
    if let Ok((next, claim)) = state.batch_claimed(run_id, policy, at, now) {
        law_writes_are_valid(store, next);
    }
}

/// An attempt at a delivery is written as it was decided.
pub proof fn law_attempts_are_written(store: StoreView, state: StateView, at: u64, now: u64)
    requires
        store.loaded(now) == Ok::<StateView, Seq<char>>(state),
    ensures
        state.with_next_attempt(at, now) matches Ok((next, Some(tried)))
            ==> store.next_attempted(at, now) == Ok::<
            (Option<DeliveryView>, ActionView),
            Seq<char>,
        >((Some(tried), ActionView::Write(next))),
{
    law_loaded_states_are_valid(store, now);
    law_delivery_steps_keep_valid(state, Seq::empty(), at, Seq::empty(), now);
    if let Ok((next, tried)) = state.with_next_attempt(at, now) {
        law_writes_are_valid(store, next);
    }
}

/// What came of a delivery is written as it was noted.
pub proof fn law_delivery_outcomes_are_written(
    store: StoreView,
    state: StateView,
    id: Seq<char>,
    at: u64,
    error: Seq<char>,
    now: u64,
)
    requires
        store.loaded(now) == Ok::<StateView, Seq<char>>(state),
    ensures
        store.delivery_delivered(id, at, now) == written(state.with_delivered(id, at, now)),
        store.delivery_failed(id, at, error, now) == written(state.with_failed(id, at, error, now)),
        store.delivery_uncertain(id, at, error, now) == written(
            state.with_uncertain(id, at, error, now),
        ),
        store.delivery_changed(state.with_resolved_delivered(id, at, now)) == written(
            state.with_resolved_delivered(id, at, now),
        ),
        store.delivery_changed(state.with_resolved_failed(id, at, error, now)) == written(
            state.with_resolved_failed(id, at, error, now),
        ),
{
    law_loaded_states_are_valid(store, now);
    law_delivery_steps_keep_valid(state, id, at, error, now);
    if let Ok((next, _)) = state.with_delivered(id, at, now) {
        law_writes_are_valid(store, next);
    }
    if let Ok((next, _)) = state.with_failed(id, at, error, now) {
        law_writes_are_valid(store, next);
    }
    if let Ok((next, _)) = state.with_uncertain(id, at, error, now) {
        law_writes_are_valid(store, next);
    }
    if let Ok((next, _)) = state.with_resolved_delivered(id, at, now) {
        law_writes_are_valid(store, next);
    }
    if let Ok((next, _)) = state.with_resolved_failed(id, at, error, now) {
        law_writes_are_valid(store, next);
    }
}

/// A step of a run is written as it was decided.
pub proof fn law_run_steps_are_written(
    store: StoreView,
    state: StateView,
    id: Seq<char>,
    at: u64,
    now: u64,
)
    requires
        store.loaded(now) == Ok::<StateView, Seq<char>>(state),
    ensures
        store.run_changed(id, state.with_run_started(id, at, now)) == written_run(
            id,
            state.with_run_started(id, at, now),
        ),
        store.run_changed(id, state.with_run_failed(id, at, now)) == written_run(
            id,
            state.with_run_failed(id, at, now),
        ),
        store.run_changed(id, state.with_run_interrupted(id, at, now)) == written_run(
            id,
            state.with_run_interrupted(id, at, now),
        ),
{
    law_loaded_states_are_valid(store, now);
    law_run_steps_keep_valid(state, id, at, now);
    if let Ok(next) = state.with_run_started(id, at, now) {
        law_writes_are_valid(store, next);
    }
    if let Ok(next) = state.with_run_failed(id, at, now) {
        law_writes_are_valid(store, next);
    }
    if let Ok(next) = state.with_run_interrupted(id, at, now) {
        law_writes_are_valid(store, next);
    }
}

/// A step of the run under `id`, written; or its refusal.
pub open spec fn written_run(id: Seq<char>, outcome: Result<StateView, Seq<char>>) -> Result<
    (RunView, ActionView),
    Seq<char>,
> {
    match outcome {
        Ok(next) => Ok((lookup(next.runs, id)->Some_0, ActionView::Write(next))),
        Err(e) => Err(e),
    }
}

/// A change of a delivery, written; or its refusal.
pub open spec fn written(outcome: Result<(StateView, DeliveryView), Seq<char>>) -> Result<
    (DeliveryView, ActionView),
    Seq<char>,
> {
    match outcome {
        Ok((next, delivery)) => Ok((delivery, ActionView::Write(next))),
        Err(e) => Err(e),
    }
}

/// Startup recovery never refuses a state that can be loaded.
pub proof fn law_recovery_succeeds(store: StoreView, state: StateView, at: u64, now: u64)
    requires
        store.loaded(now) == Ok::<StateView, Seq<char>>(state),
    ensures
        store.deliveries_recovered(at, now) is Ok,
        store.runs_recovered(at, now) is Ok,
{
    law_loaded_states_are_valid(store, now);
    law_delivery_recovery_keeps_valid(state, at);
    law_run_recovery_keeps_valid(state, at);
    law_writes_are_valid(store, state.deliveries_reconciled(at));
    law_writes_are_valid(store, state.runs_reconciled(at));
}

/// An action that fails before the file has its new content leaves the store as it
/// was, and one that fails after leaves it with the new content; neither gives the
/// outcome out.
pub proof fn law_failed_writes_give_no_outcome(store: StoreView, state: StateView, e: String)
    ensures
        store.settled(ActionView::Write(state), DiskReport::NotReplaced(e)) == store,
        store.settled(ActionView::Write(state), DiskReport::Replaced(e)) == store.holding(state),
        store.settle_error(ActionView::Write(state), DiskReport::NotReplaced(e)) is Some,
        store.settle_error(ActionView::Write(state), DiskReport::Replaced(e)) is Some,
        store.settle_error(ActionView::ConfirmDurable, DiskReport::NotReplaced(e)) is Some,
{
}

/// An uncertain delivery that was settled as accepted can be settled so again, at
/// the same time: the repetition confirms that the file is durable and gives the
/// same delivery. At another time it is refused.
pub proof fn law_accepted_resolution_can_be_repeated(
    store: StoreView,
    id: Seq<char>,
    at: u64,
    now: u64,
    again: u64,
    other: u64,
)
    requires
        other != at,
    ensures
        store.resolved_delivered(id, at, now) matches Ok((delivery, ActionView::Write(next))) ==> {
            let after = store.settled(ActionView::Write(next), DiskReport::Done);
            &&& after.resolved_delivered(id, at, again) == Ok::<
                (DeliveryView, ActionView),
                Seq<char>,
            >((delivery, ActionView::ConfirmDurable))
            &&& after.resolved_delivered(id, other, again) is Err
        },
{
    broadcast use lemma_find_key;

    if let Ok((delivery, ActionView::Write(next))) = store.resolved_delivered(id, at, now) {
        let state = store.loaded(now)->Ok_0;
        let i = find_key(state.outbound_deliveries, id)->Some_0;
        law_writes_are_valid(store, next);
        law_load_gives_back_what_was_written(store, next, again);
        lemma_find_key_update(state.outbound_deliveries, i, delivery, id);
        assert(lookup(next.outbound_deliveries, id) == Some(delivery));
    }
}

/// An uncertain delivery that was settled as failed can be settled so again, at the
/// same time and for the same reason: the repetition confirms that the file is
/// durable and gives the same delivery. For another reason it is refused.
pub proof fn law_failed_resolution_can_be_repeated(
    store: StoreView,
    id: Seq<char>,
    at: u64,
    reason: Seq<char>,
    now: u64,
    again: u64,
    other: Seq<char>,
)
    requires
        other != reason,
    ensures
        store.resolved_failed(id, at, reason, now) matches Ok((delivery, ActionView::Write(next)))
            ==> {
            let after = store.settled(ActionView::Write(next), DiskReport::Done);
            &&& after.resolved_failed(id, at, reason, again) == Ok::<
                (DeliveryView, ActionView),
                Seq<char>,
            >((delivery, ActionView::ConfirmDurable))
            &&& after.resolved_failed(id, at, other, again) is Err
        },
{
    broadcast use lemma_find_key;

    if let Ok((delivery, ActionView::Write(next))) = store.resolved_failed(id, at, reason, now) {
        let state = store.loaded(now)->Ok_0;
        let i = find_key(state.outbound_deliveries, id)->Some_0;
        law_writes_are_valid(store, next);
        law_load_gives_back_what_was_written(store, next, again);
        lemma_find_key_update(state.outbound_deliveries, i, delivery, id);
        assert(lookup(next.outbound_deliveries, id) == Some(delivery));
    }
}

/// A failure or an interruption of a run that was noted can be noted again, at the
/// same time: the repetition confirms that the file is durable and gives the same
/// run.
pub proof fn law_run_outcomes_can_be_repeated(
    store: StoreView,
    id: Seq<char>,
    at: u64,
    now: u64,
    again: u64,
)
    ensures
        store.agent_run_failed(id, at, now) matches Ok((run, ActionView::Write(next)))
            ==> store.settled(ActionView::Write(next), DiskReport::Done).agent_run_failed(
            id,
            at,
            again,
        ) == Ok::<(RunView, ActionView), Seq<char>>((run, ActionView::ConfirmDurable)),
        store.agent_run_interrupted(id, at, now) matches Ok((run, ActionView::Write(next)))
            ==> store.settled(ActionView::Write(next), DiskReport::Done).agent_run_interrupted(
            id,
            at,
            again,
        ) == Ok::<(RunView, ActionView), Seq<char>>((run, ActionView::ConfirmDurable)),
{
    broadcast use lemma_find_key;

    law_loaded_states_are_valid(store, now);
    if let Ok((run, ActionView::Write(next))) = store.agent_run_failed(id, at, now) {
        let state = store.loaded(now)->Ok_0;
        let i = find_key(state.runs, id)->Some_0;
        let changed = state.runs[i].failed(at)->Ok_0;
        assert(state.runs[i].flaw() is None);
        law_writes_are_valid(store, next);
        law_load_gives_back_what_was_written(store, next, again);
        lemma_find_key_update(state.runs, i, changed, id);
        assert(lookup(next.runs, id) == Some(changed));
    }
    if let Ok((run, ActionView::Write(next))) = store.agent_run_interrupted(id, at, now) {
        let state = store.loaded(now)->Ok_0;
        let i = find_key(state.runs, id)->Some_0;
        let changed = state.runs[i].interrupted(at)->Ok_0;
        assert(state.runs[i].flaw() is None);
        law_writes_are_valid(store, next);
        law_load_gives_back_what_was_written(store, next, again);
        lemma_find_key_update(state.runs, i, changed, id);
        assert(lookup(next.runs, id) == Some(changed));
    }
}

/// The deliveries of a run's output have distinct ids.
proof fn lemma_outputs_are_distinct(
    run_id: Seq<char>,
    session_id: Seq<char>,
    messages: Seq<MessageView>,
    at: u64,
)
    ensures
        outputs(run_id, session_id, messages, at) matches Ok(deliveries) ==> distinct_keys(
            deliveries,
        ),
{
    if let Ok(deliveries) = outputs(run_id, session_id, messages, at) {
        assert forall|i: int, j: int| 0 <= i < j < deliveries.len() implies (
        #[trigger] deliveries[i]).key() != (#[trigger] deliveries[j]).key() by {
            if deliveries[i].key() == deliveries[j].key() {
                law_output_ids_are_distinct(run_id, i as nat, run_id, j as nat);
            }
        }
    }
}

/// Queueing deliveries leaves the runs alone, keeps every delivery that is there,
/// and has each of them afterwards.
proof fn lemma_all_enqueued(s: StateView, deliveries: Seq<DeliveryView>, now: u64)
    ensures
        s.all_enqueued(deliveries, now) matches Ok(t) ==> {
            &&& t.runs == s.runs
            &&& forall|key: Seq<char>|
                lookup(s.outbound_deliveries, key) is Some ==> #[trigger] lookup(
                    t.outbound_deliveries,
                    key,
                ) == lookup(s.outbound_deliveries, key)
            &&& forall|i: int|
                0 <= i < deliveries.len() ==> lookup(
                    t.outbound_deliveries,
                    (#[trigger] deliveries[i]).id,
                ) == Some(deliveries[i])
        },
    decreases deliveries.len(),
{
    broadcast use lemma_find_key;

    if deliveries.len() > 0 {
        let front = deliveries.drop_last();
        lemma_all_enqueued(s, front, now);
        if let Ok(t) = s.all_enqueued(deliveries, now) {
            let before = s.all_enqueued(front, now)->Ok_0;
            let delivery = deliveries.last();
            assert forall|key: Seq<char>|
                lookup(before.outbound_deliveries, key) is Some implies #[trigger] lookup(
                t.outbound_deliveries,
                key,
            ) == lookup(before.outbound_deliveries, key) by {
                lemma_find_key_push(before.outbound_deliveries, delivery, key);
            }
            assert forall|key: Seq<char>|
                lookup(s.outbound_deliveries, key) is Some implies #[trigger] lookup(
                t.outbound_deliveries,
                key,
            ) == lookup(s.outbound_deliveries, key) by {
                assert(lookup(before.outbound_deliveries, key) == lookup(
                    s.outbound_deliveries,
                    key,
                ));
            }
            assert forall|i: int| 0 <= i < deliveries.len() implies lookup(
                t.outbound_deliveries,
                (#[trigger] deliveries[i]).id,
            ) == Some(deliveries[i]) by {
                if i < front.len() {
                    assert(front[i] == deliveries[i]);
                    assert(lookup(before.outbound_deliveries, front[i].id) == Some(front[i]));
                } else {
                    lemma_find_key_push(before.outbound_deliveries, delivery, delivery.id);
                }
            }
        }
    }
}

/// Completing a running run writes the loaded state with the run completed and its
/// output queued, and nothing else.
pub proof fn law_completions_are_written(
    store: StoreView,
    state: StateView,
    id: Seq<char>,
    messages: Seq<MessageView>,
    at: u64,
    now: u64,
)
    requires
        store.loaded(now) == Ok::<StateView, Seq<char>>(state),
    ensures
        lookup(state.runs, id) matches Some(run) ==> (run.status is Running ==> (outputs(
            id,
            run.session_id,
            messages,
            at,
        ) matches Ok(expected) ==> store.agent_run_completed(id, messages, at, now) == (
        match state.with_output(id, expected, at, now) {
            Ok(next) => Ok((expected, ActionView::Write(next))),
            Err(e) => Err(e),
        }))),
{
    law_loaded_states_are_valid(store, now);
    if let Some(run) = lookup(state.runs, id) {
        lemma_outputs_are_distinct(id, run.session_id, messages, at);
        if let Ok(expected) = outputs(id, run.session_id, messages, at) {
            law_completion_keeps_valid(state, id, expected, at, now);
            if let Ok(next) = state.with_output(id, expected, at, now) {
                law_writes_are_valid(store, next);
            }
        }
    }
}

/// A completion that was written can be repeated with the same output and time: the
/// repetition confirms that the file is durable and gives the same deliveries.
pub proof fn law_completions_can_be_repeated(
    store: StoreView,
    id: Seq<char>,
    messages: Seq<MessageView>,
    at: u64,
    now: u64,
    again: u64,
)
    ensures
        store.agent_run_completed(id, messages, at, now) matches Ok(
            (deliveries, ActionView::Write(next)),
        ) ==> store.settled(ActionView::Write(next), DiskReport::Done).agent_run_completed(
            id,
            messages,
            at,
            again,
        ) == Ok::<(Seq<DeliveryView>, ActionView), Seq<char>>(
            (deliveries, ActionView::ConfirmDurable),
        ),
{
    broadcast use lemma_find_key;

    if let Ok((deliveries, ActionView::Write(next))) = store.agent_run_completed(
        id,
        messages,
        at,
        now,
    ) {
        let state = store.loaded(now)->Ok_0;
        let i = find_key(state.runs, id)->Some_0;
        let run = state.runs[i];
        let ids = delivery_ids(deliveries);
        let completed = run.completed(at, ids)->Ok_0;
        let middle = state.with_run_completed(id, at, ids, now)->Ok_0;
        law_writes_are_valid(store, next);
        law_load_gives_back_what_was_written(store, next, again);
        lemma_all_enqueued(middle, deliveries, now);
        lemma_find_key_update(state.runs, i, completed, id);
        assert(lookup(next.runs, id) == Some(completed));
        let fault_at = |k: int| replay_delivery_fault(next, completed, deliveries[k]);
        assert forall|k: int| 0 <= k < deliveries.len() implies (#[trigger] fault_at(k)) is None by {
            assert(lookup(next.outbound_deliveries, deliveries[k].id) == Some(deliveries[k]));
        }
        lemma_no_fault(deliveries.len(), fault_at);
        assert(replay_fault(next, completed, deliveries, at) is None);
        assert(persisted_outputs(next, completed) =~= deliveries) by {
            assert forall|k: int| 0 <= k < deliveries.len() implies persisted_outputs(
                next,
                completed,
            )[k] == deliveries[k] by {
                assert(lookup(next.outbound_deliveries, deliveries[k].id) == Some(deliveries[k]));
            }
        }
    }
}

/// A completion can still be repeated when its deliveries have come further.
pub proof fn law_replay_survives_delivery_steps(
    state: StateView,
    run: RunView,
    expected: Seq<DeliveryView>,
    at: u64,
    i: int,
    delivery: DeliveryView,
)
    requires
        replay_fault(state, run, expected, at) is None,
        0 <= i < state.outbound_deliveries.len(),
        delivery.same_enqueue(state.outbound_deliveries[i]),
    ensures
        replay_fault(
            (StateView {
                outbound_deliveries: state.outbound_deliveries.update(i, delivery),
                ..state
            }),
            run,
            expected,
            at,
        ) is None,
{
    broadcast use lemma_find_key;

    let after = StateView {
        outbound_deliveries: state.outbound_deliveries.update(i, delivery),
        ..state
    };
    let before_fault_at = |k: int| replay_delivery_fault(state, run, expected[k]);
    let fault_at = |k: int| replay_delivery_fault(after, run, expected[k]);
    lemma_no_fault(expected.len(), before_fault_at);
    assert forall|k: int| 0 <= k < expected.len() implies (#[trigger] fault_at(k)) is None by {
        assert(before_fault_at(k) is None);
        lemma_find_key_update(state.outbound_deliveries, i, delivery, expected[k].id);
    }
    lemma_no_fault(expected.len(), fault_at);
}

/// A snapshot that is saved, however old, takes nothing away from what is stored:
/// the ledger, run inputs and deliveries stay, runs only move on, and queued
/// messages stay queued or belong to a run.
pub proof fn law_saves_keep_what_is_stored(store: StoreView, stored: StateView, snapshot: StateView)
    requires
        store.existing() == Ok::<Option<StateView>, Seq<char>>(Some(stored)),
    ensures
        store.saved(snapshot) matches Ok(action) ==> {
            &&& action is Write
            &&& action->Write_0.valid()
            &&& stored.inbound_events.is_prefix_of(action->Write_0.inbound_events)
            &&& stored.run_inputs.is_prefix_of(action->Write_0.run_inputs)
            &&& stored.outbound_deliveries.is_prefix_of(action->Write_0.outbound_deliveries)
            &&& forall|i: int|
                0 <= i < stored.runs.len() ==> action->Write_0.runs[i] == #[trigger] stored.runs[i]
                    || action->Write_0.runs[i].descends_from(stored.runs[i])
            &&& forall|i: int|
                0 <= i < stored.queued_messages.len() ==> has_key(
                    action->Write_0.queued_messages,
                    (#[trigger] stored.queued_messages[i]).event_id,
                ) || action->Write_0.claimed_message(stored.queued_messages[i].event_id) is Some
        },
{
    broadcast use lemma_find_key;

    super::merge_laws::law_merge_keeps_what_is_stored(snapshot, stored);
    if let Ok(action) = store.saved(snapshot) {
        let next = snapshot.merged_with(stored)->Ok_0;
        law_writes_are_valid(store, next);
        assert forall|i: int| 0 <= i < stored.queued_messages.len() implies has_key(
            next.queued_messages,
            (#[trigger] stored.queued_messages[i]).event_id,
        ) || next.claimed_message(stored.queued_messages[i].event_id) is Some by {
            if next.queued_messages.contains(stored.queued_messages[i]) {
                let k = next.queued_messages.index_of(stored.queued_messages[i]);
                assert(next.queued_messages[k].key() == stored.queued_messages[i].event_id);
            }
        }
    }
}

/// The input of a run is handed out once: a run that was started cannot be started
/// again, whenever that is tried.
pub proof fn law_started_runs_are_handed_out_once(
    store: StoreView,
    id: Seq<char>,
    at: u64,
    now: u64,
    again_at: u64,
    again: u64,
)
    ensures
        store.agent_run_started(id, at, now) matches Ok((_, ActionView::Write(next)))
            ==> store.settled(ActionView::Write(next), DiskReport::Done).agent_run_started(
            id,
            again_at,
            again,
        ) is Err,
{
    broadcast use lemma_find_key;

    if let Ok((input, ActionView::Write(next))) = store.agent_run_started(id, at, now) {
        let state = store.loaded(now)->Ok_0;
        let i = find_key(state.runs, id)->Some_0;
        let running = state.runs[i].started(at)->Ok_0;
        law_writes_are_valid(store, next);
        law_load_gives_back_what_was_written(store, next, again);
        lemma_find_key_update(state.runs, i, running, id);
        assert(lookup(next.runs, id) == Some(running));
        assert(running.started(again_at) is Err);
    }
}

/// One write completes a run and queues its output: afterwards the run is completed
/// at that time and owns exactly those deliveries, and each of them is pending.
pub proof fn law_completion_links_the_output(
    store: StoreView,
    id: Seq<char>,
    messages: Seq<MessageView>,
    at: u64,
    now: u64,
)
    ensures
        store.agent_run_completed(id, messages, at, now) matches Ok(
            (deliveries, ActionView::Write(next)),
        ) ==> {
            &&& lookup(next.runs, id) matches Some(run) && {
                &&& run.status is Completed
                &&& run.finished_at_unix == Some(at)
                &&& run.output_delivery_ids == delivery_ids(deliveries)
            }
            &&& deliveries.len() == messages.len()
            &&& forall|i: int|
                0 <= i < deliveries.len() ==> {
                    &&& (#[trigger] deliveries[i]).status is Pending
                    &&& deliveries[i].message == messages[i]
                    &&& lookup(next.outbound_deliveries, deliveries[i].id) == Some(deliveries[i])
                }
        },
{
    broadcast use lemma_find_key;

    if let Ok((deliveries, ActionView::Write(next))) = store.agent_run_completed(
        id,
        messages,
        at,
        now,
    ) {
        let state = store.loaded(now)->Ok_0;
        let i = find_key(state.runs, id)->Some_0;
        let ids = delivery_ids(deliveries);
        let completed = state.runs[i].completed(at, ids)->Ok_0;
        let middle = state.with_run_completed(id, at, ids, now)->Ok_0;
        lemma_all_enqueued(middle, deliveries, now);
        lemma_find_key_update(state.runs, i, completed, id);
        assert(lookup(next.runs, id) == Some(completed));
    }
}

} // verus!

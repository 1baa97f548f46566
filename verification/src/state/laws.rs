//! What holds of the operations on a state beyond their single results.
use vstd::prelude::*;

use super::inbound::released;
use super::outbound::{first_claimable, lemma_first_claimable};
use super::recover::{
    any_delivering, any_to_interrupt, deliveries_recovered, deliveries_recovery_time,
    run_to_interrupt, runs_recovered, runs_recovery_time, runs_report, unsettled_ids,
};
use super::validity::lemma_active_run;
use super::view::{claims, StateView};
use crate::event::{EventView, InboundEventRecordStatus};
use crate::keyed::{find_key, has_key, lemma_find_key, lemma_find_key_push, lookup};
use crate::outbox::{DeliveryView, OutboundDeliveryEnqueueStatus};
use crate::queue::{ClaimView, MessageQueuePolicy, QueuedView, RunInputView};
use crate::run::RunView;

verus! {

/// In a valid state no message stands for an event that is not in the ledger.
proof fn lemma_messages_are_in_ledger(s: StateView, event_id: Seq<char>)
    requires
        s.valid(),
        !has_key(s.inbound_events, event_id),
    ensures
        s.message_record(event_id) is None,
{
    broadcast use lemma_find_key;

    if let Some(i) = find_key(s.queued_messages, event_id) {
        assert(s.backed(s.queued_messages[i]));
    }
    let taken = claims(s.run_inputs);
    if let Some(i) = find_key(taken, event_id) {
        assert(s.backed(taken[i].message));
    }
}

/// What an event asks to be queued is the same message whenever it is asked for.
proof fn lemma_entry_identity(s: StateView, event: EventView, at: u64, other: u64)
    ensures
        match (s.entry_for(event, at), s.entry_for(event, other)) {
            (Ok(Some(a)), Ok(Some(b))) => a.same_identity(b) && a.event_id == event.id,
            (Ok(None), Ok(None)) => true,
            (Err(a), Err(b)) => a == b,
            _ => false,
        },
{
}

/// An event that was recorded once is a duplicate from then on, and recording it
/// again changes nothing.
pub proof fn law_recording_is_idempotent(s: StateView, event: EventView, at: u64, again: u64)
    requires
        s.valid(),
    ensures
        s.recorded(event, at) matches Ok((t, _)) ==> t.recorded(event, again) == Ok::<
            (StateView, InboundEventRecordStatus),
            Seq<char>,
        >((t, InboundEventRecordStatus::Duplicate)),
{
    broadcast use lemma_find_key;

    if let Ok((t, status)) = s.recorded(event, at) {
        let entry = s.entry_for(event, at)->Ok_0;
        if status is Duplicate {
            lemma_entry_identity(s, event, at, again);
        } else {
            let record = crate::event::event_record(event, at);
            lemma_messages_are_in_ledger(s, event.id);
            lemma_find_key_push(s.inbound_events, record, event.id);
            assert(lookup(t.inbound_events, event.id) == Some(record));
            match entry {
                Some(queued) => {
                    lemma_find_key_push(s.queued_messages, queued, event.id);
                    assert(t.message_record(event.id) == Some(queued));
                    assert(t.entry_for(event, again) is Ok);
                    assert(t.entry_for(event, again)->Ok_0 is Some);
                },
                None => {
                    assert(t.queued_messages == s.queued_messages);
                    assert(t.message_record(event.id) is None);
                },
            }
        }
    }
}

/// A delivery that was queued once is a duplicate from then on, and queueing it
/// again changes nothing.
pub proof fn law_enqueueing_is_idempotent(s: StateView, delivery: DeliveryView, now: u64, again: u64)
    ensures
        s.enqueued(delivery, now) matches Ok((t, _)) ==> t.enqueued(delivery, again) == Ok::<
            (StateView, OutboundDeliveryEnqueueStatus),
            Seq<char>,
        >((t, OutboundDeliveryEnqueueStatus::Duplicate)),
{
    broadcast use lemma_find_key;

    if let Ok((t, status)) = s.enqueued(delivery, now) {
        if status is Queued {
            lemma_find_key_push(s.outbound_deliveries, delivery, delivery.id);
            assert(lookup(t.outbound_deliveries, delivery.id) == Some(delivery));
        }
    }
}

/// An attempt is only ever begun at a delivery that is pending or has failed, and
/// no other delivery changes: one that is delivered or uncertain is not sent again.
pub proof fn law_attempts_skip_settled_deliveries(s: StateView, at: u64, now: u64)
    ensures
        s.with_next_attempt(at, now) matches Ok((t, Some(tried))) ==> exists|i: int|
            {
                &&& 0 <= i < s.outbound_deliveries.len()
                &&& (#[trigger] s.outbound_deliveries[i]).claimable()
                &&& tried.id == s.outbound_deliveries[i].id
                &&& tried.status is Delivering
                &&& tried.delivery_attempts == s.outbound_deliveries[i].delivery_attempts + 1
                &&& t.outbound_deliveries == s.outbound_deliveries.update(i, tried)
            },
        s.with_next_attempt(at, now) matches Ok((t, None)) ==> t == s && forall|i: int|
            0 <= i < s.outbound_deliveries.len() ==> !(
            #[trigger] s.outbound_deliveries[i]).claimable(),
{
    lemma_first_claimable(s.outbound_deliveries);
    if let Ok((t, Some(tried))) = s.with_next_attempt(at, now) {
        let i = first_claimable(s.outbound_deliveries)->Some_0;
        assert(s.outbound_deliveries[i].claimable());
    }
}

proof fn lemma_no_delivering_recovery(deliveries: Seq<DeliveryView>, at: u64, base: u64)
    requires
        !any_delivering(deliveries),
    ensures
        deliveries_recovery_time(deliveries, at, base) == base,
        deliveries_recovered(deliveries, at) =~= deliveries,
    decreases deliveries.len(),
{
    assert(forall|i: int|
        0 <= i < deliveries.len() ==> !((#[trigger] deliveries[i]).status is Delivering));
    if deliveries.len() > 0 {
        let front = deliveries.drop_last();
        assert(forall|i: int| 0 <= i < front.len() ==> #[trigger] front[i] == deliveries[i]);
        lemma_no_delivering_recovery(front, at, base);
        assert(!(deliveries[deliveries.len() - 1].status is Delivering));
    }
}

proof fn lemma_unsettled_after_recovery(deliveries: Seq<DeliveryView>, at: u64)
    ensures
        unsettled_ids(deliveries_recovered(deliveries, at)) == unsettled_ids(deliveries),
    decreases deliveries.len(),
{
    if deliveries.len() > 0 {
        let front = deliveries.drop_last();
        lemma_unsettled_after_recovery(front, at);
        assert(deliveries_recovered(deliveries, at).drop_last() =~= deliveries_recovered(
            front,
            at,
        ));
    }
}

/// Startup recovery of deliveries leaves none under way, reports the same
/// deliveries when it is run again, and changes nothing then.
pub proof fn law_delivery_recovery_is_idempotent(s: StateView, at: u64, again: u64)
    ensures
        ({
            let t = s.deliveries_reconciled(at);
            &&& !any_delivering(t.outbound_deliveries)
            &&& unsettled_ids(t.outbound_deliveries) == unsettled_ids(s.outbound_deliveries)
            &&& t.deliveries_reconciled(again) == t
        }),
{
    let t = s.deliveries_reconciled(at);
    assert(forall|i: int|
        0 <= i < t.outbound_deliveries.len() ==> !((
        #[trigger] t.outbound_deliveries[i]).status is Delivering));
    lemma_unsettled_after_recovery(s.outbound_deliveries, at);
    lemma_no_delivering_recovery(t.outbound_deliveries, again, t.updated_at_unix);
}

proof fn lemma_no_interrupt_recovery(
    runs: Seq<RunView>,
    inputs: Seq<RunInputView>,
    at: u64,
    base: u64,
)
    requires
        !any_to_interrupt(runs, inputs),
    ensures
        runs_recovery_time(runs, inputs, at, base) == base,
        runs_recovered(runs, inputs, at) =~= runs,
    decreases runs.len(),
{
    assert(forall|i: int| 0 <= i < runs.len() ==> !run_to_interrupt(#[trigger] runs[i], inputs));
    if runs.len() > 0 {
        let front = runs.drop_last();
        assert(forall|i: int| 0 <= i < front.len() ==> #[trigger] front[i] == runs[i]);
        lemma_no_interrupt_recovery(front, inputs, at, base);
        assert(!run_to_interrupt(runs[runs.len() - 1], inputs));
    }
}

proof fn lemma_report_after_recovery(runs: Seq<RunView>, inputs: Seq<RunInputView>, at: u64)
    ensures
        runs_report(runs_recovered(runs, inputs, at), inputs) == runs_report(runs, inputs),
    decreases runs.len(),
{
    if runs.len() > 0 {
        let front = runs.drop_last();
        lemma_report_after_recovery(front, inputs, at);
        assert(runs_recovered(runs, inputs, at).drop_last() =~= runs_recovered(front, inputs, at));
    }
}

/// Startup recovery of runs leaves none running and none waiting without input,
/// reports the same runs when it is run again, and changes nothing then.
pub proof fn law_run_recovery_is_idempotent(s: StateView, at: u64, again: u64)
    ensures
        ({
            let t = s.runs_reconciled(at);
            &&& !any_to_interrupt(t.runs, t.run_inputs)
            &&& runs_report(t.runs, t.run_inputs) == runs_report(s.runs, s.run_inputs)
            &&& t.runs_reconciled(again) == t
        }),
{
    let t = s.runs_reconciled(at);
    assert(forall|i: int|
        0 <= i < t.runs.len() ==> !run_to_interrupt(#[trigger] t.runs[i], t.run_inputs));
    lemma_report_after_recovery(s.runs, s.run_inputs, at);
    lemma_no_interrupt_recovery(t.runs, t.run_inputs, again, t.updated_at_unix);
}

/// Startup recovery moves each run only to a later stage and takes no session away
/// from a run that holds it.
pub proof fn law_run_recovery_keeps_ownership(s: StateView, at: u64)
    ensures
        ({
            let t = s.runs_reconciled(at);
            &&& t.runs.len() == s.runs.len()
            &&& forall|i: int|
                0 <= i < s.runs.len() ==> {
                    &&& #[trigger] t.runs[i] == s.runs[i] || t.runs[i].descends_from(s.runs[i])
                    &&& t.runs[i].active() == s.runs[i].active()
                }
        }),
{
}

/// While a run of a session has not ended, interrupted or not, no other run can
/// be added to the session.
pub proof fn law_active_run_holds_its_session(s: StateView, i: int, run: RunView, now: u64)
    requires
        0 <= i < s.runs.len(),
        s.runs[i].active(),
        run.active(),
        run.session_id == s.runs[i].session_id,
    ensures
        s.with_run(run, now) is Err,
{
    lemma_active_run(s.runs, run.session_id);
    assert(s.runs[i].active());
}

/// A run that has ended does not keep its session from a new run.
pub proof fn law_ended_runs_release_the_session(s: StateView, run: RunView, now: u64)
    requires
        has_key(s.sessions, run.session_id),
        !has_key(s.runs, run.id),
        forall|i: int|
            0 <= i < s.runs.len() && (#[trigger] s.runs[i]).session_id == run.session_id
                ==> !s.runs[i].active(),
    ensures
        s.with_run(run, now) is Ok,
{
    lemma_active_run(s.runs, run.session_id);
}

proof fn lemma_released_keeps_others(queue: Seq<QueuedView>, taken: Seq<QueuedView>)
    ensures
        forall|i: int|
            0 <= i < queue.len() && !has_key(taken, (#[trigger] queue[i]).event_id) ==> released(
                queue,
                taken,
            ).contains(queue[i]),
    decreases queue.len(),
{
    if queue.len() > 0 {
        let front = queue.drop_last();
        let left = released(queue, taken);
        let before = released(front, taken);
        lemma_released_keeps_others(front, taken);
        assert forall|i: int|
            0 <= i < queue.len() && !has_key(
                taken,
                (#[trigger] queue[i]).event_id,
            ) implies left.contains(queue[i]) by {
            if i < front.len() {
                assert(front[i] == queue[i]);
                assert(before.contains(front[i]));
                let a = before.index_of(front[i]);
                assert(left[a] == queue[i]);
            } else {
                assert(left[left.len() - 1] == queue[i]);
            }
        }
    }
}

/// A claim loses no message: every queued message is still queued or belongs to
/// the new run.
pub proof fn law_claiming_loses_no_message(
    s: StateView,
    run_id: Seq<char>,
    policy: MessageQueuePolicy,
    now: u64,
    clock: u64,
)
    ensures
        s.batch_claimed(run_id, policy, now, clock) matches Ok(
            (t, ClaimView::Claimed { run, input }),
        ) ==> {
            &&& run.id == run_id
            &&& input.run_id == run_id
            &&& t.runs.last() == run
            &&& t.run_inputs.last() == input
            &&& forall|i: int|
                0 <= i < s.queued_messages.len() ==> has_key(
                    input.messages,
                    (#[trigger] s.queued_messages[i]).event_id,
                ) || t.queued_messages.contains(s.queued_messages[i])
        },
{
    if let Ok((t, ClaimView::Claimed { run, input })) = s.batch_claimed(
        run_id,
        policy,
        now,
        clock,
    ) {
        lemma_released_keeps_others(s.queued_messages, input.messages);
    }
}

/// The time of the last update never goes back.
pub proof fn law_time_moves_forward(
    s: StateView,
    event: EventView,
    run: RunView,
    delivery: DeliveryView,
    id: Seq<char>,
    policy: MessageQueuePolicy,
    at: u64,
    now: u64,
)
    ensures
        s.recorded(event, at) matches Ok((t, _)) ==> s.updated_at_unix <= t.updated_at_unix,
        s.with_run(run, now) matches Ok(t) ==> s.updated_at_unix <= t.updated_at_unix,
        s.with_run_started(id, at, now) matches Ok(t) ==> s.updated_at_unix <= t.updated_at_unix,
        s.with_run_interrupted(id, at, now) matches Ok(t) ==> s.updated_at_unix
            <= t.updated_at_unix,
        s.with_run_failed(id, at, now) matches Ok(t) ==> s.updated_at_unix <= t.updated_at_unix,
        s.with_run_cancelled(id, at, now) matches Ok(t) ==> s.updated_at_unix <= t.updated_at_unix,
        s.enqueued(delivery, now) matches Ok((t, _)) ==> s.updated_at_unix <= t.updated_at_unix,
        s.with_next_attempt(at, now) matches Ok((t, _)) ==> s.updated_at_unix <= t.updated_at_unix,
        s.batch_claimed(id, policy, at, now) matches Ok((t, _)) ==> s.updated_at_unix
            <= t.updated_at_unix,
{
}

} // verus!

//! What the contracts of the operations promise of a result: what was decided is
//! what comes out, and a refusal changes nothing.
use vstd::prelude::*;

use crate::event::InboundEventRecordStatus;
use crate::outbox::{
    DeliveryView, OutboundDeliveryEnqueueStatus, OutboundDeliveryRecord, OutboundDeliveryStatus,
};
use crate::queue::{ClaimView, MessageBatchClaimOutcome, MessageQueuePoll, PollView};
use crate::state::model::{found, RuntimeState};
use crate::state::outbound::{claimed_where, delivery_ref};
use crate::state::view::StateView;
use crate::store::file_store::{ActionView, StoreAction, Transition};

verus! {

/// A check that passes found nothing, and one that fails says what it found.
pub proof fn law_checks_say_what_they_found(r: Result<(), String>, fault: Option<Seq<char>>)
    requires
        crate::fault::reports(r, fault),
    ensures
        r is Ok <==> fault is None,
        r matches Err(e) ==> fault == Some(e@),
{
}

/// A change either ends in what was decided, or is refused with the text that was
/// decided, and then changes nothing.
pub proof fn law_refused_changes_change_nothing(
    r: Result<(), String>,
    before: StateView,
    after: StateView,
    outcome: Result<StateView, Seq<char>>,
)
    requires
        crate::fault::applies(r, before, after, outcome),
    ensures
        r is Ok ==> outcome == Ok::<StateView, Seq<char>>(after),
        r matches Err(e) ==> outcome == Err::<StateView, Seq<char>>(e@) && after == before,
{
}

/// As for every change, of recording an event.
pub proof fn law_refused_records_change_nothing(
    r: Result<InboundEventRecordStatus, String>,
    before: StateView,
    after: StateView,
    outcome: Result<(StateView, InboundEventRecordStatus), Seq<char>>,
)
    requires
        crate::state::inbound::gives_record_status(r, before, after, outcome),
    ensures
        r matches Ok(status) ==> outcome == Ok::<(StateView, InboundEventRecordStatus), Seq<char>>(
            (after, status),
        ),
        r matches Err(e) ==> outcome == Err::<(StateView, InboundEventRecordStatus), Seq<char>>(e@)
            && after == before,
{
}

/// As for every change, of claiming a batch.
pub proof fn law_refused_claims_change_nothing(
    r: Result<MessageBatchClaimOutcome, String>,
    before: StateView,
    after: StateView,
    outcome: Result<(StateView, ClaimView), Seq<char>>,
)
    requires
        crate::state::inbound::gives_claim(r, before, after, outcome),
    ensures
        r matches Ok(MessageBatchClaimOutcome::Claimed { run, input }) ==> outcome == Ok::<
            (StateView, ClaimView),
            Seq<char>,
        >((after, ClaimView::Claimed { run: run@, input: input@ })),
        r matches Ok(MessageBatchClaimOutcome::Waiting { next_ready_at_unix }) ==> outcome == Ok::<
            (StateView, ClaimView),
            Seq<char>,
        >((after, ClaimView::Waiting(next_ready_at_unix))),
        r matches Err(e) ==> outcome == Err::<(StateView, ClaimView), Seq<char>>(e@) && after
            == before,
{
}

/// As for every change, of queueing a delivery.
pub proof fn law_refused_deliveries_change_nothing(
    r: Result<OutboundDeliveryEnqueueStatus, String>,
    before: StateView,
    after: StateView,
    outcome: Result<(StateView, OutboundDeliveryEnqueueStatus), Seq<char>>,
)
    requires
        crate::state::outbound::gives_enqueue_status(r, before, after, outcome),
    ensures
        r matches Ok(status) ==> outcome == Ok::<
            (StateView, OutboundDeliveryEnqueueStatus),
            Seq<char>,
        >((after, status)),
        r matches Err(e) ==> outcome == Err::<
            (StateView, OutboundDeliveryEnqueueStatus),
            Seq<char>,
        >(e@) && after == before,
{
}

/// As for every change, of noting what came of a delivery.
pub proof fn law_refused_delivery_steps_change_nothing(
    r: Result<OutboundDeliveryRecord, String>,
    before: StateView,
    after: StateView,
    outcome: Result<(StateView, DeliveryView), Seq<char>>,
)
    requires
        crate::state::outbound::gives_delivery(r, before, after, outcome),
    ensures
        r matches Ok(delivery) ==> outcome == Ok::<(StateView, DeliveryView), Seq<char>>(
            (after, delivery@),
        ),
        r matches Err(e) ==> outcome == Err::<(StateView, DeliveryView), Seq<char>>(e@) && after
            == before,
{
}

/// As for every change, of trying the next delivery.
pub proof fn law_refused_attempts_change_nothing(
    r: Result<Option<OutboundDeliveryRecord>, String>,
    before: StateView,
    after: StateView,
    outcome: Result<(StateView, Option<DeliveryView>), Seq<char>>,
)
    requires
        crate::state::outbound::gives_next_delivery(r, before, after, outcome),
    ensures
        r matches Ok(Some(delivery)) ==> outcome == Ok::<
            (StateView, Option<DeliveryView>),
            Seq<char>,
        >((after, Some(delivery@))),
        r matches Ok(None) ==> outcome == Ok::<(StateView, Option<DeliveryView>), Seq<char>>(
            (after, None),
        ),
        r matches Err(e) ==> outcome == Err::<(StateView, Option<DeliveryView>), Seq<char>>(e@)
            && after == before,
{
}

/// A state that is given out is the one that was decided on.
pub proof fn law_states_come_out_as_decided(
    r: Result<RuntimeState, String>,
    outcome: Result<StateView, Seq<char>>,
)
    requires
        crate::state::persisted::gives_state(r, outcome),
    ensures
        r matches Ok(state) ==> outcome == Ok::<StateView, Seq<char>>(state@),
        r matches Err(e) ==> outcome == Err::<StateView, Seq<char>>(e@),
{
}

/// A record that is found is the one that was searched for.
pub proof fn law_found_records(r: Option<&OutboundDeliveryRecord>, model: Option<DeliveryView>)
    requires
        found(r, model),
    ensures
        r is Some <==> model is Some,
        r matches Some(delivery) ==> model == Some(delivery@),
{
}

/// A transition hands out the outcome and asks for the action that were decided on,
/// or it is refused with the text that was.
pub proof fn law_transitions_come_out_as_decided<T: View>(
    r: Result<Transition<T>, String>,
    outcome: Result<(T::V, ActionView), Seq<char>>,
)
    requires
        crate::store::file_store::gives(r, outcome),
    ensures
        r is Ok <==> outcome is Ok,
        r matches Ok(transition) ==> {
            &&& outcome->Ok_0.0 == transition.outcome@
            &&& transition.action is Keep <==> outcome->Ok_0.1 is Keep
            &&& transition.action is ConfirmDurable <==> outcome->Ok_0.1 is ConfirmDurable
            &&& transition.action matches StoreAction::Write(state) ==> outcome->Ok_0.1
                == ActionView::Write(state@)
        },
        r matches Err(e) ==> outcome->Err_0 == e@,
{
}

/// As for every transition, of trying the next delivery, completing a run and saving
/// a snapshot.
pub proof fn law_other_transitions_come_out_as_decided(
    tried: Result<Transition<Option<OutboundDeliveryRecord>>, String>,
    tried_outcome: Result<(Option<DeliveryView>, ActionView), Seq<char>>,
    completed: Result<Transition<Vec<OutboundDeliveryRecord>>, String>,
    completed_outcome: Result<(Seq<DeliveryView>, ActionView), Seq<char>>,
    saved: Result<Transition<()>, String>,
    saved_outcome: Result<ActionView, Seq<char>>,
)
    requires
        crate::store::outbound::gives_next(tried, tried_outcome),
        crate::store::run::gives_outputs(completed, completed_outcome),
        crate::store::save::gives_unit(saved, saved_outcome),
    ensures
        match tried {
            Ok(transition) => {
                &&& tried_outcome is Ok
                &&& tried_outcome->Ok_0.1 == transition.action@
                &&& match transition.outcome {
                    Some(delivery) => tried_outcome->Ok_0.0 == Some(delivery@),
                    None => tried_outcome->Ok_0.0 is None,
                }
            },
            Err(e) => tried_outcome is Err && tried_outcome->Err_0 == e@,
        },
        match completed {
            Ok(transition) => {
                &&& completed_outcome is Ok
                &&& completed_outcome->Ok_0.1 == transition.action@
                &&& completed_outcome->Ok_0.0.len() == transition.outcome@.len()
                &&& forall|i: int|
                    0 <= i < transition.outcome@.len() ==> #[trigger] completed_outcome->Ok_0.0[i]
                        == transition.outcome@[i]@
            },
            Err(e) => completed_outcome is Err && completed_outcome->Err_0 == e@,
        },
        match saved {
            Ok(transition) => saved_outcome is Ok && saved_outcome->Ok_0 == transition.action@,
            Err(e) => saved_outcome is Err && saved_outcome->Err_0 == e@,
        },
{
}

/// The model of what a poll found has the batch with its session and messages, in
/// order, or the time to wait for.
pub proof fn law_poll_models(poll: MessageQueuePoll)
    ensures
        match poll {
            MessageQueuePoll::Ready(batch) => {
                &&& poll@ is Ready
                &&& poll@->Ready_0.session_id == batch.session_id.text@
                &&& poll@->Ready_0.messages.len() == batch.messages@.len()
                &&& forall|i: int|
                    0 <= i < batch.messages@.len() ==> #[trigger] poll@->Ready_0.messages[i]
                        == batch.messages@[i]@
            },
            MessageQueuePoll::Waiting { next_ready_at_unix } => poll@ == PollView::Waiting(
                next_ready_at_unix,
            ),
        },
{
}

/// Claiming the next delivery that is accepted takes the first delivery that is
/// pending or failed and accepted, and makes it one under way, with one attempt more
/// and no error. Nothing is claimed, and nothing changes, exactly where every pending
/// or failed delivery was refused. Where the attempt is refused nothing changes.
pub proof fn law_claims_take_the_first_accepted_delivery<
    F: Fn(&OutboundDeliveryRecord) -> bool,
>(
    before: RuntimeState,
    after: StateView,
    is_eligible: F,
    at: u64,
    r: Result<Option<OutboundDeliveryRecord>, String>,
)
    requires
        claimed_where(before, after, is_eligible, at, r),
    ensures
        r matches Ok(None) ==> {
            &&& after == before@
            &&& forall|j: int|
                0 <= j < before.outbound_deliveries@.len() && ((
                #[trigger] before.outbound_deliveries@[j]).status is Pending
                    || before.outbound_deliveries@[j].status is Failed) ==> call_ensures(
                    is_eligible,
                    (&before.outbound_deliveries@[j],),
                    false,
                )
        },
        r is Err ==> after == before@,
        r matches Ok(Some(delivery)) ==> exists|i: int|
            {
                &&& 0 <= i < before.outbound_deliveries@.len()
                &&& (#[trigger] before.outbound_deliveries@[i]).status is Pending
                    || before.outbound_deliveries@[i].status is Failed
                &&& call_ensures(is_eligible, (&before.outbound_deliveries@[i],), true)
                &&& forall|j: int|
                    0 <= j < i && ((#[trigger] before.outbound_deliveries@[j]).status is Pending
                        || before.outbound_deliveries@[j].status is Failed) ==> call_ensures(
                        is_eligible,
                        (&before.outbound_deliveries@[j],),
                        false,
                    )
                &&& delivery@ == (DeliveryView {
                    status: OutboundDeliveryStatus::Delivering,
                    delivery_attempts: (before@.outbound_deliveries[i].delivery_attempts
                        + 1) as u32,
                    updated_at_unix: at,
                    last_error: None,
                    ..before@.outbound_deliveries[i]
                })
                &&& after == (StateView {
                    outbound_deliveries: before@.outbound_deliveries.update(i, delivery@),
                    updated_at_unix: after.updated_at_unix,
                    ..before@
                })
                &&& after.updated_at_unix >= before@.updated_at_unix
                &&& after.updated_at_unix >= at
            },
{
    broadcast use lemma_claimable;

    if let Ok(Some(delivery)) = r {
        let (i, now) = choose|i: int, now: u64|
            {
                &&& crate::state::outbound::accepted_first(before, is_eligible, i)
                &&& match #[trigger] before@.with_attempt_at(i, at, now) {
                    Ok((next, delivery)) => after == next && r is Ok && delivery_ref(r->Ok_0)
                        == Some(delivery),
                    Err(e) => after == before@ && r is Err && r->Err_0@ == e,
                }
            };
        assert(before.outbound_deliveries@[i]@ == before@.outbound_deliveries[i]);
        assert(before.outbound_deliveries@[i].status is Pending
            || before.outbound_deliveries@[i].status is Failed);
    }
}

broadcast proof fn lemma_claimable(delivery: OutboundDeliveryRecord)
    ensures
        (#[trigger] delivery@).claimable() <==> delivery.status is Pending || delivery.status
            is Failed,
{
}

} // verus!

//! What a refusal says: which of the things that are wrong is named, and how.
use vstd::prelude::*;

use super::inbound_laws::lemma_session_known;
use super::validity::lemma_active_run;
use super::view::{active_run, StateView};
use crate::event::{EventKindView, EventView};
use crate::keyed::{find_key, has_key, lemma_find_key, lemma_find_own_key, lookup, Keyed};
use crate::outbox::{DeliveryView, OutboundDeliveryStatus};
use crate::queue::MessageQueuePolicy;
use crate::run::{RunStatus, RunView};

verus! {

/// The names by which refusals call the statuses of runs and deliveries.
pub proof fn law_status_names()
    ensures
        RunStatus::Pending.name_text() == "Pending"@,
        RunStatus::Running.name_text() == "Running"@,
        RunStatus::Interrupted.name_text() == "Interrupted"@,
        RunStatus::Completed.name_text() == "Completed"@,
        RunStatus::Failed.name_text() == "Failed"@,
        RunStatus::Cancelled.name_text() == "Cancelled"@,
        OutboundDeliveryStatus::Pending.name_text() == "Pending"@,
        OutboundDeliveryStatus::Delivering.name_text() == "Delivering"@,
        OutboundDeliveryStatus::Delivered.name_text() == "Delivered"@,
        OutboundDeliveryStatus::Failed.name_text() == "Failed"@,
        OutboundDeliveryStatus::Uncertain.name_text() == "Uncertain"@,
{
}

// ------------------------------------------------------------ operations

/// A run that cannot be added is refused for its session where that is not there,
/// otherwise for its id where that is taken, and otherwise for the first run of the
/// session that is not completed, failed or cancelled.
pub proof fn law_refused_runs(s: StateView, run: RunView, now: u64)
    ensures
        s.with_run(run, now) matches Err(e) ==> {
            if forall|i: int|
                0 <= i < s.sessions.len() ==> (#[trigger] s.sessions[i]).id != run.session_id {
                e == "run "@ + run.id + " references unknown session "@ + run.session_id
            } else if exists|i: int| 0 <= i < s.runs.len() && (#[trigger] s.runs[i]).id == run.id {
                e == "duplicate run id "@ + run.id
            } else {
                exists|i: int|
                    {
                        &&& 0 <= i < s.runs.len()
                        &&& (#[trigger] s.runs[i]).session_id == run.session_id
                        &&& s.runs[i].status !is Completed && s.runs[i].status !is Failed
                            && s.runs[i].status !is Cancelled
                        &&& forall|j: int|
                            0 <= j < i && (#[trigger] s.runs[j]).session_id == run.session_id
                                ==> s.runs[j].status is Completed || s.runs[j].status is Failed
                                || s.runs[j].status is Cancelled
                        &&& e == "session "@ + run.session_id + " already has active run "@
                            + s.runs[i].id
                    }
            }
        },
{
    lemma_session_known(s, run.session_id);
    lemma_find_key(s.runs, run.id);
    lemma_active_run(s.runs, run.session_id);
    match find_key(s.runs, run.id) {
        Some(k) => {
            assert(s.runs[k].id == run.id);
        },
        None => {
            assert forall|i: int| 0 <= i < s.runs.len() implies (#[trigger] s.runs[i]).id
                != run.id by {
                assert(s.runs[i].key() != run.id);
            }
        },
    }
    if let Some(k) = active_run(s.runs, run.session_id) {
        assert(s.runs[k].session_id == run.session_id);
        assert forall|j: int|
            0 <= j < k && (#[trigger] s.runs[j]).session_id
                == run.session_id implies s.runs[j].status is Completed || s.runs[j].status
            is Failed || s.runs[j].status is Cancelled by {
            assert(!s.runs[j].active());
        }
    }
}

/// A step of a run that is not there is refused for its id, and any other refused
/// step as the run refuses it.
pub proof fn law_refused_run_steps(
    s: StateView,
    id: Seq<char>,
    at: u64,
    outputs: Seq<Seq<char>>,
    now: u64,
)
    ensures
        (forall|i: int| 0 <= i < s.runs.len() ==> (#[trigger] s.runs[i]).id != id) ==> {
            let refusal = Err::<StateView, Seq<char>>("unknown run id "@ + id);
            &&& s.with_run_started(id, at, now) == refusal
            &&& s.with_run_interrupted(id, at, now) == refusal
            &&& s.with_run_completed(id, at, outputs, now) == refusal
            &&& s.with_run_failed(id, at, now) == refusal
            &&& s.with_run_cancelled(id, at, now) == refusal
        },
        forall|i: int|
            0 <= i < s.runs.len() && (#[trigger] s.runs[i]).id == id && (forall|j: int|
                0 <= j < i ==> (#[trigger] s.runs[j]).id != id) ==> {
                &&& s.runs[i].started(at) matches Err(e) ==> s.with_run_started(id, at, now)
                    == Err::<StateView, Seq<char>>(e)
                &&& s.runs[i].interrupted(at) matches Err(e) ==> s.with_run_interrupted(id, at, now)
                    == Err::<StateView, Seq<char>>(e)
                &&& s.runs[i].completed(at, outputs) matches Err(e) ==> s.with_run_completed(
                    id,
                    at,
                    outputs,
                    now,
                ) == Err::<StateView, Seq<char>>(e)
                &&& s.runs[i].failed(at) matches Err(e) ==> s.with_run_failed(id, at, now) == Err::<
                    StateView,
                    Seq<char>,
                >(e)
                &&& s.runs[i].cancelled(at) matches Err(e) ==> s.with_run_cancelled(id, at, now)
                    == Err::<StateView, Seq<char>>(e)
            },
{
    lemma_find_key(s.runs, id);
    match find_key(s.runs, id) {
        Some(k) => {
            assert(s.runs[k].id == id);
            assert forall|i: int|
                0 <= i < s.runs.len() && (#[trigger] s.runs[i]).id == id && (forall|j: int|
                    0 <= j < i ==> (#[trigger] s.runs[j]).id != id) implies i == k by {
                if i < k {
                    assert(s.runs[i].key() != id);
                }
            }
        },
        None => {
            assert forall|i: int| 0 <= i < s.runs.len() implies (#[trigger] s.runs[i]).id
                != id by {
                assert(s.runs[i].key() != id);
            }
        },
    }
}

/// A step of a delivery is refused with a text that names the delivery and either
/// what is missing (attempts, or the text of an error), the status that does not
/// allow the step, or the time before which it cannot be.
pub proof fn law_refused_delivery_steps(delivery: DeliveryView, at: u64, error: Seq<char>)
    ensures
        delivery.begun(at) matches Err(e) ==> e == if delivery.status is Pending || delivery.status
            is Failed {
            if delivery.delivery_attempts == u32::MAX {
                "outbound delivery "@ + delivery.id + " has no delivery attempts left"@
            } else {
                "outbound delivery "@ + delivery.id + " cannot "@ + "begin delivery"@
                    + " before updated_at_unix"@
            }
        } else {
            "outbound delivery "@ + delivery.id + " cannot "@ + "begin delivery"@ + (" from "@
                + delivery.status.name_text())
        },
        delivery.delivered(at) matches Err(e) ==> e == if delivery.status is Delivering {
            "outbound delivery "@ + delivery.id + " cannot "@ + "complete"@
                + " before updated_at_unix"@
        } else {
            "outbound delivery "@ + delivery.id + " cannot "@ + "complete"@ + (" from "@
                + delivery.status.name_text())
        },
        delivery.failed(at, error) matches Err(e) ==> e == if delivery.status is Delivering {
            if crate::text::is_blank(error) {
                "outbound delivery "@ + delivery.id + " delivery error is empty"@
            } else {
                "outbound delivery "@ + delivery.id + " cannot "@ + "fail"@
                    + " before updated_at_unix"@
            }
        } else {
            "outbound delivery "@ + delivery.id + " cannot "@ + "fail"@ + (" from "@
                + delivery.status.name_text())
        },
        delivery.uncertain(at, error) matches Err(e) ==> e == if delivery.status is Delivering {
            if crate::text::is_blank(error) {
                "outbound delivery "@ + delivery.id + " delivery error is empty"@
            } else {
                "outbound delivery "@ + delivery.id + " cannot "@ + "become uncertain"@
                    + " before updated_at_unix"@
            }
        } else {
            "outbound delivery "@ + delivery.id + " cannot "@ + "become uncertain"@ + (" from "@
                + delivery.status.name_text())
        },
        delivery.resolved_delivered(at) matches Err(e) ==> e == if delivery.status is Uncertain {
            "outbound delivery "@ + delivery.id + " cannot "@ + "resolve as delivered"@
                + " before updated_at_unix"@
        } else {
            "outbound delivery "@ + delivery.id + " cannot "@ + "resolve as delivered"@ + (
            " from "@ + delivery.status.name_text())
        },
        delivery.resolved_failed(at, error) matches Err(e) ==> e == if delivery.status is Uncertain {
            if crate::text::is_blank(error) {
                "outbound delivery "@ + delivery.id + " resolution failure is empty"@
            } else {
                "outbound delivery "@ + delivery.id + " cannot "@ + "resolve as failed"@
                    + " before updated_at_unix"@
            }
        } else {
            "outbound delivery "@ + delivery.id + " cannot "@ + "resolve as failed"@ + (" from "@
                + delivery.status.name_text())
        },
{
}

/// Noting something of a delivery that is not there is refused for its id, and any
/// other refusal is that of the delivery.
pub proof fn law_refused_notes(
    s: StateView,
    id: Seq<char>,
    at: u64,
    error: Seq<char>,
    now: u64,
)
    ensures
        (forall|i: int|
            0 <= i < s.outbound_deliveries.len() ==> (#[trigger] s.outbound_deliveries[i]).id != id)
            ==> {
            let refusal = Err::<(StateView, DeliveryView), Seq<char>>(
                "unknown outbound delivery id "@ + id,
            );
            &&& s.with_delivered(id, at, now) == refusal
            &&& s.with_failed(id, at, error, now) == refusal
            &&& s.with_uncertain(id, at, error, now) == refusal
            &&& s.with_resolved_delivered(id, at, now) == refusal
            &&& s.with_resolved_failed(id, at, error, now) == refusal
        },
        forall|i: int|
            0 <= i < s.outbound_deliveries.len() && (#[trigger] s.outbound_deliveries[i]).id == id
                && (forall|j: int|
                0 <= j < i ==> (#[trigger] s.outbound_deliveries[j]).id != id) ==> {
                let delivery = s.outbound_deliveries[i];
                &&& delivery.delivered(at) matches Err(e) ==> s.with_delivered(id, at, now) == Err::<
                    (StateView, DeliveryView),
                    Seq<char>,
                >(e)
                &&& delivery.failed(at, error) matches Err(e) ==> s.with_failed(id, at, error, now)
                    == Err::<(StateView, DeliveryView), Seq<char>>(e)
                &&& delivery.uncertain(at, error) matches Err(e) ==> s.with_uncertain(
                    id,
                    at,
                    error,
                    now,
                ) == Err::<(StateView, DeliveryView), Seq<char>>(e)
                &&& delivery.resolved_delivered(at) matches Err(e) ==> s.with_resolved_delivered(
                    id,
                    at,
                    now,
                ) == Err::<(StateView, DeliveryView), Seq<char>>(e)
                &&& delivery.resolved_failed(at, error) matches Err(e) ==> s.with_resolved_failed(
                    id,
                    at,
                    error,
                    now,
                ) == Err::<(StateView, DeliveryView), Seq<char>>(e)
            },
{
    lemma_find_key(s.outbound_deliveries, id);
    match find_key(s.outbound_deliveries, id) {
        Some(k) => {
            assert(s.outbound_deliveries[k].id == id);
            assert forall|i: int|
                0 <= i < s.outbound_deliveries.len() && (#[trigger] s.outbound_deliveries[i]).id
                    == id && (forall|j: int|
                    0 <= j < i ==> (#[trigger] s.outbound_deliveries[j]).id != id) implies i
                == k by {
                if i < k {
                    assert(s.outbound_deliveries[i].key() != id);
                }
            }
        },
        None => {
            assert forall|i: int| 0 <= i < s.outbound_deliveries.len() implies (
            #[trigger] s.outbound_deliveries[i]).id != id by {
                assert(s.outbound_deliveries[i].key() != id);
            }
        },
    }
}

/// A delivery that is not accepted for the outbox is refused for what is wrong with
/// it, otherwise for its session where that is not there, otherwise for its status
/// where it is not pending, and otherwise because another delivery has its id.
pub proof fn law_refused_deliveries(s: StateView, delivery: DeliveryView, now: u64)
    ensures
        s.enqueued(delivery, now) matches Err(e) ==> {
            if delivery.flaw() is Some {
                delivery.flaw() == Some(e)
            } else if forall|i: int|
                0 <= i < s.sessions.len() ==> (#[trigger] s.sessions[i]).id
                    != delivery.session_id {
                e == "outbound delivery "@ + delivery.id + " references unknown session "@
                    + delivery.session_id
            } else if delivery.status !is Pending {
                e == "outbound delivery "@ + delivery.id + " cannot enqueue from "@
                    + delivery.status.name_text()
            } else {
                e == "conflicting outbound delivery "@ + delivery.id
            }
        },
{
    lemma_session_known(s, delivery.session_id);
}

/// A claim of a valid state that is refused is refused for the run id, which is
/// taken.
pub proof fn law_refused_claims(
    s: StateView,
    run_id: Seq<char>,
    policy: MessageQueuePolicy,
    now: u64,
    clock: u64,
)
    requires
        s.valid(),
        policy.max_messages > 0,
    ensures
        s.batch_claimed(run_id, policy, now, clock) matches Err(e) ==> e == "duplicate run id "@
            + run_id,
{
    super::claim_laws::law_claims_are_refused_only_for_their_id(s, run_id, policy, now, clock);
    if s.batch_claimed(run_id, policy, now, clock) is Err {
        lemma_claim_refusal(s, run_id, policy, now, clock);
    }
}

/// The input of a claim is sound, and its session is there and free.
proof fn lemma_claim_refusal(
    s: StateView,
    run_id: Seq<char>,
    policy: MessageQueuePolicy,
    now: u64,
    clock: u64,
)
    requires
        s.valid(),
        policy.max_messages > 0,
        s.batch_claimed(run_id, policy, now, clock) is Err,
    ensures
        s.batch_claimed(run_id, policy, now, clock)->Err_0 == "duplicate run id "@ + run_id,
{
    let busy = super::inbound::busy_sessions(s.runs);
    let queue = s.queued_messages;
    policy.law_batches_are_due(queue, now, busy);
    if let crate::queue::PollView::Ready(batch) = policy.polled(queue, now, busy) {
        let input = crate::queue::run_input_of(run_id, batch, now);
        assert forall|a: int| 0 <= a < batch.messages.len() implies input.message_flaw(
            #[trigger] input.messages[a],
        ) is None by {
            let message = batch.messages[a];
            assert(queue.contains(message));
            let k = queue.index_of(message);
            assert(queue[k].flaw() is None);
        }
        input.law_sound_inputs();
        let first = batch.messages[0];
        assert(queue.contains(first));
        let k = queue.index_of(first);
        assert(has_key(s.sessions, queue[k].session_id));
        super::keeping_queue::lemma_busy_sessions(s.runs, batch.session_id);
    }
}

/// An event that is refused is refused for the session of its message where that is
/// not there; otherwise for its source, for the author of its message, or, where the
/// event is known, because it says something else than the ledger: another receive
/// time, another message, a message where none was queued, or none where one was.
pub proof fn law_refused_events(s: StateView, event: EventView, at: u64)
    requires
        s.valid(),
    ensures
        s.recorded(event, at) matches Err(e) ==> {
            let bound = event.kind is MessageReceived
                && event.kind->MessageReceived_message.session_id is Some;
            let message = event.kind->MessageReceived_message;
            let session_id = message.session_id->Some_0;
            let held = s.message_record(event.id) is Some;
            if bound && forall|i: int|
                0 <= i < s.sessions.len() ==> (#[trigger] s.sessions[i]).id != session_id {
                e == "inbound message event "@ + event.id + " references unknown session "@
                    + session_id
            } else if bound && event.source !is Platform {
                e == "queued message event "@ + event.id + " must come from a platform"@
            } else if bound && message.author !is User {
                e == "queued message event "@ + event.id + " must contain a user-authored message"@
            } else if event.kind is MessageReceived && !bound && held {
                e == "inbound message event "@ + event.id
                    + " must reference a session before persistence"@
            } else if exists|p: int|
                0 <= p < s.inbound_events.len() && (#[trigger] s.inbound_events[p]).id == event.id
                    && s.inbound_events[p].received_at_unix != event.received_at_unix {
                e == "conflicting inbound event "@ + event.id + " received_at_unix"@
            } else if bound && held {
                e == "conflicting queued message event "@ + event.id
            } else if bound {
                e == "duplicate inbound message event "@ + event.id
                    + " has no queued message record"@
            } else {
                e == "duplicate inbound event "@ + event.id
                    + " conflicts with a queued message record"@
            }
        },
        s.message_record(event.id) is Some <==> (exists|i: int|
            0 <= i < s.queued_messages.len() && (#[trigger] s.queued_messages[i]).event_id
                == event.id) || (exists|k: int, j: int|
            0 <= k < s.run_inputs.len() && 0 <= j < s.run_inputs[k].messages.len() && (
            #[trigger] s.run_inputs[k].messages[j]).event_id == event.id),
{
    super::inbound_laws::lemma_message_record(s, event.id);
    lemma_find_key(s.inbound_events, event.id);
    if let EventKindView::MessageReceived { message } = event.kind {
        if let Some(session_id) = message.session_id {
            lemma_session_known(s, session_id);
        }
    }
    assert forall|p: int|
        0 <= p < s.inbound_events.len() && (#[trigger] s.inbound_events[p]).id
            == event.id implies lookup(s.inbound_events, event.id) == Some(
        s.inbound_events[p],
    ) by {
        lemma_find_own_key(s.inbound_events, p);
    }
    if let Some(p) = find_key(s.inbound_events, event.id) {
        assert(s.inbound_events[p].id == event.id);
    }
}

} // verus!

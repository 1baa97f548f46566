//! What a check of a state says: which of the things that are wrong is named first,
//! and how.
use vstd::prelude::*;

use super::inbound_laws::lemma_session_known;
use super::validity::{lemma_active_run, lemma_claim_origin, lemma_claims_before};
use super::validity_laws::lemma_claims_in_order;
use super::view::{active_run, claims, claims_before, ClaimedView, StateView};
use crate::event::EventRecordView;
use crate::fault::{first_fault, law_first_fault, lemma_no_fault};
use crate::keyed::{distinct_keys, find_key, has_key, lemma_find_key, lemma_find_own_key, Keyed};
use crate::outbox::DeliveryView;
use crate::queue::{QueuedView, RunInputView};
use crate::run::RunView;
use crate::session::SessionView;

verus! {

/// A state is checked in one order: sessions, runs, the ledger, deliveries, the queue,
/// run inputs, and how the queue follows them. Within each the first record with a
/// fault is named, and within a run input the record itself comes before its messages
/// and these before its time.
pub proof fn law_first_faults(s: StateView)
    ensures
        s.fault() == if s.sessions_fault() is Some {
            s.sessions_fault()
        } else if s.runs_fault() is Some {
            s.runs_fault()
        } else if s.events_fault() is Some {
            s.events_fault()
        } else if s.deliveries_fault() is Some {
            s.deliveries_fault()
        } else if s.queue_fault() is Some {
            s.queue_fault()
        } else if s.inputs_fault() is Some {
            s.inputs_fault()
        } else {
            s.handovers_fault()
        },
        s.sessions_fault() matches Some(e) ==> exists|i: int|
            {
                &&& 0 <= i < s.sessions.len()
                &&& #[trigger] s.session_fault(i) == Some(e)
                &&& forall|j: int| 0 <= j < i ==> (#[trigger] s.session_fault(j)) is None
            },
        s.runs_fault() matches Some(e) ==> exists|i: int|
            {
                &&& 0 <= i < s.runs.len()
                &&& #[trigger] s.run_fault(i) == Some(e)
                &&& forall|j: int| 0 <= j < i ==> (#[trigger] s.run_fault(j)) is None
            },
        s.events_fault() matches Some(e) ==> exists|i: int|
            {
                &&& 0 <= i < s.inbound_events.len()
                &&& #[trigger] s.event_fault(i) == Some(e)
                &&& forall|j: int| 0 <= j < i ==> (#[trigger] s.event_fault(j)) is None
            },
        s.deliveries_fault() matches Some(e) ==> exists|i: int|
            {
                &&& 0 <= i < s.outbound_deliveries.len()
                &&& #[trigger] s.delivery_fault(i) == Some(e)
                &&& forall|j: int| 0 <= j < i ==> (#[trigger] s.delivery_fault(j)) is None
            },
        s.queue_fault() matches Some(e) ==> exists|i: int|
            {
                &&& 0 <= i < s.queued_messages.len()
                &&& #[trigger] s.queued_fault(i) == Some(e)
                &&& forall|j: int| 0 <= j < i ==> (#[trigger] s.queued_fault(j)) is None
            },
        s.inputs_fault() matches Some(e) ==> exists|i: int|
            {
                &&& 0 <= i < s.run_inputs.len()
                &&& #[trigger] s.input_fault(i) == Some(e)
                &&& forall|j: int| 0 <= j < i ==> (#[trigger] s.input_fault(j)) is None
            },
        s.handovers_fault() matches Some(e) ==> exists|i: int|
            {
                &&& 0 <= i < s.queued_messages.len()
                &&& #[trigger] s.handover_fault(i) == Some(e)
                &&& forall|j: int| 0 <= j < i ==> (#[trigger] s.handover_fault(j)) is None
            },
        forall|k: int|
            0 <= k < s.run_inputs.len() ==> match #[trigger] s.input_fault(k) {
                Some(e) => {
                    ||| s.input_head_fault(k) == Some(e)
                    ||| s.input_head_fault(k) is None && exists|j: int|
                        {
                            &&& 0 <= j < s.run_inputs[k].messages.len()
                            &&& #[trigger] s.claim_fault(k, j) == Some(e)
                            &&& forall|m: int|
                                0 <= m < j ==> (#[trigger] s.claim_fault(k, m)) is None
                        }
                    ||| s.input_head_fault(k) is None && (forall|j: int|
                        0 <= j < s.run_inputs[k].messages.len() ==> (#[trigger] s.claim_fault(k, j))
                            is None) && s.input_time_fault(k) == Some(e)
                },
                None => s.input_head_fault(k) is None && (forall|j: int|
                    0 <= j < s.run_inputs[k].messages.len() ==> (#[trigger] s.claim_fault(k, j))
                        is None) && s.input_time_fault(k) is None,
            },
{
    lemma_session_first(s);
    lemma_run_first(s);
    lemma_event_first(s);
    lemma_delivery_first(s);
    lemma_queue_first(s);
    lemma_input_first(s);
    lemma_handover_first(s);
    assert forall|k: int| 0 <= k < s.run_inputs.len() implies match #[trigger] s.input_fault(k) {
        Some(e) => {
            ||| s.input_head_fault(k) == Some(e)
            ||| s.input_head_fault(k) is None && exists|j: int|
                {
                    &&& 0 <= j < s.run_inputs[k].messages.len()
                    &&& #[trigger] s.claim_fault(k, j) == Some(e)
                    &&& forall|m: int| 0 <= m < j ==> (#[trigger] s.claim_fault(k, m)) is None
                }
            ||| s.input_head_fault(k) is None && (forall|j: int|
                0 <= j < s.run_inputs[k].messages.len() ==> (#[trigger] s.claim_fault(k, j))
                    is None) && s.input_time_fault(k) == Some(e)
        },
        None => s.input_head_fault(k) is None && (forall|j: int|
            0 <= j < s.run_inputs[k].messages.len() ==> (#[trigger] s.claim_fault(k, j)) is None)
            && s.input_time_fault(k) is None,
    } by {
        lemma_input_parts(s, k);
    }
}

proof fn lemma_session_first(s: StateView)
    ensures
        s.sessions_fault() matches Some(e) ==> exists|i: int|
            {
                &&& 0 <= i < s.sessions.len()
                &&& #[trigger] s.session_fault(i) == Some(e)
                &&& forall|j: int| 0 <= j < i ==> (#[trigger] s.session_fault(j)) is None
            },
{
    let fault_at = |i: int| s.session_fault(i);
    law_first_fault(s.sessions.len(), fault_at);
    if let Some(e) = s.sessions_fault() {
        let i = choose|i: int|
            {
                &&& 0 <= i < s.sessions.len()
                &&& #[trigger] fault_at(i) == Some(e)
                &&& forall|j: int| 0 <= j < i ==> (#[trigger] fault_at(j)) is None
            };
        assert forall|j: int| 0 <= j < i implies (#[trigger] s.session_fault(j)) is None by {
            assert(fault_at(j) is None);
        }
        assert(s.session_fault(i) == Some(e));
    }
}

proof fn lemma_run_first(s: StateView)
    ensures
        s.runs_fault() matches Some(e) ==> exists|i: int|
            {
                &&& 0 <= i < s.runs.len()
                &&& #[trigger] s.run_fault(i) == Some(e)
                &&& forall|j: int| 0 <= j < i ==> (#[trigger] s.run_fault(j)) is None
            },
{
    let fault_at = |i: int| s.run_fault(i);
    law_first_fault(s.runs.len(), fault_at);
    if let Some(e) = s.runs_fault() {
        let i = choose|i: int|
            {
                &&& 0 <= i < s.runs.len()
                &&& #[trigger] fault_at(i) == Some(e)
                &&& forall|j: int| 0 <= j < i ==> (#[trigger] fault_at(j)) is None
            };
        assert forall|j: int| 0 <= j < i implies (#[trigger] s.run_fault(j)) is None by {
            assert(fault_at(j) is None);
        }
        assert(s.run_fault(i) == Some(e));
    }
}

proof fn lemma_event_first(s: StateView)
    ensures
        s.events_fault() matches Some(e) ==> exists|i: int|
            {
                &&& 0 <= i < s.inbound_events.len()
                &&& #[trigger] s.event_fault(i) == Some(e)
                &&& forall|j: int| 0 <= j < i ==> (#[trigger] s.event_fault(j)) is None
            },
{
    let fault_at = |i: int| s.event_fault(i);
    law_first_fault(s.inbound_events.len(), fault_at);
    if let Some(e) = s.events_fault() {
        let i = choose|i: int|
            {
                &&& 0 <= i < s.inbound_events.len()
                &&& #[trigger] fault_at(i) == Some(e)
                &&& forall|j: int| 0 <= j < i ==> (#[trigger] fault_at(j)) is None
            };
        assert forall|j: int| 0 <= j < i implies (#[trigger] s.event_fault(j)) is None by {
            assert(fault_at(j) is None);
        }
        assert(s.event_fault(i) == Some(e));
    }
}

proof fn lemma_delivery_first(s: StateView)
    ensures
        s.deliveries_fault() matches Some(e) ==> exists|i: int|
            {
                &&& 0 <= i < s.outbound_deliveries.len()
                &&& #[trigger] s.delivery_fault(i) == Some(e)
                &&& forall|j: int| 0 <= j < i ==> (#[trigger] s.delivery_fault(j)) is None
            },
{
    let fault_at = |i: int| s.delivery_fault(i);
    law_first_fault(s.outbound_deliveries.len(), fault_at);
    if let Some(e) = s.deliveries_fault() {
        let i = choose|i: int|
            {
                &&& 0 <= i < s.outbound_deliveries.len()
                &&& #[trigger] fault_at(i) == Some(e)
                &&& forall|j: int| 0 <= j < i ==> (#[trigger] fault_at(j)) is None
            };
        assert forall|j: int| 0 <= j < i implies (#[trigger] s.delivery_fault(j)) is None by {
            assert(fault_at(j) is None);
        }
        assert(s.delivery_fault(i) == Some(e));
    }
}

proof fn lemma_queue_first(s: StateView)
    ensures
        s.queue_fault() matches Some(e) ==> exists|i: int|
            {
                &&& 0 <= i < s.queued_messages.len()
                &&& #[trigger] s.queued_fault(i) == Some(e)
                &&& forall|j: int| 0 <= j < i ==> (#[trigger] s.queued_fault(j)) is None
            },
{
    let fault_at = |i: int| s.queued_fault(i);
    law_first_fault(s.queued_messages.len(), fault_at);
    if let Some(e) = s.queue_fault() {
        let i = choose|i: int|
            {
                &&& 0 <= i < s.queued_messages.len()
                &&& #[trigger] fault_at(i) == Some(e)
                &&& forall|j: int| 0 <= j < i ==> (#[trigger] fault_at(j)) is None
            };
        assert forall|j: int| 0 <= j < i implies (#[trigger] s.queued_fault(j)) is None by {
            assert(fault_at(j) is None);
        }
        assert(s.queued_fault(i) == Some(e));
    }
}

proof fn lemma_input_first(s: StateView)
    ensures
        s.inputs_fault() matches Some(e) ==> exists|i: int|
            {
                &&& 0 <= i < s.run_inputs.len()
                &&& #[trigger] s.input_fault(i) == Some(e)
                &&& forall|j: int| 0 <= j < i ==> (#[trigger] s.input_fault(j)) is None
            },
{
    let fault_at = |i: int| s.input_fault(i);
    law_first_fault(s.run_inputs.len(), fault_at);
    if let Some(e) = s.inputs_fault() {
        let i = choose|i: int|
            {
                &&& 0 <= i < s.run_inputs.len()
                &&& #[trigger] fault_at(i) == Some(e)
                &&& forall|j: int| 0 <= j < i ==> (#[trigger] fault_at(j)) is None
            };
        assert forall|j: int| 0 <= j < i implies (#[trigger] s.input_fault(j)) is None by {
            assert(fault_at(j) is None);
        }
        assert(s.input_fault(i) == Some(e));
    }
}

proof fn lemma_handover_first(s: StateView)
    ensures
        s.handovers_fault() matches Some(e) ==> exists|i: int|
            {
                &&& 0 <= i < s.queued_messages.len()
                &&& #[trigger] s.handover_fault(i) == Some(e)
                &&& forall|j: int| 0 <= j < i ==> (#[trigger] s.handover_fault(j)) is None
            },
{
    let fault_at = |i: int| s.handover_fault(i);
    law_first_fault(s.queued_messages.len(), fault_at);
    if let Some(e) = s.handovers_fault() {
        let i = choose|i: int|
            {
                &&& 0 <= i < s.queued_messages.len()
                &&& #[trigger] fault_at(i) == Some(e)
                &&& forall|j: int| 0 <= j < i ==> (#[trigger] fault_at(j)) is None
            };
        assert forall|j: int| 0 <= j < i implies (#[trigger] s.handover_fault(j)) is None by {
            assert(fault_at(j) is None);
        }
        assert(s.handover_fault(i) == Some(e));
    }
}

proof fn lemma_input_parts(s: StateView, k: int)
    requires
        0 <= k < s.run_inputs.len(),
    ensures
        match s.input_fault(k) {
            Some(e) => {
                ||| s.input_head_fault(k) == Some(e)
                ||| s.input_head_fault(k) is None && exists|j: int|
                    {
                        &&& 0 <= j < s.run_inputs[k].messages.len()
                        &&& #[trigger] s.claim_fault(k, j) == Some(e)
                        &&& forall|m: int| 0 <= m < j ==> (#[trigger] s.claim_fault(k, m)) is None
                    }
                ||| s.input_head_fault(k) is None && (forall|j: int|
                    0 <= j < s.run_inputs[k].messages.len() ==> (#[trigger] s.claim_fault(k, j))
                        is None) && s.input_time_fault(k) == Some(e)
            },
            None => s.input_head_fault(k) is None && (forall|j: int|
                0 <= j < s.run_inputs[k].messages.len() ==> (#[trigger] s.claim_fault(k, j))
                    is None) && s.input_time_fault(k) is None,
        },
{
    let fault_at = |j: int| s.claim_fault(k, j);
    let n = s.run_inputs[k].messages.len();
    law_first_fault(n, fault_at);
    lemma_no_fault(n, fault_at);
    match first_fault(n, fault_at) {
        Some(e) => {
            let j = choose|j: int|
                {
                    &&& 0 <= j < n
                    &&& #[trigger] fault_at(j) == Some(e)
                    &&& forall|m: int| 0 <= m < j ==> (#[trigger] fault_at(m)) is None
                };
            assert forall|m: int| 0 <= m < j implies (#[trigger] s.claim_fault(k, m)) is None by {
                assert(fault_at(m) is None);
            }
            assert(s.claim_fault(k, j) == Some(e));
        },
        None => {
            assert forall|j: int| 0 <= j < n implies (#[trigger] s.claim_fault(k, j)) is None by {
                assert(fault_at(j) is None);
            }
        },
    }
}

// -------------------------------------------------------- single records

/// What is said of a record that is unsound by itself.
pub proof fn law_flaws(
    session: SessionView,
    run: RunView,
    event: EventRecordView,
    delivery: DeliveryView,
    queued: QueuedView,
)
    ensures
        session.flaw() matches Some(e) ==> e == if session.id != crate::session::derived_id(
            session.scope,
        ) {
            "session "@ + session.id + " does not match derived id"@
        } else {
            "session "@ + session.id + " has updated_at_unix before created_at_unix"@
        },
        event.flaw() matches Some(e) ==> e == "inbound event "@ + event.id
            + " has recorded_at_unix before received_at_unix"@,
        run.flaw() matches Some(e) ==> e == if run.updated_at_unix < run.created_at_unix {
            "run "@ + run.id + " has updated_at_unix before created_at_unix"@
        } else if run.started_at_unix matches Some(t) && (t < run.created_at_unix
            || run.updated_at_unix < t) {
            "run "@ + run.id + " has started_at_unix out of range"@
        } else if run.finished_at_unix matches Some(t) && (t < run.created_at_unix
            || run.updated_at_unix < t || (run.started_at_unix matches Some(start) && t < start)) {
            "run "@ + run.id + " has finished_at_unix out of range"@
        } else if (run.status is Pending && run.started_at_unix is Some) || ((run.status is Running
            || run.status is Completed) && run.started_at_unix is None) {
            "run "@ + run.id + " has started_at_unix that does not fit its status"@
        } else if (run.finished_at_unix is Some) != (run.status is Completed || run.status is Failed
            || run.status is Cancelled) {
            "run "@ + run.id + " has finished_at_unix that does not fit its status"@
        } else if run.status !is Completed && run.output_delivery_ids.len() > 0 {
            "run "@ + run.id + " has output deliveries without being completed"@
        } else {
            "run "@ + run.id + " has duplicate output delivery ids"@
        },
        delivery.flaw() matches Some(e) ==> e == if delivery.message.session_id != Some(
            delivery.session_id,
        ) {
            "outbound delivery "@ + delivery.id + " message does not match its session"@
        } else if delivery.created_at_unix < delivery.message.created_at_unix {
            "outbound delivery "@ + delivery.id
                + " has created_at_unix before message created_at_unix"@
        } else if delivery.updated_at_unix < delivery.created_at_unix {
            "outbound delivery "@ + delivery.id + " has updated_at_unix before created_at_unix"@
        } else {
            "outbound delivery "@ + delivery.id + " has fields that do not fit its status"@
        },
        queued.flaw() matches Some(e) ==> e == if queued.message.session_id != Some(
            queued.session_id,
        ) {
            "queued message event "@ + queued.event_id + " message does not match its session"@
        } else if queued.message.author !is User {
            "queued message event "@ + queued.event_id + " must contain a user-authored message"@
        } else {
            "queued message event "@ + queued.event_id
                + " has enqueued_at_unix before received_at_unix"@
        },
{
}

/// What is said of a run input that is unsound by itself: that it has no messages, or
/// what is wrong with the first of them that is not in order.
pub proof fn law_input_flaws(input: RunInputView)
    ensures
        input.flaw() matches Some(e) ==> {
            ||| input.messages.len() == 0 && e == "run input "@ + input.run_id + " has no messages"@
            ||| exists|i: int|
                {
                    &&& 0 <= i < input.messages.len()
                    &&& #[trigger] input.message_flaw(input.messages[i]) == Some(e)
                    &&& forall|j: int|
                        0 <= j < i ==> (#[trigger] input.message_flaw(input.messages[j])) is None
                }
        },
        forall|m: QueuedView|
            (#[trigger] input.message_flaw(m)) matches Some(e) ==> {
                if m.flaw() is Some {
                    m.flaw() == Some(e)
                } else if m.session_id != input.session_id {
                    e == "run input "@ + input.run_id + " message event "@ + m.event_id
                        + " does not match its session"@
                } else {
                    e == "run input "@ + input.run_id + " message event "@ + m.event_id
                        + " was claimed before it was enqueued"@
                }
            },
{
    let fault_at = |i: int| input.message_flaw(input.messages[i]);
    law_first_fault(input.messages.len(), fault_at);
    if let Some(e) = input.flaw() {
        if input.messages.len() > 0 {
            let i = choose|i: int|
                {
                    &&& 0 <= i < input.messages.len()
                    &&& #[trigger] fault_at(i) == Some(e)
                    &&& forall|j: int| 0 <= j < i ==> (#[trigger] fault_at(j)) is None
                };
            assert forall|j: int| 0 <= j < i implies (#[trigger] input.message_flaw(
                input.messages[j],
            )) is None by {
                assert(fault_at(j) is None);
            }
            assert(input.message_flaw(input.messages[i]) == Some(e));
        }
    }
}

// ----------------------------------------------------- records in a state

/// An item under a key stands before `n`.
proof fn lemma_key_before<T: Keyed>(items: Seq<T>, n: int, key: Seq<char>)
    requires
        0 <= n <= items.len(),
    ensures
        has_key(items.take(n), key) <==> exists|j: int|
            0 <= j < n && (#[trigger] items[j]).key() == key,
{
    let front = items.take(n);
    lemma_find_key(front, key);
    match find_key(front, key) {
        Some(j) => {
            assert(items[j] == front[j]);
        },
        None => {
            assert forall|j: int| 0 <= j < n implies (#[trigger] items[j]).key() != key by {
                assert(front[j].key() != key);
            }
        },
    }
}

/// A session in a state is named for what is wrong with it, otherwise where an earlier
/// one has its id, and otherwise where it is newer than the state.
pub proof fn law_session_faults(s: StateView, i: int)
    requires
        0 <= i < s.sessions.len(),
    ensures
        ({
            let session = s.sessions[i];
            s.session_fault(i) == if session.flaw() is Some {
                session.flaw()
            } else if exists|j: int| 0 <= j < i && (#[trigger] s.sessions[j]).id == session.id {
                Some("duplicate session id "@ + session.id)
            } else if s.updated_at_unix < session.updated_at_unix {
                Some(
                    "runtime state updated_at_unix before session "@ + session.id
                        + " updated_at_unix"@,
                )
            } else {
                None
            }
        }),
{
    lemma_key_before(s.sessions, i, s.sessions[i].id);
    assert(forall|j: int| 0 <= j < i ==> (#[trigger] s.sessions[j]).key() == s.sessions[j].id);
}

/// A run in a state is named for what is wrong with it, otherwise where its session is
/// not there, otherwise where an earlier one has its id, otherwise where both it and an
/// earlier one of its session still go on, and otherwise where it is newer than the
/// state.
pub proof fn law_run_faults(s: StateView, i: int)
    requires
        0 <= i < s.runs.len(),
    ensures
        ({
            let run = s.runs[i];
            let goes_on = run.status !is Completed && run.status !is Failed && run.status
                !is Cancelled;
            if run.flaw() is Some {
                s.run_fault(i) == run.flaw()
            } else if forall|j: int|
                0 <= j < s.sessions.len() ==> (#[trigger] s.sessions[j]).id != run.session_id {
                s.run_fault(i) == Some(
                    "run "@ + run.id + " references unknown session "@ + run.session_id,
                )
            } else if exists|j: int| 0 <= j < i && (#[trigger] s.runs[j]).id == run.id {
                s.run_fault(i) == Some("duplicate run id "@ + run.id)
            } else if goes_on && exists|j: int|
                0 <= j < i && (#[trigger] s.runs[j]).session_id == run.session_id
                    && s.runs[j].status !is Completed && s.runs[j].status !is Failed
                    && s.runs[j].status !is Cancelled {
                exists|j: int|
                    {
                        &&& 0 <= j < i
                        &&& (#[trigger] s.runs[j]).session_id == run.session_id
                        &&& s.runs[j].status !is Completed && s.runs[j].status !is Failed
                            && s.runs[j].status !is Cancelled
                        &&& s.run_fault(i) == Some(
                            "session "@ + run.session_id + " has multiple active runs "@
                                + s.runs[j].id + (" and "@ + run.id),
                        )
                    }
            } else if s.updated_at_unix < run.updated_at_unix {
                s.run_fault(i) == Some(
                    "runtime state updated_at_unix before run "@ + run.id + " updated_at_unix"@,
                )
            } else {
                s.run_fault(i) is None
            }
        }),
{
    let run = s.runs[i];
    let front = s.runs.take(i);
    lemma_session_known(s, run.session_id);
    lemma_key_before(s.runs, i, run.id);
    lemma_active_run(front, run.session_id);
    assert(forall|j: int| 0 <= j < i ==> (#[trigger] s.runs[j]).key() == s.runs[j].id);
    match active_run(front, run.session_id) {
        Some(j) => {
            assert(front[j] == s.runs[j]);
            assert(s.runs[j].session_id == run.session_id);
        },
        None => {
            assert forall|j: int|
                0 <= j < i && (#[trigger] s.runs[j]).session_id
                    == run.session_id implies s.runs[j].status is Completed || s.runs[j].status
                is Failed || s.runs[j].status is Cancelled by {
                assert(!(front[j].active() && front[j].session_id == run.session_id));
            }
        },
    }
}

/// A ledger entry in a state is named for what is wrong with it, otherwise where an
/// earlier one has its id, and otherwise where it is newer than the state.
pub proof fn law_event_faults(s: StateView, i: int)
    requires
        0 <= i < s.inbound_events.len(),
    ensures
        ({
            let event = s.inbound_events[i];
            s.event_fault(i) == if event.flaw() is Some {
                event.flaw()
            } else if exists|j: int| 0 <= j < i && (#[trigger] s.inbound_events[j]).id == event.id {
                Some("duplicate inbound event id "@ + event.id)
            } else if s.updated_at_unix < event.recorded_at_unix {
                Some(
                    "runtime state updated_at_unix before inbound event "@ + event.id
                        + " recorded_at_unix"@,
                )
            } else {
                None
            }
        }),
{
    lemma_key_before(s.inbound_events, i, s.inbound_events[i].id);
    assert(forall|j: int|
        0 <= j < i ==> (#[trigger] s.inbound_events[j]).key() == s.inbound_events[j].id);
}

/// A delivery in a state is named for what is wrong with it, otherwise where an earlier
/// one has its id, otherwise where its session is not there, and otherwise where it is
/// newer than the state.
pub proof fn law_delivery_faults(s: StateView, i: int)
    requires
        0 <= i < s.outbound_deliveries.len(),
    ensures
        ({
            let delivery = s.outbound_deliveries[i];
            s.delivery_fault(i) == if delivery.flaw() is Some {
                delivery.flaw()
            } else if exists|j: int|
                0 <= j < i && (#[trigger] s.outbound_deliveries[j]).id == delivery.id {
                Some("duplicate outbound delivery id "@ + delivery.id)
            } else if forall|j: int|
                0 <= j < s.sessions.len() ==> (#[trigger] s.sessions[j]).id
                    != delivery.session_id {
                Some(
                    "outbound delivery "@ + delivery.id + " references unknown session "@
                        + delivery.session_id,
                )
            } else if s.updated_at_unix < delivery.updated_at_unix {
                Some(
                    "runtime state updated_at_unix before outbound delivery "@ + delivery.id
                        + " updated_at_unix"@,
                )
            } else {
                None
            }
        }),
{
    lemma_session_known(s, s.outbound_deliveries[i].session_id);
    lemma_key_before(s.outbound_deliveries, i, s.outbound_deliveries[i].id);
    assert(forall|j: int|
        0 <= j < i ==> (#[trigger] s.outbound_deliveries[j]).key() == s.outbound_deliveries[j].id);
}

/// Where the ledger holds an event.
proof fn lemma_place(s: StateView, event_id: Seq<char>)
    requires
        distinct_keys(s.inbound_events),
    ensures
        forall|p: int|
            0 <= p < s.inbound_events.len() && (#[trigger] s.inbound_events[p]).id == event_id
                ==> s.position(event_id) == p && has_key(s.inbound_events, event_id),
        has_key(s.inbound_events, event_id) ==> 0 <= s.position(event_id) < s.inbound_events.len()
            && s.inbound_events[s.position(event_id)].id == event_id,
        !has_key(s.inbound_events, event_id) ==> s.position(event_id) == -1,
{
    lemma_find_key(s.inbound_events, event_id);
    assert forall|p: int|
        0 <= p < s.inbound_events.len() && (#[trigger] s.inbound_events[p]).id
            == event_id implies s.position(event_id) == p && has_key(
        s.inbound_events,
        event_id,
    ) by {
        lemma_find_own_key(s.inbound_events, p);
    }
}

/// A queue entry in a state whose ledger has distinct ids is named for the first of
/// these that holds: something is wrong with it, an earlier entry has its event, its
/// event is not in the ledger, an earlier entry has a later event, it has another
/// receive time than the event, it was queued before the event was recorded, its
/// session is not there, an earlier entry of its session was queued later, or it is
/// newer than the state.
pub proof fn law_queue_faults(s: StateView, i: int, p: int)
    requires
        distinct_keys(s.inbound_events),
        0 <= i < s.queued_messages.len(),
        0 <= p < s.inbound_events.len() ==> s.inbound_events[p].id == s.queued_messages[i].event_id,
        !(0 <= p < s.inbound_events.len()) ==> forall|q: int|
            0 <= q < s.inbound_events.len() ==> (#[trigger] s.inbound_events[q]).id
                != s.queued_messages[i].event_id,
    ensures
        ({
            let queued = s.queued_messages[i];
            s.queued_fault(i) == if queued.flaw() is Some {
                queued.flaw()
            } else if exists|j: int|
                0 <= j < i && (#[trigger] s.queued_messages[j]).event_id == queued.event_id {
                Some("duplicate queued inbound event id "@ + queued.event_id)
            } else if !(0 <= p < s.inbound_events.len()) {
                Some("queued message event "@ + queued.event_id + " has no inbound event record"@)
            } else if exists|j: int, q: int|
                0 <= j < i && p <= q < s.inbound_events.len() && (
                #[trigger] s.inbound_events[q]).id == (#[trigger] s.queued_messages[j]).event_id {
                Some("queued message event "@ + queued.event_id + " is out of inbound ledger order"@)
            } else if queued.received_at_unix != s.inbound_events[p].received_at_unix {
                Some(
                    "queued message event "@ + queued.event_id
                        + " does not match inbound event received_at_unix"@,
                )
            } else if queued.enqueued_at_unix < s.inbound_events[p].recorded_at_unix {
                Some(
                    "queued message event "@ + queued.event_id
                        + " has enqueued_at_unix before inbound event recorded_at_unix"@,
                )
            } else if forall|j: int|
                0 <= j < s.sessions.len() ==> (#[trigger] s.sessions[j]).id != queued.session_id {
                Some(
                    "queued message event "@ + queued.event_id + " references unknown session "@
                        + queued.session_id,
                )
            } else if exists|j: int|
                0 <= j < i && (#[trigger] s.queued_messages[j]).session_id == queued.session_id
                    && s.queued_messages[j].enqueued_at_unix > queued.enqueued_at_unix {
                Some(
                    "queued messages for session "@ + queued.session_id
                        + " are not ordered by enqueued_at_unix"@,
                )
            } else if s.updated_at_unix < queued.enqueued_at_unix {
                Some(
                    "runtime state updated_at_unix before queued message event "@ + queued.event_id
                        + " enqueued_at_unix"@,
                )
            } else {
                None
            }
        }),
{
    let queued = s.queued_messages[i];
    lemma_session_known(s, queued.session_id);
    lemma_key_before(s.queued_messages, i, queued.event_id);
    assert(forall|j: int|
        0 <= j < i ==> (#[trigger] s.queued_messages[j]).key() == s.queued_messages[j].event_id);
    lemma_place(s, queued.event_id);
    if 0 <= p < s.inbound_events.len() {
        assert(s.inbound_events[p].id == queued.event_id);
        assert(s.queue_overtakes(i, p) <==> exists|j: int, q: int|
            0 <= j < i && p <= q < s.inbound_events.len() && (#[trigger] s.inbound_events[q]).id
                == (#[trigger] s.queued_messages[j]).event_id) by {
            if s.queue_overtakes(i, p) {
                let j = choose|j: int|
                    0 <= j < i && s.position((#[trigger] s.queued_messages[j]).event_id) >= p;
                lemma_place(s, s.queued_messages[j].event_id);
                let q = s.position(s.queued_messages[j].event_id);
                assert(s.inbound_events[q].id == s.queued_messages[j].event_id);
            }
            assert forall|j: int, q: int|
                0 <= j < i && p <= q < s.inbound_events.len() && (#[trigger] s.inbound_events[q]).id
                    == (#[trigger] s.queued_messages[j]).event_id implies s.queue_overtakes(
                i,
                p,
            ) by {
                lemma_place(s, s.queued_messages[j].event_id);
                assert(s.position(s.queued_messages[j].event_id) >= p);
            }
        }
    }
}

/// A run input in a state whose runs have distinct ids is named for the first of these
/// that holds: something is wrong with it, an earlier input is of its run, its run is
/// not there, the run is of another session, or it was created at another time. Where
/// nothing else is wrong with it or its messages it is named where it is newer than
/// the state.
pub proof fn law_input_faults(s: StateView, k: int, r: int)
    requires
        distinct_keys(s.runs),
        0 <= k < s.run_inputs.len(),
        0 <= r < s.runs.len() ==> s.runs[r].id == s.run_inputs[k].run_id,
        !(0 <= r < s.runs.len()) ==> forall|q: int|
            0 <= q < s.runs.len() ==> (#[trigger] s.runs[q]).id != s.run_inputs[k].run_id,
    ensures
        ({
            let input = s.run_inputs[k];
            &&& s.input_head_fault(k) == if input.flaw() is Some {
                input.flaw()
            } else if exists|j: int|
                0 <= j < k && (#[trigger] s.run_inputs[j]).run_id == input.run_id {
                Some("duplicate run input id "@ + input.run_id)
            } else if !(0 <= r < s.runs.len()) {
                Some("run input "@ + input.run_id + " references unknown run"@)
            } else if s.runs[r].session_id != input.session_id {
                Some(
                    "run input "@ + input.run_id + " does not match run session "@
                        + s.runs[r].session_id,
                )
            } else if s.runs[r].created_at_unix != input.claimed_at_unix {
                Some(
                    "run input "@ + input.run_id
                        + " claimed_at_unix does not match run created_at_unix"@,
                )
            } else {
                None
            }
            &&& s.input_time_fault(k) == if s.updated_at_unix < input.claimed_at_unix {
                Some(
                    "runtime state updated_at_unix before run input "@ + input.run_id
                        + " claimed_at_unix"@,
                )
            } else {
                None
            }
        }),
{
    let input = s.run_inputs[k];
    lemma_key_before(s.run_inputs, k, input.run_id);
    assert(forall|j: int|
        0 <= j < k ==> (#[trigger] s.run_inputs[j]).key() == s.run_inputs[j].run_id);
    lemma_find_key(s.runs, input.run_id);
    if 0 <= r < s.runs.len() {
        lemma_find_own_key(s.runs, r);
    } else if let Some(q) = find_key(s.runs, input.run_id) {
        assert(s.runs[q].id == input.run_id);
    }
}

/// What was taken before a message are the messages of earlier inputs and the earlier
/// ones of its own.
proof fn lemma_taken_before(
    inputs: Seq<RunInputView>,
    k: int,
    j: int,
    wanted: spec_fn(ClaimedView) -> bool,
)
    requires
        0 <= k < inputs.len(),
        0 <= j < inputs[k].messages.len(),
    ensures
        ({
            let before = claims_before(inputs, k, j);
            (exists|a: int| 0 <= a < before.len() && wanted(#[trigger] before[a])) <==> (exists|
                l: int,
                m: int,
            |
                0 <= l < inputs.len() && 0 <= m < inputs[l].messages.len() && (l < k || (l == k && m
                    < j)) && wanted(
                    (ClaimedView {
                        session_id: inputs[l].session_id,
                        message: #[trigger] inputs[l].messages[m],
                    }),
                ))
        }),
{
    let before = claims_before(inputs, k, j);
    let taken = claims(inputs);
    lemma_claims_before(inputs, k, j);
    let n = claims(inputs.take(k)).len() + j;
    if exists|a: int| 0 <= a < before.len() && wanted(#[trigger] before[a]) {
        let a = choose|a: int| 0 <= a < before.len() && wanted(#[trigger] before[a]);
        assert(before[a] == taken[a]);
        let (l, m) = lemma_claim_origin(inputs, a);
        if k < l {
            lemma_claims_in_order(inputs, k, j, l);
        }
        assert(inputs[l].messages[m] == taken[a].message);
    }
    assert forall|l: int, m: int|
        0 <= l < inputs.len() && 0 <= m < inputs[l].messages.len() && (l < k || (l == k && m < j))
            && wanted(
            (ClaimedView {
                session_id: inputs[l].session_id,
                message: #[trigger] inputs[l].messages[m],
            }),
        ) implies exists|a: int| 0 <= a < before.len() && wanted(#[trigger] before[a]) by {
        lemma_claims_before(inputs, l, m);
        let a = claims(inputs.take(l)).len() + m;
        if l < k {
            lemma_claims_in_order(inputs, l, m, k);
        }
        assert(before[a as int] == taken[a as int]);
        assert(wanted(before[a as int]));
    }
}

/// All that was taken are the messages of the inputs.
proof fn lemma_taken_at_all(inputs: Seq<RunInputView>, wanted: spec_fn(ClaimedView) -> bool)
    ensures
        ({
            let taken = claims(inputs);
            (exists|a: int| 0 <= a < taken.len() && wanted(#[trigger] taken[a])) <==> (exists|
                l: int,
                m: int,
            |
                0 <= l < inputs.len() && 0 <= m < inputs[l].messages.len() && wanted(
                    (ClaimedView {
                        session_id: inputs[l].session_id,
                        message: #[trigger] inputs[l].messages[m],
                    }),
                ))
        }),
{
    let taken = claims(inputs);
    if exists|a: int| 0 <= a < taken.len() && wanted(#[trigger] taken[a]) {
        let a = choose|a: int| 0 <= a < taken.len() && wanted(#[trigger] taken[a]);
        let (l, m) = lemma_claim_origin(inputs, a);
        assert(inputs[l].messages[m] == taken[a].message);
    }
    assert forall|l: int, m: int|
        0 <= l < inputs.len() && 0 <= m < inputs[l].messages.len() && wanted(
            (ClaimedView {
                session_id: inputs[l].session_id,
                message: #[trigger] inputs[l].messages[m],
            }),
        ) implies exists|a: int| 0 <= a < taken.len() && wanted(#[trigger] taken[a]) by {
        lemma_claims_before(inputs, l, m);
        let a = claims(inputs.take(l)).len() + m;
        assert(wanted(taken[a as int]));
    }
}

/// A message of a run input in a state whose ledger has distinct ids is named for the
/// first of these that holds: it is still queued, it was taken before, its event is not
/// in the ledger, it has another receive time than the event, it was queued before the
/// event was recorded, a message that was taken before it for the session was queued
/// later, or one has a later event.
pub proof fn law_claim_faults(s: StateView, k: int, j: int, p: int)
    requires
        distinct_keys(s.inbound_events),
        0 <= k < s.run_inputs.len(),
        0 <= j < s.run_inputs[k].messages.len(),
        0 <= p < s.inbound_events.len() ==> s.inbound_events[p].id
            == s.run_inputs[k].messages[j].event_id,
        !(0 <= p < s.inbound_events.len()) ==> forall|q: int|
            0 <= q < s.inbound_events.len() ==> (#[trigger] s.inbound_events[q]).id
                != s.run_inputs[k].messages[j].event_id,
    ensures
        ({
            let input = s.run_inputs[k];
            let message = input.messages[j];
            let named = "run input "@ + input.run_id + " message event "@ + message.event_id;
            s.claim_fault(k, j) == if exists|i: int|
                0 <= i < s.queued_messages.len() && (#[trigger] s.queued_messages[i]).event_id
                    == message.event_id {
                Some(
                    "run input "@ + input.run_id + " event "@ + message.event_id
                        + " is still present in the message queue"@,
                )
            } else if exists|l: int, m: int|
                0 <= l < s.run_inputs.len() && 0 <= m < s.run_inputs[l].messages.len() && (l < k
                    || (l == k && m < j)) && (#[trigger] s.run_inputs[l].messages[m]).event_id
                    == message.event_id {
                Some("queued message event "@ + message.event_id + " is claimed by multiple runs"@)
            } else if !(0 <= p < s.inbound_events.len()) {
                Some(named + " has no inbound event record"@)
            } else if message.received_at_unix != s.inbound_events[p].received_at_unix {
                Some(named + " does not match inbound event received_at_unix"@)
            } else if message.enqueued_at_unix < s.inbound_events[p].recorded_at_unix {
                Some(named + " was enqueued before its inbound event record"@)
            } else if exists|l: int, m: int|
                0 <= l < s.run_inputs.len() && 0 <= m < s.run_inputs[l].messages.len() && (l < k
                    || (l == k && m < j)) && s.run_inputs[l].session_id == input.session_id && (
                #[trigger] s.run_inputs[l].messages[m]).enqueued_at_unix
                    > message.enqueued_at_unix {
                Some(named + " is out of session enqueue order"@)
            } else if exists|l: int, m: int, q: int|
                0 <= l < s.run_inputs.len() && 0 <= m < s.run_inputs[l].messages.len() && (l < k
                    || (l == k && m < j)) && s.run_inputs[l].session_id == input.session_id && p
                    <= q < s.inbound_events.len() && (#[trigger] s.inbound_events[q]).id == (
                #[trigger] s.run_inputs[l].messages[m]).event_id {
                Some(named + " is out of session ownership order"@)
            } else {
                None
            }
        }),
{
    let input = s.run_inputs[k];
    let message = input.messages[j];
    let before = claims_before(s.run_inputs, k, j);
    let queue = s.queued_messages;
    assert(queue.take(queue.len() as int) =~= queue);
    lemma_key_before(queue, queue.len() as int, message.event_id);
    assert(forall|i: int| 0 <= i < queue.len() ==> (#[trigger] queue[i]).key()
        == queue[i].event_id);
    lemma_place(s, message.event_id);
    // Taken before.
    let same = |c: ClaimedView| c.message.event_id == message.event_id;
    lemma_taken_before(s.run_inputs, k, j, same);
    assert(before.take(before.len() as int) =~= before);
    lemma_key_before(before, before.len() as int, message.event_id);
    assert(has_key(before, message.event_id) <==> exists|a: int|
        0 <= a < before.len() && same(#[trigger] before[a])) by {
        assert(forall|a: int|
            0 <= a < before.len() ==> (#[trigger] before[a]).key() == before[a].message.event_id);
        if has_key(before, message.event_id) {
            let a = choose|a: int|
                0 <= a < before.len() && (#[trigger] before[a]).key() == message.event_id;
            assert(same(before[a]));
        }
    }
    // Queued later.
    let later = |c: ClaimedView|
        c.session_id == input.session_id && c.message.enqueued_at_unix > message.enqueued_at_unix;
    lemma_taken_before(s.run_inputs, k, j, later);
    assert(s.claim_time_drops(before, input.session_id, message.enqueued_at_unix) <==> exists|
        a: int,
    |
        0 <= a < before.len() && later(#[trigger] before[a]));
    // A later event.
    let overtaken = |c: ClaimedView|
        c.session_id == input.session_id && s.position(c.message.event_id) >= p;
    lemma_taken_before(s.run_inputs, k, j, overtaken);
    if 0 <= p < s.inbound_events.len() {
        assert(s.inbound_events[p].id == message.event_id);
        assert(s.claim_overtakes(before, input.session_id, p) <==> exists|a: int|
            0 <= a < before.len() && overtaken(#[trigger] before[a]));
        if s.claim_overtakes(before, input.session_id, p) {
            let (l, m) = choose|l: int, m: int|
                0 <= l < s.run_inputs.len() && 0 <= m < s.run_inputs[l].messages.len() && (l < k
                    || (l == k && m < j)) && overtaken(
                    (ClaimedView {
                        session_id: s.run_inputs[l].session_id,
                        message: #[trigger] s.run_inputs[l].messages[m],
                    }),
                );
            let other = s.run_inputs[l].messages[m];
            lemma_place(s, other.event_id);
            assert(s.inbound_events[s.position(other.event_id)].id
                == s.run_inputs[l].messages[m].event_id);
        }
        assert forall|l: int, m: int, q: int|
            0 <= l < s.run_inputs.len() && 0 <= m < s.run_inputs[l].messages.len() && (l < k || (l
                == k && m < j)) && s.run_inputs[l].session_id == input.session_id && p <= q
                < s.inbound_events.len() && (#[trigger] s.inbound_events[q]).id == (
            #[trigger] s.run_inputs[l].messages[m]).event_id implies s.claim_overtakes(
            before,
            input.session_id,
            p,
        ) by {
            lemma_place(s, s.run_inputs[l].messages[m].event_id);
            assert(overtaken(
                (ClaimedView {
                    session_id: s.run_inputs[l].session_id,
                    message: s.run_inputs[l].messages[m],
                }),
            ));
        }
    }
}

/// A queue entry whose event is in the ledger, at `p`, is named where a message that was
/// taken for its session was queued later, and otherwise where one has a later event.
pub proof fn law_handover_faults(s: StateView, i: int, p: int)
    requires
        distinct_keys(s.inbound_events),
        0 <= i < s.queued_messages.len(),
        0 <= p < s.inbound_events.len(),
        s.inbound_events[p].id == s.queued_messages[i].event_id,
    ensures
        ({
            let queued = s.queued_messages[i];
            s.handover_fault(i) == if exists|l: int, m: int|
                0 <= l < s.run_inputs.len() && 0 <= m < s.run_inputs[l].messages.len()
                    && s.run_inputs[l].session_id == queued.session_id && (
                #[trigger] s.run_inputs[l].messages[m]).enqueued_at_unix
                    > queued.enqueued_at_unix {
                Some(
                    "queued message event "@ + queued.event_id
                        + " is before already claimed enqueue time for session "@
                        + queued.session_id,
                )
            } else if exists|l: int, m: int, q: int|
                0 <= l < s.run_inputs.len() && 0 <= m < s.run_inputs[l].messages.len()
                    && s.run_inputs[l].session_id == queued.session_id && p <= q
                    < s.inbound_events.len() && (#[trigger] s.inbound_events[q]).id == (
                #[trigger] s.run_inputs[l].messages[m]).event_id {
                Some(
                    "queued message event "@ + queued.event_id
                        + " is before already claimed work for session "@ + queued.session_id,
                )
            } else {
                None
            }
        }),
{
    let queued = s.queued_messages[i];
    let taken = claims(s.run_inputs);
    lemma_place(s, queued.event_id);
    let later = |c: ClaimedView|
        c.session_id == queued.session_id && c.message.enqueued_at_unix > queued.enqueued_at_unix;
    lemma_taken_at_all(s.run_inputs, later);
    assert(s.claim_time_drops(taken, queued.session_id, queued.enqueued_at_unix) <==> exists|a: int|
        0 <= a < taken.len() && later(#[trigger] taken[a]));
    let overtaken = |c: ClaimedView|
        c.session_id == queued.session_id && s.position(c.message.event_id) >= p;
    lemma_taken_at_all(s.run_inputs, overtaken);
    assert(s.claim_overtakes(taken, queued.session_id, p) <==> exists|a: int|
        0 <= a < taken.len() && overtaken(#[trigger] taken[a]));
    if s.claim_overtakes(taken, queued.session_id, p) {
        let (l, m) = choose|l: int, m: int|
            0 <= l < s.run_inputs.len() && 0 <= m < s.run_inputs[l].messages.len() && overtaken(
                (ClaimedView {
                    session_id: s.run_inputs[l].session_id,
                    message: #[trigger] s.run_inputs[l].messages[m],
                }),
            );
        let other = s.run_inputs[l].messages[m];
        lemma_place(s, other.event_id);
        assert(s.inbound_events[s.position(other.event_id)].id
            == s.run_inputs[l].messages[m].event_id);
    }
    assert forall|l: int, m: int, q: int|
        0 <= l < s.run_inputs.len() && 0 <= m < s.run_inputs[l].messages.len()
            && s.run_inputs[l].session_id == queued.session_id && p <= q < s.inbound_events.len()
            && (#[trigger] s.inbound_events[q]).id == (
        #[trigger] s.run_inputs[l].messages[m]).event_id implies s.claim_overtakes(
        taken,
        queued.session_id,
        p,
    ) by {
        lemma_place(s, s.run_inputs[l].messages[m].event_id);
        assert(overtaken(
            (ClaimedView {
                session_id: s.run_inputs[l].session_id,
                message: s.run_inputs[l].messages[m],
            }),
        ));
    }
}

} // verus!

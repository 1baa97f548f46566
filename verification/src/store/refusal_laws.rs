//! What the refusals of the store and of its file say: what is named first, and how.
use vstd::prelude::*;

use super::file_store::{law_loaded_states_are_valid, ActionView, DiskReport, StoreView};
use super::laws::{law_delivery_outcomes_are_written, law_run_steps_are_written};
use super::run::{output_fault, outputs, replay_delivery_fault, replay_fault};
use crate::fault::law_first_fault;
use crate::format::versioned::FieldsView;
use crate::keyed::{find_key, has_key, lemma_find_key, lemma_find_own_key, Keyed};
use crate::message::MessageView;
use crate::outbox::DeliveryView;
use crate::run::{RunStatus, RunView};
use crate::state::merge::{conflict, conflicts, merged_runs};
use crate::state::view::StateView;

verus! {

/// An action that was not done is refused with the path of the file and the reason.
pub proof fn law_refused_actions(store: StoreView, state: StateView, e: String)
    ensures
        store.settle_error(ActionView::Write(state), DiskReport::NotReplaced(e)) == Some(
            "failed to save runtime state "@ + store.path + ": "@ + e@,
        ),
        store.settle_error(ActionView::Write(state), DiskReport::Replaced(e)) == Some(
            "failed to save runtime state "@ + store.path + ": "@ + e@,
        ),
        store.settle_error(ActionView::ConfirmDurable, DiskReport::NotReplaced(e)) == Some(
            "failed to confirm runtime state "@ + store.path + " durability: "@ + e@,
        ),
        store.settle_error(ActionView::ConfirmDurable, DiskReport::Replaced(e)) == Some(
            "failed to confirm runtime state "@ + store.path + " durability: "@ + e@,
        ),
{
}

/// A file is refused for its version where that is not one of the first eight, and
/// otherwise for the first list that its version must not contain, or must, in this
/// order: run records, interrupted runs, output deliveries of runs, the ledger,
/// deliveries, the queue, and run inputs. The fifth version has the queue before the
/// deliveries.
pub proof fn law_refused_files(fields: FieldsView, version: u32)
    ensures
        fields.fault(version) matches Some(e) ==> {
            let number = crate::text::decimal(version as nat);
            let must_not = "runtime state version "@ + number + " must not contain "@;
            let must = "runtime state version "@ + number + " must contain "@;
            let runs_wrong = if version < 2 {
                fields.runs !is Missing
            } else {
                fields.runs !is Value
            };
            let events_wrong = if version < 3 {
                fields.inbound_events !is Missing
            } else {
                fields.inbound_events !is Value
            };
            let deliveries_wrong = if version < 4 {
                fields.outbound_deliveries !is Missing
            } else {
                fields.outbound_deliveries !is Value
            };
            let queue_wrong = if version < 5 {
                fields.queued_messages !is Missing
            } else {
                fields.queued_messages !is Value
            };
            if version < 1 || 8 < version {
                e == "unsupported runtime state version "@ + number + "; expected "@
                    + crate::text::decimal(8)
            } else if runs_wrong {
                e == (if version < 2 {
                    must_not
                } else {
                    must
                }) + "run records"@
            } else if version < 7 && fields.runs is Value && exists|i: int|
                0 <= i < fields.runs->Value_0.len() && (#[trigger] fields.runs->Value_0[i]).status
                    is Interrupted {
                e == must_not + "interrupted runs"@
            } else if version < 8 && fields.runs is Value && exists|i: int|
                0 <= i < fields.runs->Value_0.len() && (
                #[trigger] fields.runs->Value_0[i]).output_delivery_ids.len() > 0 {
                e == must_not + "run output delivery ids"@
            } else if events_wrong {
                e == (if version < 3 {
                    must_not
                } else {
                    must
                }) + "inbound event records"@
            } else if deliveries_wrong && !(version == 5 && queue_wrong) {
                e == (if version < 4 {
                    must_not
                } else {
                    must
                }) + "outbound deliveries"@
            } else if queue_wrong {
                e == (if version < 5 {
                    must_not
                } else {
                    must
                }) + "queued messages"@
            } else {
                e == (if version < 6 {
                    must_not
                } else {
                    must
                }) + "run inputs"@
            }
        },
{
    let runs = fields.runs.records();
    if fields.runs is Value {
        assert(runs == fields.runs->Value_0);
    }
    assert(crate::format::versioned::any_interrupted(runs) <==> fields.runs is Value && exists|
        i: int,
    |
        0 <= i < fields.runs->Value_0.len() && (#[trigger] fields.runs->Value_0[i]).status
            is Interrupted);
    assert(crate::format::versioned::any_output(runs) <==> fields.runs is Value && exists|i: int|
        0 <= i < fields.runs->Value_0.len() && (
        #[trigger] fields.runs->Value_0[i]).output_delivery_ids.len() > 0);
}

/// A snapshot that brings in what it may not is refused for the first delivery that is
/// neither stored nor pending, otherwise for the first run input that is not stored,
/// otherwise for a run that would be handed out or completed, and otherwise for a run
/// with other output.
pub proof fn law_refused_snapshots(s: StateView, stored: Option<StateView>)
    ensures
        s.snapshot_fault(stored) == if s.delivery_additions_fault(stored) is Some {
            s.delivery_additions_fault(stored)
        } else if s.input_additions_fault(stored) is Some {
            s.input_additions_fault(stored)
        } else if s.agent_transitions_fault(stored) is Some {
            s.agent_transitions_fault(stored)
        } else {
            s.output_additions_fault(stored)
        },
        s.delivery_additions_fault(stored) matches Some(e) ==> exists|i: int|
            {
                &&& 0 <= i < s.outbound_deliveries.len()
                &&& (#[trigger] s.outbound_deliveries[i]).status !is Pending
                &&& e == "runtime state save cannot introduce outbound delivery "@
                    + s.outbound_deliveries[i].id + " with status "@
                    + s.outbound_deliveries[i].status.name_text()
                    + "; new snapshot deliveries must be pending"@
            },
        s.input_additions_fault(stored) matches Some(e) ==> exists|i: int|
            {
                &&& 0 <= i < s.run_inputs.len()
                &&& e == "runtime state save cannot introduce run input "@ + (
                #[trigger] s.run_inputs[i]).run_id
                    + "; message batches must be claimed through StateStore::claim_message_batch"@
            },
        s.agent_transitions_fault(stored) matches Some(e) ==> exists|i: int|
            {
                &&& 0 <= i < s.runs.len()
                &&& (#[trigger] s.runs[i]).status is Running || s.runs[i].status is Completed
                &&& e
                    == "runtime state save cannot create a handoff or completion for durable agent run "@
                    + s.runs[i].id + "; use the StateStore agent-run transition"@
            },
        s.output_additions_fault(stored) matches Some(e) ==> exists|i: int|
            {
                &&& 0 <= i < s.runs.len()
                &&& (#[trigger] s.runs[i]).output_delivery_ids.len() > 0
                &&& e
                    == "runtime state save cannot introduce or change output delivery ownership for run "@
                    + s.runs[i].id
                    + "; agent output must be committed through the StateStore agent-run completion transition"@
            },
{
    let delivery_at = |i: int| s.delivery_addition_fault(stored, i);
    let input_at = |i: int| s.input_addition_fault(stored, i);
    let agent_at = |i: int| s.agent_transition_fault(stored, i);
    let output_at = |i: int| s.output_addition_fault(stored, i);
    law_first_fault(s.outbound_deliveries.len(), delivery_at);
    law_first_fault(s.run_inputs.len(), input_at);
    law_first_fault(s.runs.len(), agent_at);
    law_first_fault(s.runs.len(), output_at);
    if let Some(e) = s.delivery_additions_fault(stored) {
        let i = choose|i: int|
            0 <= i < s.outbound_deliveries.len() && #[trigger] delivery_at(i) == Some(e);
        assert(s.outbound_deliveries[i].status !is Pending);
    }
    if let Some(e) = s.input_additions_fault(stored) {
        let i = choose|i: int| 0 <= i < s.run_inputs.len() && #[trigger] input_at(i) == Some(e);
        assert(s.run_inputs[i].run_id == s.run_inputs[i].run_id);
    }
    if let Some(e) = s.agent_transitions_fault(stored) {
        let i = choose|i: int| 0 <= i < s.runs.len() && #[trigger] agent_at(i) == Some(e);
        assert(s.runs[i].status is Running || s.runs[i].status is Completed);
    }
    if let Some(e) = s.output_additions_fault(stored) {
        let i = choose|i: int| 0 <= i < s.runs.len() && #[trigger] output_at(i) == Some(e);
        assert(s.runs[i].output_delivery_ids.len() > 0);
    }
}

/// A conflict names the record, of those of the snapshot that are stored otherwise.
proof fn lemma_conflicts_name_a_record<T: Keyed>(
    stored: Seq<T>,
    candidates: Seq<T>,
    what: Seq<char>,
)
    ensures
        conflicts(stored, candidates, what) matches Some(e) ==> exists|j: int|
            {
                &&& 0 <= j < candidates.len()
                &&& e == what + (#[trigger] candidates[j]).key()
                &&& has_key(stored, candidates[j].key())
            },
{
    let fault_at = |i: int| conflict(stored, candidates[i], what);
    law_first_fault(candidates.len(), fault_at);
    if let Some(e) = conflicts(stored, candidates, what) {
        let j = choose|j: int| 0 <= j < candidates.len() && #[trigger] fault_at(j) == Some(e);
        assert(e == what + candidates[j].key());
    }
}

proof fn lemma_run_conflicts_name_a_run(stored: Seq<RunView>, candidates: Seq<RunView>)
    ensures
        merged_runs(stored, candidates) matches Err(e) ==> exists|j: int|
            0 <= j < candidates.len() && e == "conflicting run record "@ + (
            #[trigger] candidates[j]).id,
    decreases candidates.len(),
{
    if candidates.len() > 0 {
        let front = candidates.drop_last();
        lemma_run_conflicts_name_a_run(stored, front);
        if let Err(e) = merged_runs(stored, candidates) {
            if merged_runs(stored, front) is Err {
                let j = choose|j: int|
                    0 <= j < front.len() && e == "conflicting run record "@ + (
                    #[trigger] front[j]).id;
                assert(candidates[j] == front[j]);
            } else {
                assert(candidates[candidates.len() - 1].id == candidates.last().id);
            }
        }
    }
}

/// Two valid states that contradict each other are refused for the ledger first: for an
/// event of the snapshot whose record, or whose message, is stored otherwise. After
/// that come runs, run inputs and deliveries, each named by its id.
pub proof fn law_refused_merges(s: StateView, stored: StateView)
    requires
        s.valid(),
        stored.valid(),
    ensures
        s.merged_with(stored) matches Err(e) ==> {
            ||| exists|i: int|
                0 <= i < s.inbound_events.len() && (e == "conflicting inbound event record "@ + (
                #[trigger] s.inbound_events[i]).id || e
                    == "conflicting inbound event queue identity "@ + s.inbound_events[i].id)
            ||| s.shared_events_fault(stored) is None && exists|i: int|
                0 <= i < s.runs.len() && e == "conflicting run record "@ + (
                #[trigger] s.runs[i]).id
            ||| s.shared_events_fault(stored) is None && s.runs_preserved(stored) is Ok && exists|
                i: int,
            |
                0 <= i < s.run_inputs.len() && e == "conflicting run input record "@ + (
                #[trigger] s.run_inputs[i]).run_id
            ||| s.shared_events_fault(stored) is None && s.runs_preserved(stored) is Ok && exists|
                i: int,
            |
                0 <= i < s.outbound_deliveries.len() && e == "conflicting outbound delivery "@ + (
                #[trigger] s.outbound_deliveries[i]).id
        },
{
    if let Err(e) = s.merged_with(stored) {
        let fault_at = |i: int| s.shared_event_fault(stored, i);
        law_first_fault(s.inbound_events.len(), fault_at);
        if s.shared_events_fault(stored) is Some {
            let i = choose|i: int|
                0 <= i < s.inbound_events.len() && #[trigger] fault_at(i) == Some(e);
            assert(e == "conflicting inbound event record "@ + s.inbound_events[i].id || e
                == "conflicting inbound event queue identity "@ + s.inbound_events[i].id);
        } else {
            lemma_run_conflicts_name_a_run(stored.runs, s.runs);
            lemma_conflicts_name_a_record(
                stored.run_inputs,
                s.run_inputs,
                "conflicting run input record "@,
            );
            lemma_conflicts_name_a_record(
                stored.inbound_events,
                s.inbound_events,
                "conflicting inbound event record "@,
            );
            lemma_conflicts_name_a_record(
                stored.outbound_deliveries,
                s.outbound_deliveries,
                "conflicting outbound delivery "@,
            );
            if s.runs_preserved(stored) is Ok {
                let a = s.runs_preserved(stored)->Ok_0;
                if a.run_inputs_preserved(stored) is Ok {
                    let b = a.run_inputs_preserved(stored)->Ok_0;
                    if b.events_preserved(stored) is Ok {
                        let c = b.events_preserved(stored)->Ok_0;
                        super::merge_acceptance_laws::lemma_queues_agree(c, s, stored);
                        let j = choose|j: int|
                            {
                                &&& 0 <= j < s.outbound_deliveries.len()
                                &&& e == "conflicting outbound delivery "@ + (
                                #[trigger] s.outbound_deliveries[j]).key()
                                &&& has_key(
                                    stored.outbound_deliveries,
                                    s.outbound_deliveries[j].key(),
                                )
                            };
                        assert(s.outbound_deliveries[j].key() == s.outbound_deliveries[j].id);
                    } else {
                        let j = choose|j: int|
                            {
                                &&& 0 <= j < s.inbound_events.len()
                                &&& e == "conflicting inbound event record "@ + (
                                #[trigger] s.inbound_events[j]).key()
                                &&& has_key(stored.inbound_events, s.inbound_events[j].key())
                            };
                        assert(s.inbound_events[j].key() == s.inbound_events[j].id);
                    }
                } else {
                    let j = choose|j: int|
                        {
                            &&& 0 <= j < s.run_inputs.len()
                            &&& e == "conflicting run input record "@ + (
                            #[trigger] s.run_inputs[j]).key()
                            &&& has_key(stored.run_inputs, s.run_inputs[j].key())
                        };
                    assert(s.run_inputs[j].key() == s.run_inputs[j].run_id);
                }
            }
        }
    }
}

/// What is said where a delivery cannot be settled.
pub proof fn law_refused_settlements(
    store: StoreView,
    state: StateView,
    id: Seq<char>,
    at: u64,
    reason: Seq<char>,
    now: u64,
)
    requires
        store.loaded(now) == Ok::<StateView, Seq<char>>(state),
    ensures
        (forall|i: int|
            0 <= i < state.outbound_deliveries.len() ==> (
            #[trigger] state.outbound_deliveries[i]).id != id) ==> store.resolved_delivered(
            id,
            at,
            now,
        ) == Err::<(DeliveryView, ActionView), Seq<char>>("unknown outbound delivery id "@ + id)
            && store.resolved_failed(id, at, reason, now) == Err::<
            (DeliveryView, ActionView),
            Seq<char>,
        >("unknown outbound delivery id "@ + id),
        forall|i: int|
            0 <= i < state.outbound_deliveries.len() && (
            #[trigger] state.outbound_deliveries[i]).id == id ==> {
                let delivery = state.outbound_deliveries[i];
                &&& store.resolved_delivered(id, at, now) matches Err(e) ==> {
                    if delivery.status is Uncertain {
                        delivery.resolved_delivered(at) == Err::<DeliveryView, Seq<char>>(e)
                    } else if delivery.status is Delivered {
                        e == "outbound delivery "@ + id
                            + " delivered resolution timestamp conflicts with persisted state"@
                    } else {
                        e == "outbound delivery "@ + id + " cannot resolve as delivered from "@
                            + delivery.status.name_text()
                    }
                }
                &&& store.resolved_failed(id, at, reason, now) matches Err(e) ==> {
                    if delivery.status is Uncertain {
                        delivery.resolved_failed(at, reason) == Err::<DeliveryView, Seq<char>>(e)
                    } else if delivery.status is Failed {
                        e == if crate::text::is_blank(reason) {
                            "outbound delivery "@ + id + " resolution failure is empty"@
                        } else {
                            "outbound delivery "@ + id
                                + " failed resolution conflicts with persisted state"@
                        }
                    } else {
                        e == "outbound delivery "@ + id + " cannot resolve as failed from "@
                            + delivery.status.name_text()
                    }
                }
            },
{
    law_loaded_states_are_valid(store, now);
    law_delivery_outcomes_are_written(store, state, id, at, reason, now);
    lemma_find_key(state.outbound_deliveries, id);
    if let Some(i) = find_key(state.outbound_deliveries, id) {
        assert(state.outbound_deliveries[i].id == id);
    }
    assert forall|i: int|
        0 <= i < state.outbound_deliveries.len() && (#[trigger] state.outbound_deliveries[i]).id
            == id implies find_key(state.outbound_deliveries, id) == Some(i) by {
        lemma_find_own_key(state.outbound_deliveries, i);
    }
}

/// What is said where a run cannot be started, failed or interrupted.
pub proof fn law_refused_agent_runs(
    store: StoreView,
    state: StateView,
    id: Seq<char>,
    messages: Seq<MessageView>,
    at: u64,
    now: u64,
)
    requires
        store.loaded(now) == Ok::<StateView, Seq<char>>(state),
    ensures
        (forall|i: int| 0 <= i < state.runs.len() ==> (#[trigger] state.runs[i]).id != id) ==> {
            let refusal = "unknown run id "@ + id;
            &&& store.agent_run_started(id, at, now) matches Err(e) && e == refusal
            &&& store.agent_run_completed(id, messages, at, now) matches Err(e) && e == refusal
            &&& store.agent_run_failed(id, at, now) matches Err(e) && e == refusal
            &&& store.agent_run_interrupted(id, at, now) matches Err(e) && e == refusal
        },
        forall|i: int|
            0 <= i < state.runs.len() && (#[trigger] state.runs[i]).id == id ==> {
                let run = state.runs[i];
                let early = at < run.updated_at_unix;
                &&& store.agent_run_started(id, at, now) matches Err(e) ==> {
                    if forall|k: int|
                        0 <= k < state.run_inputs.len() ==> (#[trigger] state.run_inputs[k]).run_id
                            != id {
                        e == "agent run "@ + id + " has no durable input"@
                    } else if early {
                        e == "agent run "@ + id + " cannot start before updated_at_unix"@
                    } else {
                        e == "run "@ + id + " cannot "@ + "start"@ + (" from "@
                            + run.status.name_text())
                    }
                }
                &&& store.agent_run_failed(id, at, now) matches Err(e) ==> {
                    if run.status is Running {
                        e == "agent run "@ + id + (" cannot "@ + "fail"@)
                            + " before updated_at_unix"@
                    } else if run.status is Failed {
                        e == "agent run "@ + id + " failed outcome conflicts with persisted state"@
                    } else {
                        e == "agent run "@ + id + " cannot fail from "@ + run.status.name_text()
                    }
                }
                &&& store.agent_run_interrupted(id, at, now) matches Err(e) ==> {
                    if run.status is Running {
                        e == "agent run "@ + id + (" cannot "@ + "interrupt"@)
                            + " before updated_at_unix"@
                    } else if run.status is Interrupted {
                        e == "agent run "@ + id
                            + " interrupted outcome conflicts with persisted state"@
                    } else {
                        e == "agent run "@ + id + " cannot interrupt from "@
                            + run.status.name_text()
                    }
                }
            },
{
    law_loaded_states_are_valid(store, now);
    law_run_steps_are_written(store, state, id, at, now);
    lemma_find_key(state.runs, id);
    lemma_find_key(state.run_inputs, id);
    if let Some(i) = find_key(state.runs, id) {
        assert(state.runs[i].id == id);
    }
    match find_key(state.run_inputs, id) {
        Some(k) => {
            assert(state.run_inputs[k].run_id == id);
        },
        None => {
            assert forall|k: int| 0 <= k < state.run_inputs.len() implies (
            #[trigger] state.run_inputs[k]).run_id != id by {
                assert(state.run_inputs[k].key() != id);
            }
        },
    }
    assert forall|i: int| 0 <= i < state.runs.len() && (#[trigger] state.runs[i]).id
        == id implies find_key(state.runs, id) == Some(i) by {
        lemma_find_own_key(state.runs, i);
    }
}

/// What is said where messages cannot be output, and where a completion cannot be
/// made or repeated.
pub proof fn law_refused_completions(
    store: StoreView,
    state: StateView,
    id: Seq<char>,
    i: int,
    messages: Seq<MessageView>,
    at: u64,
    now: u64,
)
    requires
        store.loaded(now) == Ok::<StateView, Seq<char>>(state),
        0 <= i < state.runs.len(),
        state.runs[i].id == id,
    ensures
        outputs(id, state.runs[i].session_id, messages, at) matches Err(e) ==> {
            &&& store.agent_run_completed(id, messages, at, now) == Err::<
                (Seq<DeliveryView>, ActionView),
                Seq<char>,
            >(e)
            &&& messages.len() == 0 ==> e == "agent run "@ + id
                + " completion must contain output messages"@
            &&& messages.len() > 0 ==> exists|m: int|
                {
                    &&& 0 <= m < messages.len()
                    &&& if (#[trigger] messages[m]).author !is Agent {
                        e == "agent run "@ + id + " output message "@ + messages[m].id
                            + " must be agent-authored"@
                    } else if messages[m].session_id != Some(state.runs[i].session_id) {
                        e == "agent run "@ + id + " output message "@ + messages[m].id + (
                        " does not match session "@ + state.runs[i].session_id)
                    } else {
                        messages[m].created_at_unix > at
                    }
                    &&& forall|j: int|
                        0 <= j < m ==> (#[trigger] messages[j]).author is Agent
                            && messages[j].session_id == Some(state.runs[i].session_id)
                            && messages[j].created_at_unix <= at
                }
        },
        outputs(id, state.runs[i].session_id, messages, at) matches Ok(expected)
            ==> store.agent_run_completed(id, messages, at, now) matches Err(e) ==> {
            match state.runs[i].status {
                RunStatus::Running => true,
                RunStatus::Completed => if state.runs[i].finished_at_unix != Some(at) {
                    e == "agent run "@ + id
                        + " completion timestamp conflicts with persisted state"@
                } else if state.runs[i].output_delivery_ids != expected.map_values(
                    |d: DeliveryView| d.id,
                ) {
                    e == "agent run "@ + id
                        + " completion output ids conflict with persisted state"@
                } else {
                    exists|k: int|
                        0 <= k < expected.len() && (e == "agent run "@ + id
                            + " completion is missing outbound delivery "@ + (
                        #[trigger] expected[k]).id || e == "agent run "@ + id
                            + " completion output "@ + expected[k].id
                            + " conflicts with persisted state"@)
                },
                _ => e == "run "@ + id + " cannot complete from "@
                    + state.runs[i].status.name_text(),
            }
        },
{
    law_loaded_states_are_valid(store, now);
    lemma_find_own_key(state.runs, i);
    let run = state.runs[i];
    let session_id = run.session_id;
    let output_at = |m: int| output_fault(id, session_id, messages, m, at);
    law_first_fault(messages.len(), output_at);
    match outputs(id, session_id, messages, at) {
        Err(e) => {
            if messages.len() > 0 {
                let m = choose|m: int|
                    {
                        &&& 0 <= m < messages.len()
                        &&& #[trigger] output_at(m) == Some(e)
                        &&& forall|j: int| 0 <= j < m ==> (#[trigger] output_at(j)) is None
                    };
                assert forall|j: int| 0 <= j < m implies (#[trigger] messages[j]).author is Agent
                    && messages[j].session_id == Some(session_id) && messages[j].created_at_unix
                    <= at by {
                    assert(output_at(j) is None);
                }
                assert(output_at(m) == Some(e));
                assert(messages[m].author is Agent || messages[m].author !is Agent);
            }
        },
        Ok(expected) => {
            let ids = crate::state::completion::delivery_ids(expected);
            assert(ids =~= expected.map_values(|d: DeliveryView| d.id));
            let fault_at = |k: int| replay_delivery_fault(state, run, expected[k]);
            law_first_fault(expected.len(), fault_at);
            if run.status is Completed && run.finished_at_unix == Some(at)
                && run.output_delivery_ids == ids {
                if let Some(e) = replay_fault(state, run, expected, at) {
                    let k = choose|k: int|
                        0 <= k < expected.len() && #[trigger] fault_at(k) == Some(e);
                    assert(expected[k].id == expected[k].id);
                }
            }
        },
    }
}

} // verus!

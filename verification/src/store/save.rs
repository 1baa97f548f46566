//! Saving a snapshot: what a snapshot may bring in, and how it is merged with
//! what the file holds.
use vstd::prelude::*;

use super::file_store::{ActionView, StateStore, StoreAction, StoreView, Transition};
use crate::keyed::{has_key, lookup};
use crate::outbox::{OutboundDeliveryRecord, OutboundDeliveryStatus};
use crate::queue::RunInputRecord;
use crate::run::{same_delivery_ids, RunRecord, RunStatus};
use crate::state::model::RuntimeState;
use crate::state::view::StateView;
use crate::text::{join3, join5};

verus! {

impl StateView {
    /// A snapshot brings in a delivery, at `i`, that is no longer pending.
    pub open spec fn delivery_addition_fault(self, stored: Option<StateView>, i: int) -> Option<
        Seq<char>,
    > {
        let delivery = self.outbound_deliveries[i];
        let known = match stored {
            Some(stored) => has_key(stored.outbound_deliveries, delivery.id),
            None => false,
        };
        if !known && delivery.status !is Pending {
            Some(
                "runtime state save cannot introduce outbound delivery "@ + delivery.id
                    + " with status "@ + delivery.status.name_text()
                    + "; new snapshot deliveries must be pending"@,
            )
        } else {
            None
        }
    }

    /// A snapshot brings in a run input, at `i`.
    pub open spec fn input_addition_fault(self, stored: Option<StateView>, i: int) -> Option<
        Seq<char>,
    > {
        let input = self.run_inputs[i];
        let known = match stored {
            Some(stored) => has_key(stored.run_inputs, input.run_id),
            None => false,
        };
        if known {
            None
        } else {
            Some(
                "runtime state save cannot introduce run input "@ + input.run_id
                    + "; message batches must be claimed through StateStore::claim_message_batch"@,
            )
        }
    }

    /// A snapshot moves the run at `i`, which has a stored input, on to running or
    /// completed.
    pub open spec fn agent_transition_fault(self, stored: Option<StateView>, i: int) -> Option<
        Seq<char>,
    > {
        let run = self.runs[i];
        match stored {
            None => None,
            Some(stored) => if !has_key(stored.run_inputs, run.id) {
                None
            } else {
                match lookup(stored.runs, run.id) {
                    None => None,
                    Some(existing) => if run == existing || existing.descends_from(run) {
                        None
                    } else if run.status is Running || run.status is Completed {
                        Some(
                            "runtime state save cannot create a handoff or completion for durable agent run "@
                                + run.id + "; use the StateStore agent-run transition"@,
                        )
                    } else {
                        None
                    },
                }
            },
        }
    }

    /// A snapshot gives the run at `i` output deliveries that it does not have.
    pub open spec fn output_addition_fault(self, stored: Option<StateView>, i: int) -> Option<
        Seq<char>,
    > {
        let run = self.runs[i];
        let known = match stored {
            Some(stored) => match lookup(stored.runs, run.id) {
                Some(existing) => existing.output_delivery_ids == run.output_delivery_ids,
                None => false,
            },
            None => false,
        };
        if run.output_delivery_ids.len() > 0 && !known {
            Some(
                "runtime state save cannot introduce or change output delivery ownership for run "@
                    + run.id
                    + "; agent output must be committed through the StateStore agent-run completion transition"@,
            )
        } else {
            None
        }
    }

    pub open spec fn delivery_additions_fault(self, stored: Option<StateView>) -> Option<
        Seq<char>,
    > {
        crate::fault::first_fault(
            self.outbound_deliveries.len(),
            |i: int| self.delivery_addition_fault(stored, i),
        )
    }

    pub open spec fn input_additions_fault(self, stored: Option<StateView>) -> Option<Seq<char>> {
        crate::fault::first_fault(
            self.run_inputs.len(),
            |i: int| self.input_addition_fault(stored, i),
        )
    }

    pub open spec fn agent_transitions_fault(self, stored: Option<StateView>) -> Option<
        Seq<char>,
    > {
        crate::fault::first_fault(
            self.runs.len(),
            |i: int| self.agent_transition_fault(stored, i),
        )
    }

    pub open spec fn output_additions_fault(self, stored: Option<StateView>) -> Option<Seq<char>> {
        crate::fault::first_fault(self.runs.len(), |i: int| self.output_addition_fault(stored, i))
    }

    /// What a snapshot brings in that only the operations of the store may.
    pub open spec fn snapshot_fault(self, stored: Option<StateView>) -> Option<Seq<char>> {
        crate::fault::first_of(
            self.delivery_additions_fault(stored),
            crate::fault::first_of(
                self.input_additions_fault(stored),
                crate::fault::first_of(
                    self.agent_transitions_fault(stored),
                    self.output_additions_fault(stored),
                ),
            ),
        )
    }

    /// This snapshot merged with what is stored, or why they contradict each
    /// other: the runs and their inputs are merged first, after them the ledger,
    /// the queue and the deliveries.
    pub open spec fn merged_with(self, stored: StateView) -> Result<StateView, Seq<char>> {
        match self.shared_events_fault(stored) {
            Some(e) => Err(e),
            None => match self.runs_preserved(stored) {
                Err(e) => Err(e),
                Ok(s) => match s.run_inputs_preserved(stored) {
                    Err(e) => Err(e),
                    Ok(s) => match s.events_preserved(stored) {
                        Err(e) => Err(e),
                        Ok(s) => match s.queue_preserved(stored) {
                            Err(e) => Err(e),
                            Ok(s) => s.deliveries_preserved(stored),
                        },
                    },
                },
            },
        }
    }
}

impl StoreView {
    /// Saving a snapshot: it is refused where it brings in what it may not, or
    /// contradicts what is stored; otherwise both, merged, are written.
    pub open spec fn saved(self, state: StateView) -> Result<ActionView, Seq<char>> {
        match self.existing() {
            Err(e) => Err(e),
            Ok(stored) => match state.snapshot_fault(stored) {
                Some(e) => Err(e),
                None => match stored {
                    None => self.write(state),
                    Some(stored) => match state.merged_with(stored) {
                        Err(e) => Err(e),
                        Ok(next) => self.write(next),
                    },
                },
            },
        }
    }
}

/// The model of an optional state.
pub open spec fn state_ref(state: Option<&RuntimeState>) -> Option<StateView> {
    match state {
        Some(state) => Some(state@),
        None => None,
    }
}

fn check_delivery_addition(
    delivery: &OutboundDeliveryRecord,
    candidate: &RuntimeState,
    existing: Option<&RuntimeState>,
    i: usize,
) -> (r: Result<(), String>)
    requires
        i < candidate.outbound_deliveries@.len(),
        delivery@ == candidate@.outbound_deliveries[i as int],
    ensures
        crate::fault::reports(
            r,
            candidate@.delivery_addition_fault(state_ref(existing), i as int),
        ),
{
    let known = match existing {
        Some(existing) => existing.outbound_delivery(&delivery.id).is_some(),
        None => false,
    };
    if !known && delivery.status != OutboundDeliveryStatus::Pending {
        return Err(
            join5(
                "runtime state save cannot introduce outbound delivery ",
                delivery.id.as_str(),
                " with status ",
                delivery.status.name(),
                "; new snapshot deliveries must be pending",
            ),
        );
    }
    Ok(())
}

fn validate_snapshot_outbound_additions(
    candidate: &RuntimeState,
    existing: Option<&RuntimeState>,
) -> (r: Result<(), String>)
    ensures
        crate::fault::reports(r, candidate@.delivery_additions_fault(state_ref(existing))),
{
    let ghost stored = state_ref(existing);
    let ghost fault_at = |i: int| candidate@.delivery_addition_fault(stored, i);
    let mut i: usize = 0;
    while i < candidate.outbound_deliveries.len()
        invariant
            i <= candidate.outbound_deliveries@.len(),
            stored == state_ref(existing),
            fault_at == (|i: int| candidate@.delivery_addition_fault(stored, i)),
            forall|j: int| 0 <= j < i ==> (#[trigger] fault_at(j)) is None,
        decreases candidate.outbound_deliveries@.len() - i,
    {
        match check_delivery_addition(&candidate.outbound_deliveries[i], candidate, existing, i) {
            Ok(()) => {
                assert(fault_at(i as int) is None);
            },
            Err(e) => {
                proof {
                    assert(fault_at(i as int) == Some(e@));
                    crate::fault::lemma_first_fault(
                        candidate@.outbound_deliveries.len(),
                        fault_at,
                        i as int,
                    );
                }
                return Err(e);
            },
        }
        i = i + 1;
    }
    proof {
        crate::fault::lemma_no_fault(candidate@.outbound_deliveries.len(), fault_at);
    }
    Ok(())
}

fn check_input_addition(
    input: &RunInputRecord,
    candidate: &RuntimeState,
    existing: Option<&RuntimeState>,
    i: usize,
) -> (r: Result<(), String>)
    requires
        i < candidate.run_inputs@.len(),
        input@ == candidate@.run_inputs[i as int],
    ensures
        crate::fault::reports(
            r,
            candidate@.input_addition_fault(state_ref(existing), i as int),
        ),
{
    let known = match existing {
        Some(existing) => existing.run_input(&input.run_id).is_some(),
        None => false,
    };
    if !known {
        return Err(
            join3(
                "runtime state save cannot introduce run input ",
                input.run_id.as_str(),
                "; message batches must be claimed through StateStore::claim_message_batch",
            ),
        );
    }
    Ok(())
}

fn validate_snapshot_run_input_additions(
    candidate: &RuntimeState,
    existing: Option<&RuntimeState>,
) -> (r: Result<(), String>)
    ensures
        crate::fault::reports(r, candidate@.input_additions_fault(state_ref(existing))),
{
    let ghost stored = state_ref(existing);
    let ghost fault_at = |i: int| candidate@.input_addition_fault(stored, i);
    let mut i: usize = 0;
    while i < candidate.run_inputs.len()
        invariant
            i <= candidate.run_inputs@.len(),
            stored == state_ref(existing),
            fault_at == (|i: int| candidate@.input_addition_fault(stored, i)),
            forall|j: int| 0 <= j < i ==> (#[trigger] fault_at(j)) is None,
        decreases candidate.run_inputs@.len() - i,
    {
        match check_input_addition(&candidate.run_inputs[i], candidate, existing, i) {
            Ok(()) => {
                assert(fault_at(i as int) is None);
            },
            Err(e) => {
                proof {
                    assert(fault_at(i as int) == Some(e@));
                    crate::fault::lemma_first_fault(
                        candidate@.run_inputs.len(),
                        fault_at,
                        i as int,
                    );
                }
                return Err(e);
            },
        }
        i = i + 1;
    }
    proof {
        crate::fault::lemma_no_fault(candidate@.run_inputs.len(), fault_at);
    }
    Ok(())
}

fn check_agent_transition(
    run: &RunRecord,
    candidate: &RuntimeState,
    existing: Option<&RuntimeState>,
    i: usize,
) -> (r: Result<(), String>)
    requires
        i < candidate.runs@.len(),
        run@ == candidate@.runs[i as int],
    ensures
        crate::fault::reports(
            r,
            candidate@.agent_transition_fault(state_ref(existing), i as int),
        ),
{
    let stored = match existing {
        Some(stored) => stored,
        None => return Ok(()),
    };
    if stored.run_input(&run.id).is_none() {
        return Ok(());
    }
    let existing_run = match stored.run(&run.id) {
        Some(existing_run) => existing_run,
        None => return Ok(()),
    };
    if run.same(existing_run) || existing_run.is_descendant_of(run) {
        return Ok(());
    }
    if run.status == RunStatus::Running || run.status == RunStatus::Completed {
        return Err(
            join3(
                "runtime state save cannot create a handoff or completion for durable agent run ",
                run.id.as_str(),
                "; use the StateStore agent-run transition",
            ),
        );
    }
    Ok(())
}

fn validate_snapshot_agent_run_transitions(
    candidate: &RuntimeState,
    existing: Option<&RuntimeState>,
) -> (r: Result<(), String>)
    ensures
        crate::fault::reports(r, candidate@.agent_transitions_fault(state_ref(existing))),
{
    let ghost stored = state_ref(existing);
    let ghost fault_at = |i: int| candidate@.agent_transition_fault(stored, i);
    let mut i: usize = 0;
    while i < candidate.runs.len()
        invariant
            i <= candidate.runs@.len(),
            stored == state_ref(existing),
            fault_at == (|i: int| candidate@.agent_transition_fault(stored, i)),
            forall|j: int| 0 <= j < i ==> (#[trigger] fault_at(j)) is None,
        decreases candidate.runs@.len() - i,
    {
        match check_agent_transition(&candidate.runs[i], candidate, existing, i) {
            Ok(()) => {
                assert(fault_at(i as int) is None);
            },
            Err(e) => {
                proof {
                    assert(fault_at(i as int) == Some(e@));
                    crate::fault::lemma_first_fault(candidate@.runs.len(), fault_at, i as int);
                }
                return Err(e);
            },
        }
        i = i + 1;
    }
    proof {
        crate::fault::lemma_no_fault(candidate@.runs.len(), fault_at);
    }
    Ok(())
}

fn check_output_addition(
    run: &RunRecord,
    candidate: &RuntimeState,
    existing: Option<&RuntimeState>,
    i: usize,
) -> (r: Result<(), String>)
    requires
        i < candidate.runs@.len(),
        run@ == candidate@.runs[i as int],
    ensures
        crate::fault::reports(
            r,
            candidate@.output_addition_fault(state_ref(existing), i as int),
        ),
{
    if run.output_delivery_ids.len() == 0 {
        return Ok(());
    }
    let known = match existing {
        Some(existing) => match existing.run(&run.id) {
            Some(existing_run) => same_delivery_ids(
                &existing_run.output_delivery_ids,
                &run.output_delivery_ids,
            ),
            None => false,
        },
        None => false,
    };
    if !known {
        return Err(
            join3(
                "runtime state save cannot introduce or change output delivery ownership for run ",
                run.id.as_str(),
                "; agent output must be committed through the StateStore agent-run completion transition",
            ),
        );
    }
    Ok(())
}

fn validate_snapshot_run_output_additions(
    candidate: &RuntimeState,
    existing: Option<&RuntimeState>,
) -> (r: Result<(), String>)
    ensures
        crate::fault::reports(r, candidate@.output_additions_fault(state_ref(existing))),
{
    let ghost stored = state_ref(existing);
    let ghost fault_at = |i: int| candidate@.output_addition_fault(stored, i);
    let mut i: usize = 0;
    while i < candidate.runs.len()
        invariant
            i <= candidate.runs@.len(),
            stored == state_ref(existing),
            fault_at == (|i: int| candidate@.output_addition_fault(stored, i)),
            forall|j: int| 0 <= j < i ==> (#[trigger] fault_at(j)) is None,
        decreases candidate.runs@.len() - i,
    {
        match check_output_addition(&candidate.runs[i], candidate, existing, i) {
            Ok(()) => {
                assert(fault_at(i as int) is None);
            },
            Err(e) => {
                proof {
                    assert(fault_at(i as int) == Some(e@));
                    crate::fault::lemma_first_fault(candidate@.runs.len(), fault_at, i as int);
                }
                return Err(e);
            },
        }
        i = i + 1;
    }
    proof {
        crate::fault::lemma_no_fault(candidate@.runs.len(), fault_at);
    }
    Ok(())
}

fn validate_snapshot(candidate: &RuntimeState, existing: Option<&RuntimeState>) -> (r: Result<
    (),
    String,
>)
    ensures
        crate::fault::reports(r, candidate@.snapshot_fault(state_ref(existing))),
{
    match validate_snapshot_outbound_additions(candidate, existing) {
        Ok(()) => {},
        Err(e) => return Err(e),
    }
    match validate_snapshot_run_input_additions(candidate, existing) {
        Ok(()) => {},
        Err(e) => return Err(e),
    }
    match validate_snapshot_agent_run_transitions(candidate, existing) {
        Ok(()) => {},
        Err(e) => return Err(e),
    }
    validate_snapshot_run_output_additions(candidate, existing)
}

impl RuntimeState {
    /// Merges this snapshot with what is stored.
    fn merge_with(&self, stored: &RuntimeState) -> (r: Result<RuntimeState, String>)
        ensures
            crate::state::persisted::gives_state(r, self@.merged_with(stored@)),
    {
        match self.validate_shared_inbound_event_identity(stored) {
            Ok(()) => {},
            Err(e) => return Err(e),
        }
        let mut state = self.clone();
        match state.preserve_runs_from(stored) {
            Ok(()) => {},
            Err(e) => return Err(e),
        }
        match state.preserve_run_inputs_from(stored) {
            Ok(()) => {},
            Err(e) => return Err(e),
        }
        match state.preserve_inbound_events_from(stored) {
            Ok(()) => {},
            Err(e) => return Err(e),
        }
        match state.preserve_queued_messages_from(stored) {
            Ok(()) => {},
            Err(e) => return Err(e),
        }
        match state.preserve_outbound_deliveries_from(stored) {
            Ok(()) => {},
            Err(e) => return Err(e),
        }
        Ok(state)
    }
}

/// A transition without an outcome of its own comes out as `outcome` says.
pub open spec fn gives_unit(
    r: Result<Transition<()>, String>,
    outcome: Result<ActionView, Seq<char>>,
) -> bool {
    match r {
        Ok(transition) => outcome == Ok::<ActionView, Seq<char>>(transition.action@),
        Err(e) => outcome == Err::<ActionView, Seq<char>>(e@),
    }
}

impl StateStore {
    /// Decides on saving a snapshot: what others have made durable since it was
    /// taken is kept, and a snapshot that contradicts it is refused.
    pub fn save(&self, state: &RuntimeState) -> (r: Result<Transition<()>, String>)
        ensures
            gives_unit(r, self@.saved(state@)),
    {
        match self.save_unlocked(state) {
            Ok(action) => Ok(Transition { outcome: (), action }),
            Err(e) => Err(e),
        }
    }

    pub(crate) fn save_unlocked(&self, state: &RuntimeState) -> (r: Result<StoreAction, String>)
        ensures
            super::file_store::gives_action(r, self@.saved(state@)),
    {
        let existing = match self.load_existing_for_merge() {
            Ok(existing) => existing,
            Err(e) => return Err(e),
        };
        match validate_snapshot(state, existing.as_ref()) {
            Ok(()) => {},
            Err(e) => return Err(e),
        }
        match existing {
            None => self.write_unlocked(state.clone()),
            Some(stored) => match state.merge_with(&stored) {
                Ok(next) => self.write_unlocked(next),
                Err(e) => Err(e),
            },
        }
    }
}

} // verus!

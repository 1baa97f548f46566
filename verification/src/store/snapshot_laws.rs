//! What a saved snapshot cannot do: start or complete a durable agent run, or
//! change which deliveries a run owns.
use vstd::prelude::*;

use super::file_store::{law_loaded_states_are_valid, StoreView};
use crate::fault::lemma_no_fault;
use crate::keyed::{find_key, has_key, lemma_find_key, lemma_find_own_key, Keyed};
use crate::run::{law_descent_is_strict, law_descent_is_transitive, RunView};
use crate::state::merge::merged_runs;
use crate::state::view::StateView;

verus! {

/// A merge leaves each stored run as it was, or puts a candidate in its place that
/// is a later stage of it.
proof fn lemma_merged_run_origin(stored: Seq<RunView>, candidates: Seq<RunView>)
    ensures
        merged_runs(stored, candidates) matches Ok(runs) ==> {
            &&& stored.len() <= runs.len()
            &&& forall|i: int|
                0 <= i < stored.len() ==> {
                    &&& runs[i].id == (#[trigger] stored[i]).id
                    &&& runs[i] == stored[i] || (candidates.contains(runs[i])
                        && runs[i].descends_from(stored[i]))
                }
            &&& forall|i: int|
                stored.len() <= i < runs.len() ==> candidates.contains(#[trigger] runs[i])
                    && !has_key(stored, runs[i].id)
        },
    decreases candidates.len(),
{
    broadcast use lemma_find_key;

    if candidates.len() > 0 {
        let front = candidates.drop_last();
        lemma_merged_run_origin(stored, front);
        if let Ok(runs) = merged_runs(stored, candidates) {
            let before = merged_runs(stored, front)->Ok_0;
            let run = candidates.last();
            assert(candidates[candidates.len() - 1] == run);
            assert forall|r: RunView| #[trigger] front.contains(r) implies candidates.contains(
                r,
            ) by {
                let k = front.index_of(r);
                assert(candidates[k] == front[k]);
            }
            assert forall|i: int| 0 <= i < stored.len() implies {
                &&& runs[i].id == (#[trigger] stored[i]).id
                &&& runs[i] == stored[i] || (candidates.contains(runs[i])
                    && runs[i].descends_from(stored[i]))
            } by {
                if runs[i] != before[i] {
                    assert(runs[i] == run);
                    if before[i] != stored[i] {
                        law_descent_is_transitive(stored[i], before[i], run);
                    }
                }
            }
            assert forall|i: int| stored.len() <= i < runs.len() implies candidates.contains(
                #[trigger] runs[i],
            ) && !has_key(stored, runs[i].id) by {
                if i < before.len() {
                    if runs[i] != before[i] {
                        assert(runs[i] == run);
                        assert(run.id == before[i].id);
                    }
                } else {
                    assert(runs[i] == run);
                    if let Some(k) = find_key(stored, run.id) {
                        assert(before[k].id == stored[k].id);
                        assert(before[k].key() == run.id);
                    }
                }
            }
        }
    }
}

/// Saving a snapshot never makes a run running or completed that has stored input:
/// such a run is at the stage that is stored, or was ended or interrupted.
pub proof fn law_saves_hand_out_no_run(store: StoreView, stored: StateView, snapshot: StateView)
    requires
        store.existing() == Ok::<Option<StateView>, Seq<char>>(Some(stored)),
    ensures
        store.saved(snapshot) matches Ok(action) ==> {
            &&& action is Write
            &&& forall|i: int|
                0 <= i < stored.runs.len() && has_key(
                    stored.run_inputs,
                    (#[trigger] stored.runs[i]).id,
                ) ==> {
                    let run = action->Write_0.runs[i];
                    run == stored.runs[i] || !(run.status is Running || run.status is Completed)
                }
        },
{
    broadcast use lemma_find_key;

    law_loaded_states_are_valid(store, 0);
    if let Ok(action) = store.saved(snapshot) {
        let next = snapshot.merged_with(stored)->Ok_0;
        lemma_merged_run_origin(stored.runs, snapshot.runs);
        let fault_at = |k: int| snapshot.agent_transition_fault(Some(stored), k);
        lemma_no_fault(snapshot.runs.len(), fault_at);
        assert forall|i: int|
            0 <= i < stored.runs.len() && has_key(
                stored.run_inputs,
                (#[trigger] stored.runs[i]).id,
            ) implies next.runs[i] == stored.runs[i] || !(next.runs[i].status is Running
            || next.runs[i].status is Completed) by {
            let run = next.runs[i];
            if run != stored.runs[i] {
                let k = snapshot.runs.index_of(run);
                assert(fault_at(k) is None);
                lemma_find_own_key(stored.runs, i);
                law_descent_is_strict(run, stored.runs[i]);
            }
        }
    }
}

/// Saving a snapshot never changes which output deliveries a run owns, and brings
/// in no run that owns any.
pub proof fn law_saves_keep_output_ownership(
    store: StoreView,
    stored: StateView,
    snapshot: StateView,
)
    requires
        store.existing() == Ok::<Option<StateView>, Seq<char>>(Some(stored)),
    ensures
        store.saved(snapshot) matches Ok(action) ==> {
            &&& action is Write
            &&& forall|i: int|
                0 <= i < stored.runs.len() ==> action->Write_0.runs[i].output_delivery_ids == (
                #[trigger] stored.runs[i]).output_delivery_ids
            &&& forall|i: int|
                stored.runs.len() <= i < action->Write_0.runs.len() ==> (
                #[trigger] action->Write_0.runs[i]).output_delivery_ids.len() == 0
        },
{
    broadcast use lemma_find_key;

    law_loaded_states_are_valid(store, 0);
    if let Ok(action) = store.saved(snapshot) {
        let next = snapshot.merged_with(stored)->Ok_0;
        lemma_merged_run_origin(stored.runs, snapshot.runs);
        let fault_at = |k: int| snapshot.output_addition_fault(Some(stored), k);
        lemma_no_fault(snapshot.runs.len(), fault_at);
        assert forall|i: int| 0 <= i < stored.runs.len() implies next.runs[i].output_delivery_ids
            == (#[trigger] stored.runs[i]).output_delivery_ids by {
            let run = next.runs[i];
            if run != stored.runs[i] {
                let k = snapshot.runs.index_of(run);
                assert(fault_at(k) is None);
                lemma_find_own_key(stored.runs, i);
                assert(stored.runs[i].flaw() is None);
                assert(stored.runs[i].output_delivery_ids.len() == 0);
                assert(run.output_delivery_ids =~= stored.runs[i].output_delivery_ids);
            }
        }
        assert forall|i: int| stored.runs.len() <= i < next.runs.len() implies (
        #[trigger] next.runs[i]).output_delivery_ids.len() == 0 by {
            let k = snapshot.runs.index_of(next.runs[i]);
            assert(fault_at(k) is None);
        }
    }
}

} // verus!

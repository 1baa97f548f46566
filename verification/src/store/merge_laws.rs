//! What a merge keeps of both sides, and that a state that only adds to what is
//! stored is written as it is.
use vstd::prelude::*;

use crate::fault::lemma_no_fault;
use crate::keyed::{
    distinct_keys, find_key, has_key, lemma_find_key, lemma_find_key_push, lemma_find_key_update,
    lemma_find_own_key, lookup, Keyed,
};
use crate::queue::QueuedView;
use crate::run::RunView;
use crate::state::merge::{conflict, conflicts, merged, merged_runs};
use crate::state::view::StateView;

verus! {

/// A merge starts with what is stored, and every candidate is found in it.
pub proof fn lemma_merged<T: Keyed>(stored: Seq<T>, candidates: Seq<T>)
    ensures
        stored.is_prefix_of(merged(stored, candidates)),
        forall|i: int|
            0 <= i < candidates.len() ==> has_key(stored, (#[trigger] candidates[i]).key())
                || merged(stored, candidates).contains(candidates[i]),
    decreases candidates.len(),
{
    if candidates.len() > 0 {
        let front = candidates.drop_last();
        let before = merged(stored, front);
        let after = merged(stored, candidates);
        lemma_merged(stored, front);
        assert(stored.is_prefix_of(after)) by {
            assert(forall|i: int| 0 <= i < stored.len() ==> after[i] == before[i]);
        }
        assert forall|i: int| 0 <= i < candidates.len() implies has_key(
            stored,
            (#[trigger] candidates[i]).key(),
        ) || after.contains(candidates[i]) by {
            if i < front.len() {
                assert(front[i] == candidates[i]);
                if !has_key(stored, candidates[i].key()) {
                    let a = before.index_of(front[i]);
                    assert(after[a] == candidates[i]);
                }
            } else if !has_key(stored, candidates[i].key()) {
                assert(after[after.len() - 1] == candidates[i]);
            }
        }
    }
}

/// Where the candidates start with what is stored and add others, a merge gives
/// the candidates, and nothing conflicts.
pub proof fn lemma_merged_extension<T: Keyed>(stored: Seq<T>, next: Seq<T>, what: Seq<char>)
    requires
        stored.is_prefix_of(next),
        distinct_keys(next),
    ensures
        merged(stored, next) == next,
        conflicts(stored, next, what) is None,
{
    broadcast use lemma_find_key;

    assert forall|i: int| 0 <= i < stored.len() implies stored[i] == #[trigger] next[i] by {}
    let fault_at = |i: int| conflict(stored, next[i], what);
    assert forall|i: int| 0 <= i < next.len() implies (#[trigger] fault_at(i)) is None by {
        if let Some(k) = find_key(stored, next[i].key()) {
            assert(stored[k] == next[k]);
        }
    }
    lemma_no_fault(next.len(), fault_at);
    lemma_merged_front(stored, next, next.len() as int);
    assert(next.take(next.len() as int) =~= next);
}

proof fn lemma_merged_front<T: Keyed>(stored: Seq<T>, next: Seq<T>, n: int)
    requires
        stored.is_prefix_of(next),
        distinct_keys(next),
        0 <= n <= next.len(),
    ensures
        merged(stored, next.take(n)) == (if n <= stored.len() {
            stored
        } else {
            next.take(n)
        }),
    decreases n,
{
    broadcast use lemma_find_key;

    assert(forall|i: int| 0 <= i < stored.len() ==> stored[i] == #[trigger] next[i]);
    if n > 0 {
        lemma_merged_front(stored, next, n - 1);
        assert(next.take(n).drop_last() =~= next.take(n - 1));
        assert(next.take(n).last() == next[n - 1]);
        if n <= stored.len() {
            assert(stored[n - 1].key() == next[n - 1].key());
            assert(has_key(stored, next[n - 1].key()));
        } else {
            if let Some(k) = find_key(stored, next[n - 1].key()) {
                assert(stored[k] == next[k]);
            }
            if n - 1 == stored.len() {
                assert(next.take(n - 1) =~= stored);
            }
            assert(next.take(n) =~= next.take(n - 1).push(next[n - 1]));
        }
    }
}

/// Merging runs keeps every stored run, as it is or at a later stage, and has
/// every candidate, as it is or at a later stage.
pub proof fn lemma_merged_runs(stored: Seq<RunView>, candidates: Seq<RunView>)
    ensures
        merged_runs(stored, candidates) matches Ok(runs) ==> {
            &&& stored.len() <= runs.len()
            &&& forall|i: int|
                0 <= i < stored.len() ==> runs[i] == #[trigger] stored[i]
                    || runs[i].descends_from(stored[i])
            &&& forall|i: int|
                0 <= i < candidates.len() ==> match lookup(
                    runs,
                    (#[trigger] candidates[i]).id,
                ) {
                    Some(run) => run == candidates[i] || run.descends_from(candidates[i]),
                    None => false,
                }
        },
    decreases candidates.len(),
{
    broadcast use lemma_find_key;

    if candidates.len() > 0 {
        let front = candidates.drop_last();
        lemma_merged_runs(stored, front);
        if let Ok(runs) = merged_runs(stored, candidates) {
            let before = merged_runs(stored, front)->Ok_0;
            let run = candidates.last();
            match find_key(before, run.id) {
                None => {
                    assert forall|i: int| 0 <= i < candidates.len() implies match lookup(
                        runs,
                        (#[trigger] candidates[i]).id,
                    ) {
                        Some(found) => found == candidates[i] || found.descends_from(
                            candidates[i],
                        ),
                        None => false,
                    } by {
                        lemma_find_key_push(before, run, candidates[i].id);
                        if i < front.len() {
                            assert(front[i] == candidates[i]);
                        }
                    }
                },
                Some(k) => {
                    if before[k] == run || before[k].descends_from(run) {
                        assert forall|i: int| 0 <= i < candidates.len() implies match lookup(
                            runs,
                            (#[trigger] candidates[i]).id,
                        ) {
                            Some(found) => found == candidates[i] || found.descends_from(
                                candidates[i],
                            ),
                            None => false,
                        } by {
                            if i < front.len() {
                                assert(front[i] == candidates[i]);
                            }
                        }
                    } else {
                        assert(run.descends_from(before[k]));
                        assert forall|i: int| 0 <= i < stored.len() implies runs[i]
                            == #[trigger] stored[i] || runs[i].descends_from(stored[i]) by {
                            if i == k && before[k] != stored[i] {
                                crate::run::law_descent_is_transitive(stored[i], before[k], run);
                            }
                        }
                        assert forall|i: int| 0 <= i < candidates.len() implies match lookup(
                            runs,
                            (#[trigger] candidates[i]).id,
                        ) {
                            Some(found) => found == candidates[i] || found.descends_from(
                                candidates[i],
                            ),
                            None => false,
                        } by {
                            lemma_find_key_update(before, k, run, candidates[i].id);
                            if i < front.len() {
                                assert(front[i] == candidates[i]);
                                let j = find_key(before, candidates[i].id)->Some_0;
                                if j == k && before[k] != candidates[i] {
                                    crate::run::law_descent_is_transitive(
                                        candidates[i],
                                        before[k],
                                        run,
                                    );
                                }
                            }
                        }
                    }
                },
            }
        }
    }
}

/// Runs merged with themselves are themselves.
pub proof fn lemma_merged_runs_same(runs: Seq<RunView>, n: int)
    requires
        distinct_keys(runs),
        0 <= n <= runs.len(),
    ensures
        merged_runs(runs, runs.take(n)) == Ok::<Seq<RunView>, Seq<char>>(runs),
    decreases n,
{
    if n > 0 {
        lemma_merged_runs_same(runs, n - 1);
        assert(runs.take(n).drop_last() =~= runs.take(n - 1));
        assert(runs.take(n).last() == runs[n - 1]);
        lemma_find_own_key(runs, n - 1);
    }
}

/// The part of a stored queue that is kept: every entry that no run has taken.
pub proof fn lemma_still_queued(s: StateView, queue: Seq<QueuedView>)
    ensures
        forall|i: int|
            0 <= i < queue.len() ==> s.claimed_message((#[trigger] queue[i]).event_id) is Some
                || s.still_queued(queue).contains(queue[i]),
    decreases queue.len(),
{
    if queue.len() > 0 {
        let front = queue.drop_last();
        let before = s.still_queued(front);
        let after = s.still_queued(queue);
        lemma_still_queued(s, front);
        assert forall|i: int| 0 <= i < queue.len() implies s.claimed_message(
            (#[trigger] queue[i]).event_id,
        ) is Some || after.contains(queue[i]) by {
            if s.claimed_message(queue[i].event_id) is None {
                if i < front.len() {
                    assert(front[i] == queue[i]);
                    let a = before.index_of(front[i]);
                    assert(after[a] == queue[i]);
                } else {
                    assert(after[after.len() - 1] == queue[i]);
                }
            }
        }
    }
}

/// Extending a queue keeps its front part.
pub proof fn lemma_queue_extended_prefix(
    s: StateView,
    stored: StateView,
    front: Seq<QueuedView>,
    candidates: Seq<QueuedView>,
)
    ensures
        front.is_prefix_of(s.queue_extended(stored, front, candidates)),
    decreases candidates.len(),
{
    if candidates.len() > 0 {
        lemma_queue_extended_prefix(s, stored, front, candidates.drop_last());
        let before = s.queue_extended(stored, front, candidates.drop_last());
        let after = s.queue_extended(stored, front, candidates);
        assert(forall|i: int| 0 <= i < front.len() ==> after[i] == before[i]);
    }
}

/// What is stored survives a merge: the ledger, the run inputs and the deliveries
/// come first and unchanged, every run is there as it was or at a later stage, and
/// every queued message is still queued, or a run has taken that very message.
pub proof fn law_merge_keeps_what_is_stored(s: StateView, stored: StateView)
    ensures
        s.merged_with(stored) matches Ok(t) ==> {
            &&& stored.inbound_events.is_prefix_of(t.inbound_events)
            &&& stored.run_inputs.is_prefix_of(t.run_inputs)
            &&& stored.outbound_deliveries.is_prefix_of(t.outbound_deliveries)
            &&& stored.runs.len() <= t.runs.len()
            &&& forall|i: int|
                0 <= i < stored.runs.len() ==> t.runs[i] == #[trigger] stored.runs[i]
                    || t.runs[i].descends_from(stored.runs[i])
            &&& forall|i: int|
                0 <= i < stored.queued_messages.len() ==> t.queued_messages.contains(
                    #[trigger] stored.queued_messages[i],
                ) || match t.claimed_message(stored.queued_messages[i].event_id) {
                    Some(claimed) => claimed.same_identity(stored.queued_messages[i]),
                    None => false,
                }
            &&& s.updated_at_unix <= t.updated_at_unix
            &&& t.sessions == s.sessions
        },
{
    if let Ok(t) = s.merged_with(stored) {
        let a = s.runs_preserved(stored)->Ok_0;
        let b = a.run_inputs_preserved(stored)->Ok_0;
        let c = b.events_preserved(stored)->Ok_0;
        let d = c.queue_preserved(stored)->Ok_0;
        lemma_merged_runs(stored.runs, s.runs);
        lemma_merged(stored.run_inputs, a.run_inputs);
        lemma_merged(stored.inbound_events, b.inbound_events);
        lemma_merged(stored.outbound_deliveries, d.outbound_deliveries);
        let queue = stored.queued_messages;
        let kept = c.still_queued(queue);
        lemma_still_queued(c, queue);
        lemma_queue_extended_prefix(c, stored, kept, c.queued_messages);
        let fault_at = |i: int| c.claim_conflict(stored.queued_messages[i]);
        lemma_no_fault(queue.len(), fault_at);
        assert forall|i: int| 0 <= i < queue.len() implies t.queued_messages.contains(
            #[trigger] queue[i],
        ) || match t.claimed_message(queue[i].event_id) {
            Some(claimed) => claimed.same_identity(queue[i]),
            None => false,
        } by {
            assert(fault_at(i) is None);
            assert(t.claimed_message(queue[i].event_id) == c.claimed_message(queue[i].event_id));
            if c.claimed_message(queue[i].event_id) is None {
                let k = kept.index_of(queue[i]);
                assert(t.queued_messages[k] == kept[k]);
            }
        }
    }
}

/// What a snapshot has survives a merge as well: each of its ledger entries, run
/// inputs and deliveries is there unchanged, and each of its runs as it was or at a
/// later stage.
pub proof fn law_merge_keeps_the_snapshot(s: StateView, stored: StateView)
    ensures
        s.merged_with(stored) matches Ok(t) ==> {
            &&& forall|i: int|
                0 <= i < s.inbound_events.len() ==> t.inbound_events.contains(
                    #[trigger] s.inbound_events[i],
                )
            &&& forall|i: int|
                0 <= i < s.run_inputs.len() ==> t.run_inputs.contains(#[trigger] s.run_inputs[i])
            &&& forall|i: int|
                0 <= i < s.outbound_deliveries.len() ==> t.outbound_deliveries.contains(
                    #[trigger] s.outbound_deliveries[i],
                )
            &&& forall|i: int|
                0 <= i < s.runs.len() ==> match lookup(t.runs, (#[trigger] s.runs[i]).id) {
                    Some(run) => run == s.runs[i] || run.descends_from(s.runs[i]),
                    None => false,
                }
        },
{
    if let Ok(t) = s.merged_with(stored) {
        let a = s.runs_preserved(stored)->Ok_0;
        let b = a.run_inputs_preserved(stored)->Ok_0;
        let c = b.events_preserved(stored)->Ok_0;
        let d = c.queue_preserved(stored)->Ok_0;
        lemma_merged_runs(stored.runs, s.runs);
        lemma_merge_has_candidates(
            stored.run_inputs,
            a.run_inputs,
            "conflicting run input record "@,
        );
        lemma_merge_has_candidates(
            stored.inbound_events,
            b.inbound_events,
            "conflicting inbound event record "@,
        );
        lemma_merge_has_candidates(
            stored.outbound_deliveries,
            d.outbound_deliveries,
            "conflicting outbound delivery "@,
        );
    }
}

/// Where nothing conflicts, a merge has every candidate.
proof fn lemma_merge_has_candidates<T: Keyed>(stored: Seq<T>, candidates: Seq<T>, what: Seq<char>)
    requires
        conflicts(stored, candidates, what) is None,
    ensures
        forall|i: int|
            0 <= i < candidates.len() ==> merged(stored, candidates).contains(
                #[trigger] candidates[i],
            ),
{
    broadcast use lemma_find_key;

    lemma_merged(stored, candidates);
    let fault_at = |i: int| conflict(stored, candidates[i], what);
    lemma_no_fault(candidates.len(), fault_at);
    assert forall|i: int| 0 <= i < candidates.len() implies merged(stored, candidates).contains(
        #[trigger] candidates[i],
    ) by {
        assert(fault_at(i) is None);
        if let Some(k) = find_key(stored, candidates[i].key()) {
            assert(stored[k] == candidates[i]);
            assert(merged(stored, candidates)[k] == stored[k]);
        }
    }
}

} // verus!

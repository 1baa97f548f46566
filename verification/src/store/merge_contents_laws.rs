//! What stands in a merged state, in terms of the snapshot and of what is stored:
//! which records, in which order, and which queued messages.
use vstd::prelude::*;

use crate::fault::lemma_no_fault;
use crate::keyed::{
    distinct_keys, find_key, has_key, lemma_filter_origin, lemma_find_key, Keyed,
};
use crate::queue::{QueuedView, RunInputView};
use crate::run::RunView;
use crate::state::merge::{behind_tail, last_claimed, last_queued, merged, merged_runs};
use crate::state::validity::{lemma_claim_origin, lemma_claims_before};
use crate::state::view::{claims, claims_of, ClaimedView, StateView};

verus! {

/// The state after each part of a merge.
proof fn lemma_merge_stages(s: StateView, stored: StateView, t: StateView) -> (c: StateView)
    requires
        s.merged_with(stored) == Ok::<StateView, Seq<char>>(t),
    ensures
        merged_runs(stored.runs, s.runs) == Ok::<Seq<RunView>, Seq<char>>(t.runs),
        t.run_inputs == merged(stored.run_inputs, s.run_inputs),
        t.inbound_events == merged(stored.inbound_events, s.inbound_events),
        t.outbound_deliveries == merged(stored.outbound_deliveries, s.outbound_deliveries),
        t.sessions == s.sessions,
        c.run_inputs == t.run_inputs,
        c.queued_messages == s.queued_messages,
        c.queues_fault(stored) is None,
        t.queued_messages == c.queue_merged(stored),
{
    let a = s.runs_preserved(stored)->Ok_0;
    let b = a.run_inputs_preserved(stored)->Ok_0;
    b.events_preserved(stored)->Ok_0
}

// ---------------------------------------------------- records with a key

/// A merge is what is stored, followed by the candidates whose key is not stored.
pub proof fn lemma_merged_is<T: Keyed>(stored: Seq<T>, candidates: Seq<T>)
    ensures
        merged(stored, candidates) == stored + candidates.filter(
            |c: T| forall|i: int| 0 <= i < stored.len() ==> (#[trigger] stored[i]).key() != c.key(),
        ),
    decreases candidates.len(),
{
    reveal(Seq::filter);
    let new = |c: T|
        forall|i: int| 0 <= i < stored.len() ==> (#[trigger] stored[i]).key() != c.key();
    if candidates.len() == 0 {
        assert(merged(stored, candidates) =~= stored + candidates.filter(new));
    } else {
        let front = candidates.drop_last();
        lemma_merged_is(stored, front);
        lemma_find_key(stored, candidates.last().key());
        if has_key(stored, candidates.last().key()) {
            let i = find_key(stored, candidates.last().key())->Some_0;
            assert(stored[i].key() == candidates.last().key());
            assert(!new(candidates.last()));
        } else {
            assert(new(candidates.last()));
            assert(merged(stored, candidates) =~= stored + front.filter(new).push(
                candidates.last(),
            ));
        }
    }
}

/// Filters that agree on every item give the same.
proof fn lemma_same_filter<T>(items: Seq<T>, a: spec_fn(T) -> bool, b: spec_fn(T) -> bool)
    requires
        forall|i: int| 0 <= i < items.len() ==> a(#[trigger] items[i]) == b(items[i]),
    ensures
        items.filter(a) == items.filter(b),
    decreases items.len(),
{
    reveal(Seq::filter);
    if items.len() > 0 {
        let front = items.drop_last();
        assert forall|i: int| 0 <= i < front.len() implies a(#[trigger] front[i]) == b(
            front[i],
        ) by {
            assert(front[i] == items[i]);
        }
        lemma_same_filter(front, a, b);
        assert(a(items[items.len() - 1]) == b(items[items.len() - 1]));
    }
}

/// The ledger, the run inputs and the deliveries of a merged state are those that
/// are stored, in their order, followed by those of the snapshot that are not
/// stored, in theirs; the sessions are those of the snapshot.
pub proof fn law_merged_lists(s: StateView, stored: StateView, t: StateView)
    requires
        s.merged_with(stored) == Ok::<StateView, Seq<char>>(t),
    ensures
        t.sessions == s.sessions,
        t.inbound_events == stored.inbound_events + s.inbound_events.filter(
            |c: crate::event::EventRecordView|
                forall|i: int|
                    0 <= i < stored.inbound_events.len() ==> (
                    #[trigger] stored.inbound_events[i]).id != c.id,
        ),
        t.run_inputs == stored.run_inputs + s.run_inputs.filter(
            |c: RunInputView|
                forall|i: int|
                    0 <= i < stored.run_inputs.len() ==> (#[trigger] stored.run_inputs[i]).run_id
                        != c.run_id,
        ),
        t.outbound_deliveries == stored.outbound_deliveries + s.outbound_deliveries.filter(
            |c: crate::outbox::DeliveryView|
                forall|i: int|
                    0 <= i < stored.outbound_deliveries.len() ==> (
                    #[trigger] stored.outbound_deliveries[i]).id != c.id,
        ),
{
    let c = lemma_merge_stages(s, stored, t);
    lemma_merged_is(stored.inbound_events, s.inbound_events);
    lemma_merged_is(stored.run_inputs, s.run_inputs);
    lemma_merged_is(stored.outbound_deliveries, s.outbound_deliveries);
    lemma_same_filter(
        s.inbound_events,
        |c: crate::event::EventRecordView|
            forall|i: int|
                0 <= i < stored.inbound_events.len() ==> (#[trigger] stored.inbound_events[i]).key()
                    != c.key(),
        |c: crate::event::EventRecordView|
            forall|i: int|
                0 <= i < stored.inbound_events.len() ==> (#[trigger] stored.inbound_events[i]).id
                    != c.id,
    );
    lemma_same_filter(
        s.run_inputs,
        |c: RunInputView|
            forall|i: int|
                0 <= i < stored.run_inputs.len() ==> (#[trigger] stored.run_inputs[i]).key()
                    != c.key(),
        |c: RunInputView|
            forall|i: int|
                0 <= i < stored.run_inputs.len() ==> (#[trigger] stored.run_inputs[i]).run_id
                    != c.run_id,
    );
    lemma_same_filter(
        s.outbound_deliveries,
        |c: crate::outbox::DeliveryView|
            forall|i: int|
                0 <= i < stored.outbound_deliveries.len() ==> (
                #[trigger] stored.outbound_deliveries[i]).key() != c.key(),
        |c: crate::outbox::DeliveryView|
            forall|i: int|
                0 <= i < stored.outbound_deliveries.len() ==> (
                #[trigger] stored.outbound_deliveries[i]).id != c.id,
    );
}

// ----------------------------------------------------------------- runs

/// Merged runs: the stored ones at the later stage, and behind them the others.
pub proof fn lemma_merged_runs_are(stored: Seq<RunView>, candidates: Seq<RunView>, runs: Seq<RunView>)
    requires
        distinct_keys(stored),
        distinct_keys(candidates),
        merged_runs(stored, candidates) == Ok::<Seq<RunView>, Seq<char>>(runs),
    ensures
        distinct_keys(runs),
        runs.len() >= stored.len(),
        forall|i: int|
            0 <= i < stored.len() ==> {
                &&& (#[trigger] runs[i]).id == stored[i].id
                &&& runs[i] == stored[i] || candidates.contains(runs[i])
            },
        forall|i: int, j: int|
            0 <= i < stored.len() && 0 <= j < candidates.len() && (#[trigger] stored[i]).id == (
            #[trigger] candidates[j]).id ==> runs[i] == if candidates[j].descends_from(stored[i]) {
                candidates[j]
            } else {
                stored[i]
            },
        runs.skip(stored.len() as int) == candidates.filter(
            |c: RunView|
                forall|i: int| 0 <= i < stored.len() ==> (#[trigger] stored[i]).id != c.id,
        ),
    decreases candidates.len(),
{
    reveal(Seq::filter);
    let new = |c: RunView|
        forall|i: int| 0 <= i < stored.len() ==> (#[trigger] stored[i]).id != c.id;
    let n = stored.len() as int;
    if candidates.len() == 0 {
        assert(runs.skip(n) =~= candidates.filter(new));
    } else {
        let front = candidates.drop_last();
        let run = candidates.last();
        let m = candidates.len() - 1;
        let before = merged_runs(stored, front)->Ok_0;
        assert(forall|i: int| 0 <= i < front.len() ==> #[trigger] front[i] == candidates[i]);
        lemma_merged_runs_are(stored, front, before);
        lemma_find_key(before, run.id);
        assert(candidates[m] == run);
        // Behind the stored runs stand candidates, and none under the key of `run`.
        assert forall|p: int| n <= p < before.len() implies (#[trigger] before[p]).id
            != run.id by {
            let tail = before.skip(n);
            assert(tail[p - n] == before[p]);
            lemma_filter_origin(front, new, p - n);
            let k = front.index_of(tail[p - n]);
            assert(candidates[k].key() != candidates[m].key());
        }
        match find_key(before, run.id) {
            None => {
                assert forall|i: int| 0 <= i < n implies (#[trigger] stored[i]).id != run.id by {
                    assert(before[i].key() != run.id);
                }
                assert(new(run));
                assert(runs == before.push(run));
                assert(runs.skip(n) =~= before.skip(n).push(run));
                assert forall|i: int| 0 <= i < n implies {
                    &&& (#[trigger] runs[i]).id == stored[i].id
                    &&& runs[i] == stored[i] || candidates.contains(runs[i])
                } by {
                    assert(runs[i] == before[i]);
                    if before[i] != stored[i] {
                        let k = front.index_of(before[i]);
                        assert(candidates[k] == runs[i]);
                    }
                }
                assert forall|i: int, j: int|
                    0 <= i < n && 0 <= j < candidates.len() && (#[trigger] stored[i]).id == (
                    #[trigger] candidates[j]).id implies runs[i] == if candidates[j].descends_from(
                    stored[i],
                ) {
                    candidates[j]
                } else {
                    stored[i]
                } by {
                    assert(j < m);
                    assert(front[j] == candidates[j]);
                    assert(runs[i] == before[i]);
                }
                assert forall|i: int, j: int|
                    0 <= i < j < runs.len() implies (#[trigger] runs[i]).key() != (
                #[trigger] runs[j]).key() by {
                    assert(runs[i] == before[i]);
                    assert(before[i].key() != run.id);
                }
            },
            Some(k) => {
                assert(k < n);
                assert(stored[k].id == run.id);
                assert(!new(run));
                // The stored run at `k` was not met before.
                assert forall|j: int| 0 <= j < front.len() implies (#[trigger] front[j]).id
                    != run.id by {
                    assert(candidates[j].key() != candidates[m].key());
                }
                assert(before[k] == stored[k]) by {
                    if before[k] != stored[k] {
                        let j = front.index_of(before[k]);
                        assert(front[j].id != run.id);
                    }
                }
                assert(runs.skip(n) =~= before.skip(n));
                if run.descends_from(stored[k]) {
                    crate::run::law_descent_is_strict(stored[k], run);
                }
                assert(runs[k] == if run.descends_from(stored[k]) {
                    run
                } else {
                    stored[k]
                });
                assert forall|i: int| 0 <= i < n implies {
                    &&& (#[trigger] runs[i]).id == stored[i].id
                    &&& runs[i] == stored[i] || candidates.contains(runs[i])
                } by {
                    if i == k {
                        assert(candidates[m] == run);
                    } else {
                        assert(runs[i] == before[i]);
                        if before[i] != stored[i] {
                            let j = front.index_of(before[i]);
                            assert(candidates[j] == runs[i]);
                        }
                    }
                }
                assert forall|i: int, j: int|
                    0 <= i < n && 0 <= j < candidates.len() && (#[trigger] stored[i]).id == (
                    #[trigger] candidates[j]).id implies runs[i] == if candidates[j].descends_from(
                    stored[i],
                ) {
                    candidates[j]
                } else {
                    stored[i]
                } by {
                    if j == m {
                        if i != k {
                            assert(stored[i].key() != stored[k].key());
                        }
                    } else {
                        assert(front[j] == candidates[j]);
                        assert(i != k);
                    }
                }
                assert forall|i: int, j: int|
                    0 <= i < j < runs.len() implies (#[trigger] runs[i]).key() != (
                #[trigger] runs[j]).key() by {
                    assert(before[i].key() != before[j].key());
                    assert(runs[i].id == before[i].id);
                    assert(runs[j].id == before[j].id);
                }
            },
        }
    }
}

/// The runs of a merged state are the stored ones, in their order, followed by
/// those of the snapshot that are not stored, in theirs. Where the snapshot has a
/// later stage of a stored run, that stage takes the place of the stored one;
/// every other stored run stays as it is.
pub proof fn law_merged_runs_are_the_later_stages(s: StateView, stored: StateView, t: StateView)
    requires
        s.merged_with(stored) == Ok::<StateView, Seq<char>>(t),
        s.valid(),
        stored.valid(),
    ensures
        t.runs.len() >= stored.runs.len(),
        forall|i: int|
            0 <= i < stored.runs.len() && (forall|j: int|
                0 <= j < s.runs.len() ==> (#[trigger] s.runs[j]).id != stored.runs[i].id)
                ==> #[trigger] t.runs[i] == stored.runs[i],
        forall|i: int, j: int|
            0 <= i < stored.runs.len() && 0 <= j < s.runs.len() && (#[trigger] stored.runs[i]).id
                == (#[trigger] s.runs[j]).id ==> t.runs[i] == if s.runs[j].descends_from(
                stored.runs[i],
            ) {
                s.runs[j]
            } else {
                stored.runs[i]
            },
        t.runs.skip(stored.runs.len() as int) == s.runs.filter(
            |c: RunView|
                forall|i: int|
                    0 <= i < stored.runs.len() ==> (#[trigger] stored.runs[i]).id != c.id,
        ),
{
    let c = lemma_merge_stages(s, stored, t);
    lemma_merged_runs_are(stored.runs, s.runs, t.runs);
    assert forall|i: int|
        0 <= i < stored.runs.len() && (forall|j: int|
            0 <= j < s.runs.len() ==> (#[trigger] s.runs[j]).id
                != stored.runs[i].id) implies #[trigger] t.runs[i] == stored.runs[i] by {
        if t.runs[i] != stored.runs[i] {
            let j = s.runs.index_of(t.runs[i]);
            assert(s.runs[j].id == stored.runs[i].id);
        }
    }
}

// ---------------------------------------------------------------- queue

/// A message is taken exactly where a run input holds one under its event id.
pub proof fn lemma_claimed(s: StateView, event_id: Seq<char>)
    ensures
        match s.claimed_message(event_id) {
            Some(q) => exists|k: int, j: int|
                0 <= k < s.run_inputs.len() && 0 <= j < s.run_inputs[k].messages.len() && (
                #[trigger] s.run_inputs[k].messages[j]).event_id == event_id
                    && s.run_inputs[k].messages[j] == q,
            None => forall|k: int, j: int|
                0 <= k < s.run_inputs.len() && 0 <= j < s.run_inputs[k].messages.len() ==> (
                #[trigger] s.run_inputs[k].messages[j]).event_id != event_id,
        },
{
    let taken = claims(s.run_inputs);
    lemma_find_key(taken, event_id);
    match find_key(taken, event_id) {
        Some(n) => {
            let (k, j) = lemma_claim_origin(s.run_inputs, n);
            assert(s.run_inputs[k].messages[j].event_id == event_id);
        },
        None => {
            assert forall|k: int, j: int|
                0 <= k < s.run_inputs.len() && 0 <= j < s.run_inputs[k].messages.len() implies (
            #[trigger] s.run_inputs[k].messages[j]).event_id != event_id by {
                lemma_claims_before(s.run_inputs, k, j);
                let n = claims(s.run_inputs.take(k)).len() + j;
                assert(taken[n as int].key() != event_id);
            }
        },
    }
}

/// The kept part of a queue are the entries that no run has taken.
proof fn lemma_kept(s: StateView, queue: Seq<QueuedView>)
    ensures
        s.still_queued(queue) == queue.filter(
            |m: QueuedView|
                forall|k: int, j: int|
                    0 <= k < s.run_inputs.len() && 0 <= j < s.run_inputs[k].messages.len() ==> (
                    #[trigger] s.run_inputs[k].messages[j]).event_id != m.event_id,
        ),
    decreases queue.len(),
{
    reveal(Seq::filter);
    let free = |m: QueuedView|
        forall|k: int, j: int|
            0 <= k < s.run_inputs.len() && 0 <= j < s.run_inputs[k].messages.len() ==> (
            #[trigger] s.run_inputs[k].messages[j]).event_id != m.event_id;
    if queue.len() == 0 {
        assert(s.still_queued(queue) =~= queue.filter(free));
    } else {
        lemma_kept(s, queue.drop_last());
        lemma_claimed(s, queue.last().event_id);
        assert(free(queue.last()) <==> s.claimed_message(queue.last().event_id) is None);
    }
}

/// An extended queue is its front part, followed by the candidates that are
/// neither taken nor stored, each behind the last message of its session.
proof fn lemma_added(
    s: StateView,
    stored: StateView,
    front: Seq<QueuedView>,
    candidates: Seq<QueuedView>,
)
    ensures
        ({
            let queue = s.queue_extended(stored, front, candidates);
            let added = candidates.filter(
                |m: QueuedView|
                    (forall|k: int, j: int|
                        0 <= k < s.run_inputs.len() && 0 <= j < s.run_inputs[k].messages.len() ==> (
                        #[trigger] s.run_inputs[k].messages[j]).event_id != m.event_id) && (forall|
                        i: int,
                    |
                        0 <= i < stored.queued_messages.len() ==> (
                        #[trigger] stored.queued_messages[i]).event_id != m.event_id),
            );
            let n = front.len() as int;
            &&& queue.len() == n + added.len()
            &&& queue.take(n) == front
            &&& forall|a: int|
                0 <= a < added.len() ==> #[trigger] queue[n + a] == behind_tail(
                    claims(s.run_inputs),
                    queue.take(n + a),
                    added[a],
                )
        }),
    decreases candidates.len(),
{
    reveal(Seq::filter);
    let new = |m: QueuedView|
        (forall|k: int, j: int|
            0 <= k < s.run_inputs.len() && 0 <= j < s.run_inputs[k].messages.len() ==> (
            #[trigger] s.run_inputs[k].messages[j]).event_id != m.event_id) && (forall|i: int|
            0 <= i < stored.queued_messages.len() ==> (
            #[trigger] stored.queued_messages[i]).event_id != m.event_id);
    let n = front.len() as int;
    if candidates.len() == 0 {
        assert(front.take(n) =~= front);
    } else {
        let rest = candidates.drop_last();
        let queued = candidates.last();
        lemma_added(s, stored, front, rest);
        let before = s.queue_extended(stored, front, rest);
        let queue = s.queue_extended(stored, front, candidates);
        let added_before = rest.filter(new);
        let added = candidates.filter(new);
        lemma_claimed(s, queued.event_id);
        lemma_find_key(stored.queued_messages, queued.event_id);
        if has_key(stored.queued_messages, queued.event_id) {
            let i = find_key(stored.queued_messages, queued.event_id)->Some_0;
            assert(stored.queued_messages[i].event_id == queued.event_id);
        } else {
            assert forall|i: int| 0 <= i < stored.queued_messages.len() implies (
            #[trigger] stored.queued_messages[i]).event_id != queued.event_id by {
                assert(stored.queued_messages[i].key() != queued.event_id);
            }
        }
        assert(new(queued) <==> s.claimed_message(queued.event_id) is None && !has_key(
            stored.queued_messages,
            queued.event_id,
        ));
        if new(queued) {
            assert(queue.take(n) =~= before.take(n));
            assert forall|a: int| 0 <= a < added.len() implies #[trigger] queue[n + a]
                == behind_tail(claims(s.run_inputs), queue.take(n + a), added[a]) by {
                assert(queue.take(n + a) =~= before.take(n + a));
                if a < added_before.len() {
                    assert(queue[n + a] == before[n + a]);
                    assert(added[a] == added_before[a]);
                } else {
                    assert(before.take(n + a) =~= before);
                }
            }
        }
    }
}

/// The queue time that comes last for a session, in terms of the entries.
proof fn lemma_last_queued(queue: Seq<QueuedView>, session_id: Seq<char>)
    ensures
        match last_queued(queue, session_id) {
            Some(t) => exists|p: int|
                {
                    &&& 0 <= p < queue.len()
                    &&& (#[trigger] queue[p]).session_id == session_id
                    &&& queue[p].enqueued_at_unix == t
                    &&& forall|q: int|
                        p < q < queue.len() ==> (#[trigger] queue[q]).session_id != session_id
                },
            None => forall|q: int|
                0 <= q < queue.len() ==> (#[trigger] queue[q]).session_id != session_id,
        },
    decreases queue.len(),
{
    if queue.len() > 0 {
        let front = queue.drop_last();
        assert(forall|q: int| 0 <= q < front.len() ==> #[trigger] queue[q] == front[q]);
        if queue.last().session_id == session_id {
            assert(queue[queue.len() - 1].session_id == session_id);
        } else {
            lemma_last_queued(front, session_id);
            if let Some(t) = last_queued(front, session_id) {
                let p = choose|p: int|
                    {
                        &&& 0 <= p < front.len()
                        &&& (#[trigger] front[p]).session_id == session_id
                        &&& front[p].enqueued_at_unix == t
                        &&& forall|q: int|
                            p < q < front.len() ==> (#[trigger] front[q]).session_id != session_id
                    };
                assert(queue[p].session_id == session_id);
            }
        }
    }
}

/// The queue time that was taken last for a session, in terms of the inputs.
proof fn lemma_last_claimed(inputs: Seq<RunInputView>, session_id: Seq<char>)
    ensures
        match last_claimed(claims(inputs), session_id) {
            Some(t) => exists|k: int|
                {
                    &&& 0 <= k < inputs.len()
                    &&& (#[trigger] inputs[k]).session_id == session_id
                    &&& inputs[k].messages.len() > 0
                    &&& inputs[k].messages.last().enqueued_at_unix == t
                    &&& forall|l: int|
                        k < l < inputs.len() ==> (#[trigger] inputs[l]).session_id != session_id
                            || inputs[l].messages.len() == 0
                },
            None => forall|l: int|
                0 <= l < inputs.len() ==> (#[trigger] inputs[l]).session_id != session_id
                    || inputs[l].messages.len() == 0,
        },
    decreases inputs.len(),
{
    if inputs.len() > 0 {
        let front = inputs.drop_last();
        let input = inputs.last();
        lemma_last_claimed(front, session_id);
        assert(forall|l: int| 0 <= l < front.len() ==> #[trigger] inputs[l] == front[l]);
        assert(inputs[inputs.len() - 1] == input);
        if input.session_id == session_id && input.messages.len() > 0 {
            let all = claims(inputs);
            assert(all.last() == (ClaimedView {
                session_id: input.session_id,
                message: input.messages.last(),
            }));
        } else {
            lemma_last_claimed_skips(claims(front), claims_of(input), session_id);
            if let Some(t) = last_claimed(claims(front), session_id) {
                let k = choose|k: int|
                    {
                        &&& 0 <= k < front.len()
                        &&& (#[trigger] front[k]).session_id == session_id
                        &&& front[k].messages.len() > 0
                        &&& front[k].messages.last().enqueued_at_unix == t
                        &&& forall|l: int|
                            k < l < front.len() ==> (#[trigger] front[l]).session_id != session_id
                                || front[l].messages.len() == 0
                    };
                assert(inputs[k].session_id == session_id);
            }
        }
    }
}

/// Messages of other sessions at the end do not count for a session.
proof fn lemma_last_claimed_skips(
    front: Seq<ClaimedView>,
    others: Seq<ClaimedView>,
    session_id: Seq<char>,
)
    requires
        forall|i: int|
            0 <= i < others.len() ==> (#[trigger] others[i]).session_id != session_id,
    ensures
        last_claimed(front + others, session_id) == last_claimed(front, session_id),
    decreases others.len(),
{
    if others.len() == 0 {
        assert(front + others =~= front);
    } else {
        assert((front + others).drop_last() =~= front + others.drop_last());
        assert((front + others).last() == others[others.len() - 1]);
        lemma_last_claimed_skips(front, others.drop_last(), session_id);
    }
}

/// The queue of a merged state are the stored entries whose message no run input
/// of the merged state holds, in their order and unchanged, followed by the
/// entries of the snapshot whose message is neither held there nor in the stored
/// queue, in their order, each with its event id, session, message and receive
/// time. Nothing else is queued.
pub proof fn law_merged_queue(s: StateView, stored: StateView, t: StateView)
    requires
        s.merged_with(stored) == Ok::<StateView, Seq<char>>(t),
    ensures
        ({
            let kept = stored.queued_messages.filter(
                |m: QueuedView|
                    forall|k: int, j: int|
                        0 <= k < t.run_inputs.len() && 0 <= j < t.run_inputs[k].messages.len() ==> (
                        #[trigger] t.run_inputs[k].messages[j]).event_id != m.event_id,
            );
            let added = s.queued_messages.filter(
                |m: QueuedView|
                    (forall|k: int, j: int|
                        0 <= k < t.run_inputs.len() && 0 <= j < t.run_inputs[k].messages.len() ==> (
                        #[trigger] t.run_inputs[k].messages[j]).event_id != m.event_id) && (forall|
                        i: int,
                    |
                        0 <= i < stored.queued_messages.len() ==> (
                        #[trigger] stored.queued_messages[i]).event_id != m.event_id),
            );
            let n = kept.len() as int;
            &&& t.queued_messages.len() == n + added.len()
            &&& t.queued_messages.take(n) == kept
            &&& forall|a: int|
                0 <= a < added.len() ==> {
                    &&& (#[trigger] t.queued_messages[n + a]).event_id == added[a].event_id
                    &&& t.queued_messages[n + a].session_id == added[a].session_id
                    &&& t.queued_messages[n + a].message == added[a].message
                    &&& t.queued_messages[n + a].received_at_unix == added[a].received_at_unix
                    &&& t.queued_messages[n + a].enqueued_at_unix >= added[a].enqueued_at_unix
                }
        }),
{
    let c = lemma_merge_stages(s, stored, t);
    lemma_kept(c, stored.queued_messages);
    lemma_added(c, stored, c.still_queued(stored.queued_messages), s.queued_messages);
}

/// A candidate keeps its queue time, unless the last message of its session was
/// queued later.
proof fn lemma_behind_tail(
    inputs: Seq<RunInputView>,
    before: Seq<QueuedView>,
    candidate: QueuedView,
)
    ensures
        ({
            let entry = behind_tail(claims(inputs), before, candidate);
            let own = candidate.enqueued_at_unix;
            let session_id = candidate.session_id;
            &&& forall|q: int|
                0 <= q < before.len() && (#[trigger] before[q]).session_id == session_id && (
                forall|r: int|
                    q < r < before.len() ==> (#[trigger] before[r]).session_id != session_id)
                    ==> entry.enqueued_at_unix == if own <= before[q].enqueued_at_unix {
                    before[q].enqueued_at_unix
                } else {
                    own
                }
            &&& (forall|q: int|
                0 <= q < before.len() ==> (#[trigger] before[q]).session_id != session_id) ==> {
                &&& forall|k: int|
                    0 <= k < inputs.len() && (#[trigger] inputs[k]).session_id == session_id
                        && inputs[k].messages.len() > 0 && (forall|l: int|
                        k < l < inputs.len() ==> (#[trigger] inputs[l]).session_id != session_id
                            || inputs[l].messages.len() == 0) ==> entry.enqueued_at_unix == if own
                        <= inputs[k].messages.last().enqueued_at_unix {
                        inputs[k].messages.last().enqueued_at_unix
                    } else {
                        own
                    }
                &&& (forall|k: int|
                    0 <= k < inputs.len() ==> (#[trigger] inputs[k]).session_id != session_id
                        || inputs[k].messages.len() == 0) ==> entry.enqueued_at_unix == own
            }
        }),
{
    lemma_last_queued(before, candidate.session_id);
    lemma_last_claimed(inputs, candidate.session_id);
}

/// An entry that a merge takes over from the snapshot keeps the time at which it
/// was queued, unless the last message of its session before it, in the merged
/// queue or, where there is none, in the run inputs, was queued later: then it
/// takes over that time.
pub proof fn law_merged_entries_follow_their_session(
    s: StateView,
    stored: StateView,
    t: StateView,
    a: int,
)
    requires
        s.merged_with(stored) == Ok::<StateView, Seq<char>>(t),
        0 <= a < s.queued_messages.filter(
            |m: QueuedView|
                (forall|k: int, j: int|
                    0 <= k < t.run_inputs.len() && 0 <= j < t.run_inputs[k].messages.len() ==> (
                    #[trigger] t.run_inputs[k].messages[j]).event_id != m.event_id) && (forall|
                    i: int,
                |
                    0 <= i < stored.queued_messages.len() ==> (
                    #[trigger] stored.queued_messages[i]).event_id != m.event_id),
        ).len(),
    ensures
        ({
            let added = s.queued_messages.filter(
                |m: QueuedView|
                    (forall|k: int, j: int|
                        0 <= k < t.run_inputs.len() && 0 <= j < t.run_inputs[k].messages.len() ==> (
                        #[trigger] t.run_inputs[k].messages[j]).event_id != m.event_id) && (forall|
                        i: int,
                    |
                        0 <= i < stored.queued_messages.len() ==> (
                        #[trigger] stored.queued_messages[i]).event_id != m.event_id),
            );
            let p = t.queued_messages.len() - added.len() + a;
            let entry = t.queued_messages[p];
            let own = added[a].enqueued_at_unix;
            &&& forall|q: int|
                0 <= q < p && (#[trigger] t.queued_messages[q]).session_id == entry.session_id && (
                forall|r: int|
                    q < r < p ==> (#[trigger] t.queued_messages[r]).session_id != entry.session_id)
                    ==> entry.enqueued_at_unix == if own <= t.queued_messages[q].enqueued_at_unix {
                    t.queued_messages[q].enqueued_at_unix
                } else {
                    own
                }
            &&& (forall|q: int|
                0 <= q < p ==> (#[trigger] t.queued_messages[q]).session_id != entry.session_id)
                ==> {
                &&& forall|k: int|
                    0 <= k < t.run_inputs.len() && (#[trigger] t.run_inputs[k]).session_id
                        == entry.session_id && t.run_inputs[k].messages.len() > 0 && (forall|l: int|
                        k < l < t.run_inputs.len() ==> (#[trigger] t.run_inputs[l]).session_id
                            != entry.session_id || t.run_inputs[l].messages.len() == 0)
                        ==> entry.enqueued_at_unix == if own
                        <= t.run_inputs[k].messages.last().enqueued_at_unix {
                        t.run_inputs[k].messages.last().enqueued_at_unix
                    } else {
                        own
                    }
                &&& (forall|k: int|
                    0 <= k < t.run_inputs.len() ==> (#[trigger] t.run_inputs[k]).session_id
                        != entry.session_id || t.run_inputs[k].messages.len() == 0)
                    ==> entry.enqueued_at_unix == own
            }
        }),
{
    let c = lemma_merge_stages(s, stored, t);
    let front = c.still_queued(stored.queued_messages);
    lemma_added(c, stored, front, s.queued_messages);
    let new = |m: QueuedView|
        (forall|k: int, j: int|
            0 <= k < t.run_inputs.len() && 0 <= j < t.run_inputs[k].messages.len() ==> (
            #[trigger] t.run_inputs[k].messages[j]).event_id != m.event_id) && (forall|i: int|
            0 <= i < stored.queued_messages.len() ==> (
            #[trigger] stored.queued_messages[i]).event_id != m.event_id);
    let added = s.queued_messages.filter(new);
    let n = front.len() as int;
    let before = t.queued_messages.take(n + a);
    let entry = t.queued_messages[n + a];
    assert(entry == behind_tail(claims(t.run_inputs), before, added[a]));
    assert(entry.session_id == added[a].session_id);
    lemma_behind_tail(t.run_inputs, before, added[a]);
    lemma_front_of(t.queued_messages, n + a);
}

/// A front part of a queue has the same entries at the same places.
proof fn lemma_front_of(queue: Seq<QueuedView>, p: int)
    requires
        0 <= p <= queue.len(),
    ensures
        queue.take(p).len() == p,
        forall|q: int| 0 <= q < p ==> queue.take(p)[q] == #[trigger] queue[q],
        forall|q: int| 0 <= q < p ==> #[trigger] queue.take(p)[q] == queue[q],
{
}

/// Every message that is queued in a snapshot is in the merged state: in the queue
/// under its event id, with the same session, message and receive time, and queued
/// no earlier unless that very entry was stored with another time; or, with the
/// same session, message and receive time, in the input of a run.
pub proof fn law_merge_keeps_every_queued_message(
    s: StateView,
    stored: StateView,
    t: StateView,
    i: int,
)
    requires
        s.merged_with(stored) == Ok::<StateView, Seq<char>>(t),
        0 <= i < s.queued_messages.len(),
    ensures
        ({
            let m = s.queued_messages[i];
            ||| exists|p: int|
                {
                    &&& 0 <= p < t.queued_messages.len()
                    &&& (#[trigger] t.queued_messages[p]).event_id == m.event_id
                    &&& t.queued_messages[p].session_id == m.session_id
                    &&& t.queued_messages[p].message == m.message
                    &&& t.queued_messages[p].received_at_unix == m.received_at_unix
                    &&& t.queued_messages[p].enqueued_at_unix >= m.enqueued_at_unix
                        || stored.queued_messages.contains(t.queued_messages[p])
                }
            ||| exists|k: int, j: int|
                {
                    &&& 0 <= k < t.run_inputs.len()
                    &&& 0 <= j < t.run_inputs[k].messages.len()
                    &&& (#[trigger] t.run_inputs[k].messages[j]).event_id == m.event_id
                    &&& t.run_inputs[k].messages[j].session_id == m.session_id
                    &&& t.run_inputs[k].messages[j].message == m.message
                    &&& t.run_inputs[k].messages[j].received_at_unix == m.received_at_unix
                }
        }),
{
    let c = lemma_merge_stages(s, stored, t);
    let m = s.queued_messages[i];
    let fault_at = |i: int| c.queued_conflict(stored, c.queued_messages[i]);
    lemma_no_fault(c.queued_messages.len(), fault_at);
    assert(fault_at(i) is None);
    lemma_claimed(c, m.event_id);
    match c.claimed_message(m.event_id) {
        Some(q) => {
            assert(q.same_identity(m));
            let (k, j) = choose|k: int, j: int|
                0 <= k < t.run_inputs.len() && 0 <= j < t.run_inputs[k].messages.len() && (
                #[trigger] t.run_inputs[k].messages[j]).event_id == m.event_id
                    && t.run_inputs[k].messages[j] == q;
            assert(t.run_inputs[k].messages[j].event_id == m.event_id);
        },
        None => {
            law_merged_queue(s, stored, t);
            let free = |m: QueuedView|
                forall|k: int, j: int|
                    0 <= k < t.run_inputs.len() && 0 <= j < t.run_inputs[k].messages.len() ==> (
                    #[trigger] t.run_inputs[k].messages[j]).event_id != m.event_id;
            let new = |m: QueuedView|
                (forall|k: int, j: int|
                    0 <= k < t.run_inputs.len() && 0 <= j < t.run_inputs[k].messages.len() ==> (
                    #[trigger] t.run_inputs[k].messages[j]).event_id != m.event_id) && (forall|
                    i: int,
                |
                    0 <= i < stored.queued_messages.len() ==> (
                    #[trigger] stored.queued_messages[i]).event_id != m.event_id);
            let kept = stored.queued_messages.filter(free);
            let added = s.queued_messages.filter(new);
            let n = kept.len() as int;
            lemma_find_key(stored.queued_messages, m.event_id);
            match find_key(stored.queued_messages, m.event_id) {
                Some(p) => {
                    let other = stored.queued_messages[p];
                    assert(other.same_identity(m));
                    assert(free(other));
                    stored.queued_messages.lemma_filter_contains(free, p);
                    let a = kept.index_of(other);
                    assert(t.queued_messages.take(n)[a] == t.queued_messages[a]);
                    assert(t.queued_messages[a].event_id == m.event_id);
                },
                None => {
                    assert forall|p: int| 0 <= p < stored.queued_messages.len() implies (
                    #[trigger] stored.queued_messages[p]).event_id != m.event_id by {
                        assert(stored.queued_messages[p].key() != m.event_id);
                    }
                    assert(new(m));
                    s.queued_messages.lemma_filter_contains(new, i);
                    let a = added.index_of(m);
                    assert(t.queued_messages[n + a].event_id == m.event_id);
                },
            }
        },
    }
}

// ------------------------------------------------------- single parts

/// Keeping the stored ledger, run inputs or deliveries puts them in front of what is
/// not stored, and changes nothing else but the time of the last update.
pub proof fn law_preserving_lists(s: StateView, stored: StateView)
    ensures
        s.events_preserved(stored) matches Ok(t) ==> {
            &&& t.inbound_events == stored.inbound_events + s.inbound_events.filter(
                |c: crate::event::EventRecordView|
                    forall|i: int|
                        0 <= i < stored.inbound_events.len() ==> (
                        #[trigger] stored.inbound_events[i]).id != c.id,
            )
            &&& t == (StateView {
                inbound_events: t.inbound_events,
                updated_at_unix: t.updated_at_unix,
                ..s
            })
            &&& s.updated_at_unix <= t.updated_at_unix
        },
        s.run_inputs_preserved(stored) matches Ok(t) ==> {
            &&& t.run_inputs == stored.run_inputs + s.run_inputs.filter(
                |c: RunInputView|
                    forall|i: int|
                        0 <= i < stored.run_inputs.len() ==> (
                        #[trigger] stored.run_inputs[i]).run_id != c.run_id,
            )
            &&& t == (StateView {
                run_inputs: t.run_inputs,
                updated_at_unix: t.updated_at_unix,
                ..s
            })
            &&& s.updated_at_unix <= t.updated_at_unix
        },
        s.deliveries_preserved(stored) matches Ok(t) ==> {
            &&& t.outbound_deliveries == stored.outbound_deliveries + s.outbound_deliveries.filter(
                |c: crate::outbox::DeliveryView|
                    forall|i: int|
                        0 <= i < stored.outbound_deliveries.len() ==> (
                        #[trigger] stored.outbound_deliveries[i]).id != c.id,
            )
            &&& t == (StateView {
                outbound_deliveries: t.outbound_deliveries,
                updated_at_unix: t.updated_at_unix,
                ..s
            })
            &&& s.updated_at_unix <= t.updated_at_unix
        },
{
    lemma_merged_is(stored.inbound_events, s.inbound_events);
    lemma_merged_is(stored.run_inputs, s.run_inputs);
    lemma_merged_is(stored.outbound_deliveries, s.outbound_deliveries);
    lemma_same_filter(
        s.inbound_events,
        |c: crate::event::EventRecordView|
            forall|i: int|
                0 <= i < stored.inbound_events.len() ==> (#[trigger] stored.inbound_events[i]).key()
                    != c.key(),
        |c: crate::event::EventRecordView|
            forall|i: int|
                0 <= i < stored.inbound_events.len() ==> (#[trigger] stored.inbound_events[i]).id
                    != c.id,
    );
    lemma_same_filter(
        s.run_inputs,
        |c: RunInputView|
            forall|i: int|
                0 <= i < stored.run_inputs.len() ==> (#[trigger] stored.run_inputs[i]).key()
                    != c.key(),
        |c: RunInputView|
            forall|i: int|
                0 <= i < stored.run_inputs.len() ==> (#[trigger] stored.run_inputs[i]).run_id
                    != c.run_id,
    );
    lemma_same_filter(
        s.outbound_deliveries,
        |c: crate::outbox::DeliveryView|
            forall|i: int|
                0 <= i < stored.outbound_deliveries.len() ==> (
                #[trigger] stored.outbound_deliveries[i]).key() != c.key(),
        |c: crate::outbox::DeliveryView|
            forall|i: int|
                0 <= i < stored.outbound_deliveries.len() ==> (
                #[trigger] stored.outbound_deliveries[i]).id != c.id,
    );
}

/// Keeping the stored runs puts them, each at the later of its stages, in front of what
/// is not stored, and changes nothing else but the time of the last update.
pub proof fn law_preserving_runs(s: StateView, stored: StateView)
    requires
        distinct_keys(s.runs),
        distinct_keys(stored.runs),
    ensures
        s.runs_preserved(stored) matches Ok(t) ==> {
            &&& t.runs.len() >= stored.runs.len()
            &&& forall|i: int|
                0 <= i < stored.runs.len() ==> (#[trigger] t.runs[i]).id == stored.runs[i].id && (
                t.runs[i] == stored.runs[i] || s.runs.contains(t.runs[i]))
            &&& forall|i: int, j: int|
                0 <= i < stored.runs.len() && 0 <= j < s.runs.len() && (
                #[trigger] stored.runs[i]).id == (#[trigger] s.runs[j]).id ==> t.runs[i]
                    == if s.runs[j].descends_from(stored.runs[i]) {
                    s.runs[j]
                } else {
                    stored.runs[i]
                }
            &&& t.runs.skip(stored.runs.len() as int) == s.runs.filter(
                |c: RunView|
                    forall|i: int|
                        0 <= i < stored.runs.len() ==> (#[trigger] stored.runs[i]).id != c.id,
            )
            &&& t == (StateView { runs: t.runs, updated_at_unix: t.updated_at_unix, ..s })
            &&& s.updated_at_unix <= t.updated_at_unix
        },
{
    if let Ok(t) = s.runs_preserved(stored) {
        lemma_merged_runs_are(stored.runs, s.runs, t.runs);
    }
}

/// Keeping the stored queue puts the stored entries that no run has taken in front of
/// those that are neither taken nor stored, and changes nothing else but the time of the
/// last update.
pub proof fn law_preserving_the_queue(s: StateView, stored: StateView, t: StateView)
    requires
        s.queue_preserved(stored) == Ok::<StateView, Seq<char>>(t),
    ensures
        ({
            let kept = stored.queued_messages.filter(
                |m: QueuedView|
                    forall|k: int, j: int|
                        0 <= k < s.run_inputs.len() && 0 <= j < s.run_inputs[k].messages.len() ==> (
                        #[trigger] s.run_inputs[k].messages[j]).event_id != m.event_id,
            );
            let added = s.queued_messages.filter(
                |m: QueuedView|
                    (forall|k: int, j: int|
                        0 <= k < s.run_inputs.len() && 0 <= j < s.run_inputs[k].messages.len() ==> (
                        #[trigger] s.run_inputs[k].messages[j]).event_id != m.event_id) && (forall|
                        i: int,
                    |
                        0 <= i < stored.queued_messages.len() ==> (
                        #[trigger] stored.queued_messages[i]).event_id != m.event_id),
            );
            let n = kept.len() as int;
            &&& t.queued_messages.len() == n + added.len()
            &&& t.queued_messages.take(n) == kept
            &&& forall|a: int|
                0 <= a < added.len() ==> {
                    &&& (#[trigger] t.queued_messages[n + a]).event_id == added[a].event_id
                    &&& t.queued_messages[n + a].session_id == added[a].session_id
                    &&& t.queued_messages[n + a].message == added[a].message
                    &&& t.queued_messages[n + a].received_at_unix == added[a].received_at_unix
                    &&& t.queued_messages[n + a].enqueued_at_unix >= added[a].enqueued_at_unix
                }
        }),
        t == (StateView {
            queued_messages: t.queued_messages,
            updated_at_unix: t.updated_at_unix,
            ..s
        }),
        s.updated_at_unix <= t.updated_at_unix,
{
    lemma_kept(s, stored.queued_messages);
    lemma_added(s, stored, s.still_queued(stored.queued_messages), s.queued_messages);
}

} // verus!

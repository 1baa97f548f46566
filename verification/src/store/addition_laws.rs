//! A state that only adds to what is stored is written as it is.
use vstd::prelude::*;

use super::merge_laws::{lemma_merged_extension, lemma_merged_runs_same};
use crate::fault::lemma_no_fault;
use crate::keyed::{
    distinct_keys, find_key, has_key, lemma_find_key, lemma_find_key_is, lookup, Keyed,
};
use crate::queue::QueuedView;
use crate::state::merge::{behind_tail, last_claimed, last_queued};
use crate::state::persisted::lemma_no_later;
use crate::state::view::{claims, ClaimedView, StateView};

verus! {

/// `next` has all that `stored` has, in front, and new events, messages of new
/// events, and deliveries behind it.
pub open spec fn adds_to(next: StateView, stored: StateView) -> bool {
    &&& next.runs == stored.runs
    &&& next.run_inputs == stored.run_inputs
    &&& stored.inbound_events.is_prefix_of(next.inbound_events)
    &&& stored.queued_messages.is_prefix_of(next.queued_messages)
    &&& stored.outbound_deliveries.is_prefix_of(next.outbound_deliveries)
    &&& forall|j: int|
        stored.queued_messages.len() <= j < next.queued_messages.len() ==> !has_key(
            stored.inbound_events,
            (#[trigger] next.queued_messages[j]).event_id,
        )
}

/// What is queued has not been taken.
proof fn lemma_queued_is_not_claimed(s: StateView, i: int)
    requires
        s.valid(),
        0 <= i < s.queued_messages.len(),
    ensures
        s.claimed_message(s.queued_messages[i].event_id) is None,
{
    broadcast use lemma_find_key;

    let taken = claims(s.run_inputs);
    let id = s.queued_messages[i].event_id;
    if let Some(k) = find_key(taken, id) {
        assert(!has_key(s.queued_messages, taken[k].message.event_id));
        assert(s.queued_messages[i].key() == id);
    }
}

/// The queue of a valid state has no event twice.
proof fn lemma_queue_is_distinct(s: StateView)
    requires
        s.valid(),
    ensures
        distinct_keys(s.queued_messages),
{
    assert forall|i: int, j: int| 0 <= i < j < s.queued_messages.len() implies (
    #[trigger] s.queued_messages[i]).key() != (#[trigger] s.queued_messages[j]).key() by {
        assert(s.position(s.queued_messages[i].event_id) < s.position(
            s.queued_messages[j].event_id,
        ));
    }
}

proof fn lemma_no_shared_conflict(next: StateView, stored: StateView)
    requires
        next.valid(),
        adds_to(next, stored),
    ensures
        next.shared_events_fault(stored) is None,
{
    broadcast use lemma_find_key;

    let fault_at = |i: int| next.shared_event_fault(stored, i);
    assert forall|i: int| 0 <= i < next.inbound_events.len() implies (
    #[trigger] fault_at(i)) is None by {
        let event = next.inbound_events[i];
        if let Some(k) = find_key(stored.inbound_events, event.id) {
            assert(stored.inbound_events[k] == next.inbound_events[k]);
            assert(k == i);
            assert(lookup(next.queued_messages, event.id) == lookup(
                stored.queued_messages,
                event.id,
            )) by {
                match find_key(stored.queued_messages, event.id) {
                    Some(q) => {
                        assert(forall|j: int|
                            0 <= j <= q ==> #[trigger] next.queued_messages[j]
                                == stored.queued_messages[j]);
                        lemma_find_key_is(next.queued_messages, event.id, q);
                    },
                    None => {
                        if let Some(q) = find_key(next.queued_messages, event.id) {
                            if q < stored.queued_messages.len() {
                                assert(next.queued_messages[q] == stored.queued_messages[q]);
                            } else {
                                assert(!has_key(
                                    stored.inbound_events,
                                    next.queued_messages[q].event_id,
                                ));
                            }
                        }
                    },
                }
            }
        }
    }
    lemma_no_fault(next.inbound_events.len(), fault_at);
}

proof fn lemma_still_queued_whole(next: StateView, queue: Seq<QueuedView>)
    requires
        forall|i: int|
            0 <= i < queue.len() ==> next.claimed_message((#[trigger] queue[i]).event_id) is None,
    ensures
        next.still_queued(queue) == queue,
    decreases queue.len(),
{
    if queue.len() > 0 {
        let front = queue.drop_last();
        assert(forall|i: int| 0 <= i < front.len() ==> #[trigger] front[i] == queue[i]);
        lemma_still_queued_whole(next, front);
        assert(next.claimed_message(queue[queue.len() - 1].event_id) is None);
        assert(front.push(queue.last()) =~= queue);
    } else {
        assert(queue =~= Seq::empty());
    }
}

proof fn lemma_last_queued(queue: Seq<QueuedView>, session_id: Seq<char>)
    ensures
        last_queued(queue, session_id) matches Some(t) ==> exists|i: int|
            0 <= i < queue.len() && (#[trigger] queue[i]).session_id == session_id
                && queue[i].enqueued_at_unix == t,
    decreases queue.len(),
{
    if queue.len() > 0 {
        let front = queue.drop_last();
        lemma_last_queued(front, session_id);
        if queue.last().session_id == session_id {
            assert(queue[queue.len() - 1].session_id == session_id);
        } else if let Some(t) = last_queued(front, session_id) {
            let i = choose|i: int|
                0 <= i < front.len() && (#[trigger] front[i]).session_id == session_id
                    && front[i].enqueued_at_unix == t;
            assert(queue[i] == front[i]);
        }
    }
}

proof fn lemma_last_claimed(taken: Seq<ClaimedView>, session_id: Seq<char>)
    ensures
        last_claimed(taken, session_id) matches Some(t) ==> exists|i: int|
            0 <= i < taken.len() && (#[trigger] taken[i]).session_id == session_id
                && taken[i].message.enqueued_at_unix == t,
    decreases taken.len(),
{
    if taken.len() > 0 {
        let front = taken.drop_last();
        lemma_last_claimed(front, session_id);
        if taken.last().session_id == session_id {
            assert(taken[taken.len() - 1].session_id == session_id);
        } else if let Some(t) = last_claimed(front, session_id) {
            let i = choose|i: int|
                0 <= i < front.len() && (#[trigger] front[i]).session_id == session_id
                    && front[i].message.enqueued_at_unix == t;
            assert(taken[i] == front[i]);
        }
    }
}

/// A queue entry of a valid state stands behind the tail of its session already.
proof fn lemma_behind_tail_already(next: StateView, n: int)
    requires
        next.valid(),
        0 <= n < next.queued_messages.len(),
    ensures
        behind_tail(
            claims(next.run_inputs),
            next.queued_messages.take(n),
            next.queued_messages[n],
        ) == next.queued_messages[n],
{
    let queue = next.queued_messages;
    let front = queue.take(n);
    let taken = claims(next.run_inputs);
    let session_id = queue[n].session_id;
    lemma_last_queued(front, session_id);
    lemma_last_claimed(taken, session_id);
    if let Some(t) = last_queued(front, session_id) {
        let i = choose|i: int|
            0 <= i < front.len() && (#[trigger] front[i]).session_id == session_id
                && front[i].enqueued_at_unix == t;
        assert(queue[i] == front[i]);
        assert(queue[i].enqueued_at_unix <= queue[n].enqueued_at_unix);
    } else if let Some(t) = last_claimed(taken, session_id) {
        let i = choose|i: int|
            0 <= i < taken.len() && (#[trigger] taken[i]).session_id == session_id
                && taken[i].message.enqueued_at_unix == t;
        assert(taken[i].session_id == queue[n].session_id);
    }
}

proof fn lemma_queue_extended_by_additions(next: StateView, stored: StateView, n: int)
    requires
        next.valid(),
        adds_to(next, stored),
        0 <= n <= next.queued_messages.len(),
    ensures
        next.queue_extended(
            stored,
            stored.queued_messages,
            next.queued_messages.take(n),
        ) == (if n <= stored.queued_messages.len() {
            stored.queued_messages
        } else {
            next.queued_messages.take(n)
        }),
    decreases n,
{
    broadcast use lemma_find_key;

    let queue = next.queued_messages;
    let old_queue = stored.queued_messages;
    if n > 0 {
        lemma_queue_extended_by_additions(next, stored, n - 1);
        assert(queue.take(n).drop_last() =~= queue.take(n - 1));
        assert(queue.take(n).last() == queue[n - 1]);
        lemma_queued_is_not_claimed(next, n - 1);
        if n <= old_queue.len() {
            assert(old_queue[n - 1] == queue[n - 1]);
            assert(old_queue[n - 1].key() == queue[n - 1].event_id);
            assert(has_key(old_queue, queue[n - 1].event_id));
        } else {
            lemma_queue_is_distinct(next);
            if let Some(k) = find_key(old_queue, queue[n - 1].event_id) {
                assert(old_queue[k] == queue[k]);
                assert(queue[k].key() == queue[n - 1].key());
            }
            if n - 1 == old_queue.len() {
                assert(queue.take(n - 1) =~= old_queue);
            }
            lemma_behind_tail_already(next, n - 1);
            assert(queue.take(n) =~= queue.take(n - 1).push(queue[n - 1]));
        }
    }
}

proof fn lemma_queue_kept(next: StateView, stored: StateView)
    requires
        next.valid(),
        adds_to(next, stored),
    ensures
        next.queue_preserved(stored) == Ok::<StateView, Seq<char>>(next),
{
    broadcast use lemma_find_key;

    let queue = next.queued_messages;
    let old_queue = stored.queued_messages;
    assert forall|i: int| 0 <= i < old_queue.len() implies #[trigger] old_queue[i] == queue[i]
        && next.claimed_message(old_queue[i].event_id) is None by {
        lemma_queued_is_not_claimed(next, i);
    }
    let stored_fault_at = |i: int| next.claim_conflict(stored.queued_messages[i]);
    assert forall|i: int| 0 <= i < old_queue.len() implies (
    #[trigger] stored_fault_at(i)) is None by {
        assert(next.claimed_message(old_queue[i].event_id) is None);
    }
    lemma_no_fault(old_queue.len(), stored_fault_at);
    let fault_at = |i: int| next.queued_conflict(stored, next.queued_messages[i]);
    lemma_queue_is_distinct(next);
    assert forall|i: int| 0 <= i < queue.len() implies (#[trigger] fault_at(i)) is None by {
        lemma_queued_is_not_claimed(next, i);
        if let Some(k) = find_key(old_queue, queue[i].event_id) {
            assert(old_queue[k] == queue[k]);
            assert(queue[k].key() == queue[i].key());
            assert(k == i);
        }
    }
    lemma_no_fault(queue.len(), fault_at);
    lemma_still_queued_whole(next, old_queue);
    lemma_queue_extended_by_additions(next, stored, queue.len() as int);
    assert(queue.take(queue.len() as int) =~= queue);
    if queue.len() <= old_queue.len() {
        assert(queue =~= old_queue);
    }
    assert(next.queue_merged(stored) == queue);
    let times = Seq::new(queue.len(), |i: int| queue[i].enqueued_at_unix);
    assert forall|i: int| 0 <= i < times.len() implies #[trigger] times[i]
        <= next.updated_at_unix by {
        assert(queue[i].enqueued_at_unix <= next.updated_at_unix);
    }
    lemma_no_later(times, next.updated_at_unix);
}

/// A valid state that only adds to what is stored is what the merge gives.
pub proof fn law_merging_an_addition_gives_it(next: StateView, stored: StateView)
    requires
        next.valid(),
        adds_to(next, stored),
    ensures
        next.merged_with(stored) == Ok::<StateView, Seq<char>>(next),
{
    lemma_no_shared_conflict(next, stored);
    let at = next.updated_at_unix;
    lemma_merged_runs_same(next.runs, next.runs.len() as int);
    assert(next.runs.take(next.runs.len() as int) =~= next.runs);
    let run_times = Seq::new(next.runs.len(), |i: int| next.runs[i].updated_at_unix);
    assert forall|i: int| 0 <= i < run_times.len() implies #[trigger] run_times[i] <= at by {
        assert(next.runs[i].updated_at_unix <= at);
    }
    lemma_no_later(run_times, at);
    assert(next.runs_preserved(stored) == Ok::<StateView, Seq<char>>(next));
    lemma_merged_extension(
        stored.run_inputs,
        next.run_inputs,
        "conflicting run input record "@,
    );
    let input_times = Seq::new(
        next.run_inputs.len(),
        |i: int| next.run_inputs[i].claimed_at_unix,
    );
    assert forall|i: int| 0 <= i < input_times.len() implies #[trigger] input_times[i] <= at by {
        assert(next.run_inputs[i].claimed_at_unix <= at);
    }
    lemma_no_later(input_times, at);
    assert(next.run_inputs_preserved(stored) == Ok::<StateView, Seq<char>>(next));
    lemma_merged_extension(
        stored.inbound_events,
        next.inbound_events,
        "conflicting inbound event record "@,
    );
    let event_times = Seq::new(
        next.inbound_events.len(),
        |i: int| next.inbound_events[i].recorded_at_unix,
    );
    assert forall|i: int| 0 <= i < event_times.len() implies #[trigger] event_times[i] <= at by {
        assert(next.inbound_events[i].recorded_at_unix <= at);
    }
    lemma_no_later(event_times, at);
    assert(next.events_preserved(stored) == Ok::<StateView, Seq<char>>(next));
    lemma_queue_kept(next, stored);
    lemma_merged_extension(
        stored.outbound_deliveries,
        next.outbound_deliveries,
        "conflicting outbound delivery "@,
    );
    let delivery_times = Seq::new(
        next.outbound_deliveries.len(),
        |i: int| next.outbound_deliveries[i].updated_at_unix,
    );
    assert forall|i: int| 0 <= i < delivery_times.len() implies #[trigger] delivery_times[i]
        <= at by {
        assert(next.outbound_deliveries[i].updated_at_unix <= at);
    }
    lemma_no_later(delivery_times, at);
    assert(next.deliveries_preserved(stored) == Ok::<StateView, Seq<char>>(next));
}

} // verus!

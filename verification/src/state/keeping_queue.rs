//! Recording events and handing messages over to runs keep a state valid.
use vstd::prelude::*;

use super::inbound::{busy_sessions, latest_claimed, latest_queued, released};
use super::view::{active_run, claims, claims_of, ClaimedView, StateView};
use crate::event::EventView;
use crate::keyed::{find_key, has_key, lemma_find_key, lemma_find_key_push, lookup, Keyed};
use crate::queue::{run_input_of, MessageQueuePolicy, QueuedView, RunInputView};
use crate::run::{run_created, RunView};

verus! {

proof fn lemma_latest_claimed(taken: Seq<ClaimedView>, session_id: Seq<char>, base: u64)
    ensures
        base <= latest_claimed(taken, session_id, base),
        forall|i: int|
            0 <= i < taken.len() && (#[trigger] taken[i]).session_id == session_id
                ==> taken[i].message.enqueued_at_unix <= latest_claimed(taken, session_id, base),
    decreases taken.len(),
{
    if taken.len() > 0 {
        let front = taken.drop_last();
        lemma_latest_claimed(front, session_id, base);
        assert forall|i: int|
            0 <= i < taken.len() && (
            #[trigger] taken[i]).session_id == session_id implies taken[i].message.enqueued_at_unix
            <= latest_claimed(taken, session_id, base) by {
            if i < front.len() {
                assert(front[i] == taken[i]);
            }
        }
    }
}

proof fn lemma_latest_queued(queue: Seq<QueuedView>, session_id: Seq<char>, base: u64)
    ensures
        base <= latest_queued(queue, session_id, base),
        forall|i: int|
            0 <= i < queue.len() && (#[trigger] queue[i]).session_id == session_id
                ==> queue[i].enqueued_at_unix <= latest_queued(queue, session_id, base),
    decreases queue.len(),
{
    if queue.len() > 0 {
        let front = queue.drop_last();
        lemma_latest_queued(front, session_id, base);
        assert forall|i: int|
            0 <= i < queue.len() && (
            #[trigger] queue[i]).session_id == session_id implies queue[i].enqueued_at_unix
            <= latest_queued(queue, session_id, base) by {
            if i < front.len() {
                assert(front[i] == queue[i]);
            }
        }
    }
}

/// No message of a session was queued after the session's tail.
pub proof fn lemma_session_tail(s: StateView, session_id: Seq<char>)
    ensures
        forall|i: int|
            0 <= i < claims(s.run_inputs).len() && (#[trigger] claims(
                s.run_inputs,
            )[i]).session_id == session_id ==> claims(s.run_inputs)[i].message.enqueued_at_unix
                <= s.session_tail(session_id),
        forall|i: int|
            0 <= i < s.queued_messages.len() && (#[trigger] s.queued_messages[i]).session_id
                == session_id ==> s.queued_messages[i].enqueued_at_unix <= s.session_tail(
                session_id,
            ),
{
    let taken = claims(s.run_inputs);
    lemma_latest_claimed(taken, session_id, 0);
    lemma_latest_queued(s.queued_messages, session_id, latest_claimed(taken, session_id, 0));
}

/// Recording an event keeps a state valid.
pub proof fn law_recording_keeps_valid(s: StateView, event: EventView, at: u64)
    requires
        s.valid(),
    ensures
        s.recorded(event, at) matches Ok((t, _)) ==> t.valid(),
{
    broadcast use lemma_find_key;

    if let Ok((t, status)) = s.recorded(event, at) {
        if status is Recorded {
            let entry = s.entry_for(event, at)->Ok_0;
            let record = crate::event::event_record(event, at);
            let taken = claims(s.run_inputs);
            let n = s.inbound_events.len() as int;
            assert(!has_key(s.inbound_events, event.id));
            assert(t.inbound_events == s.inbound_events.push(record));
            assert forall|key: Seq<char>|
                key != event.id implies #[trigger] find_key(t.inbound_events, key) == find_key(
                s.inbound_events,
                key,
            ) by {
                lemma_find_key_push(s.inbound_events, record, key);
            }
            lemma_find_key_push(s.inbound_events, record, event.id);
            assert(t.position(event.id) == n);
            assert(t.events_sound());
            // Every message that was there before keeps its place.
            assert forall|message: QueuedView| #[trigger]
                s.backed(message) implies message.event_id != event.id && t.backed(message)
                && t.position(message.event_id) == s.position(message.event_id) && s.position(
                message.event_id,
            ) < n by {
                assert(has_key(s.inbound_events, message.event_id));
                assert(find_key(t.inbound_events, message.event_id) == find_key(
                    s.inbound_events,
                    message.event_id,
                ));
            }
            assert forall|i: int| 0 <= i < s.queued_messages.len() implies {
                &&& t.queued_messages[i] == #[trigger] s.queued_messages[i]
                &&& s.backed(s.queued_messages[i])
            } by {}
            assert forall|i: int| 0 <= i < taken.len() implies s.backed(
                (#[trigger] taken[i]).message,
            ) by {}
            match entry {
                Some(queued) => {
                    lemma_session_tail(s, queued.session_id);
                    assert(t.queued_messages == s.queued_messages.push(queued));
                    assert(queued.event_id == event.id);
                    assert(queued.flaw() is None);
                    assert(t.backed(queued));
                    assert(has_key(t.sessions, queued.session_id));
                    assert forall|key: Seq<char>|
                        key != event.id implies #[trigger] has_key(t.queued_messages, key)
                        == has_key(s.queued_messages, key) by {
                        lemma_find_key_push(s.queued_messages, queued, key);
                    }
                },
                None => {
                    assert(t.queued_messages == s.queued_messages);
                },
            }
            assert(t.queue_sound());
            assert(t.claims_sound());
            assert(t.handover_sound());
            assert(t.inputs_sound());
        }
    }
}

/// What a policy takes out of a front part of the queue.
spec fn part(s: StateView, policy: MessageQueuePolicy, now: u64, session_id: Seq<char>, n: int) -> Seq<
    QueuedView,
> {
    policy.taken(s.queued_messages.take(n), now, session_id)
}

/// A message was taken from the queue.
spec fn from_queue(s: StateView, n: int, message: QueuedView) -> bool {
    exists|i: int| 0 <= i < n && #[trigger] s.queued_messages[i] == message
}

/// What is taken comes from the queue, in its order, is of the session and due.
proof fn lemma_part(
    s: StateView,
    policy: MessageQueuePolicy,
    now: u64,
    session_id: Seq<char>,
    n: int,
)
    requires
        s.queue_sound(),
        0 <= n <= s.queued_messages.len(),
    ensures
        forall|a: int|
            0 <= a < part(s, policy, now, session_id, n).len() ==> {
                &&& from_queue(s, n, #[trigger] part(s, policy, now, session_id, n)[a])
                &&& part(s, policy, now, session_id, n)[a].session_id == session_id
                &&& policy.due(part(s, policy, now, session_id, n)[a], now)
            },
        forall|a: int, b: int|
            0 <= a < b < part(s, policy, now, session_id, n).len() ==> {
                &&& s.position((#[trigger] part(s, policy, now, session_id, n)[a]).event_id)
                    < s.position((#[trigger] part(s, policy, now, session_id, n)[b]).event_id)
                &&& part(s, policy, now, session_id, n)[a].enqueued_at_unix <= part(
                    s,
                    policy,
                    now,
                    session_id,
                    n,
                )[b].enqueued_at_unix
            },
    decreases n,
{
    let queue = s.queued_messages;
    let now_part = part(s, policy, now, session_id, n);
    if n > 0 {
        let before = part(s, policy, now, session_id, n - 1);
        lemma_part(s, policy, now, session_id, n - 1);
        assert(queue.take(n).drop_last() =~= queue.take(n - 1));
        assert(queue.take(n).last() == queue[n - 1]);
        assert forall|a: int| 0 <= a < now_part.len() implies {
            &&& from_queue(s, n, #[trigger] now_part[a])
            &&& now_part[a].session_id == session_id
            &&& policy.due(now_part[a], now)
        } by {
            if a < before.len() {
                assert(now_part[a] == before[a]);
                assert(from_queue(s, n - 1, before[a]));
                let i = choose|i: int| 0 <= i < n - 1 && #[trigger] queue[i] == before[a];
                assert(queue[i] == now_part[a]);
            } else {
                assert(queue[n - 1] == now_part[a]);
            }
        }
        assert forall|a: int, b: int| 0 <= a < b < now_part.len() implies {
            &&& s.position((#[trigger] now_part[a]).event_id) < s.position(
                (#[trigger] now_part[b]).event_id,
            )
            &&& now_part[a].enqueued_at_unix <= now_part[b].enqueued_at_unix
        } by {
            assert(now_part[a] == before[a]);
            if b < before.len() {
                assert(now_part[b] == before[b]);
            } else {
                assert(from_queue(s, n - 1, before[a]));
                let i = choose|i: int| 0 <= i < n - 1 && #[trigger] queue[i] == before[a];
                assert(now_part[b] == queue[n - 1]);
            }
        }
    } else {
        assert(queue.take(0).len() == 0);
    }
}

/// Where the limit is not reached, every due message of the session is taken.
proof fn lemma_part_complete(
    s: StateView,
    policy: MessageQueuePolicy,
    now: u64,
    session_id: Seq<char>,
    n: int,
)
    requires
        0 <= n <= s.queued_messages.len(),
        part(s, policy, now, session_id, n).len() < policy.max_messages,
    ensures
        forall|j: int|
            0 <= j < n && (#[trigger] s.queued_messages[j]).session_id == session_id && policy.due(
                s.queued_messages[j],
                now,
            ) ==> part(s, policy, now, session_id, n).contains(s.queued_messages[j]),
    decreases n,
{
    let queue = s.queued_messages;
    if n > 0 {
        let before = part(s, policy, now, session_id, n - 1);
        let now_part = part(s, policy, now, session_id, n);
        assert(queue.take(n).drop_last() =~= queue.take(n - 1));
        assert(queue.take(n).last() == queue[n - 1]);
        lemma_part_complete(s, policy, now, session_id, n - 1);
        assert forall|j: int|
            0 <= j < n && (#[trigger] queue[j]).session_id == session_id && policy.due(
                queue[j],
                now,
            ) implies now_part.contains(queue[j]) by {
            if j < n - 1 {
                assert(before.contains(queue[j]));
                let a = before.index_of(queue[j]);
                assert(now_part[a] == queue[j]);
            } else {
                assert(now_part[now_part.len() - 1] == queue[j]);
            }
        }
    }
}

/// What is taken of a session is a front part of its queue: with a message, all
/// earlier ones of the session are taken.
proof fn lemma_part_is_front(
    s: StateView,
    policy: MessageQueuePolicy,
    now: u64,
    session_id: Seq<char>,
    n: int,
    j: int,
    i: int,
)
    requires
        s.queue_sound(),
        0 <= j < i < n <= s.queued_messages.len(),
        s.queued_messages[j].session_id == session_id,
        part(s, policy, now, session_id, n).contains(s.queued_messages[i]),
    ensures
        part(s, policy, now, session_id, n).contains(s.queued_messages[j]),
    decreases n,
{
    let queue = s.queued_messages;
    let before = part(s, policy, now, session_id, n - 1);
    let now_part = part(s, policy, now, session_id, n);
    assert(queue.take(n).drop_last() =~= queue.take(n - 1));
    assert(queue.take(n).last() == queue[n - 1]);
    lemma_part(s, policy, now, session_id, n - 1);
    lemma_part(s, policy, now, session_id, n);
    let a = now_part.index_of(queue[i]);
    if i == n - 1 {
        // The last message is in: there was room for it, so every due message
        // before it is in as well, and an earlier one is due.
        if before.contains(queue[i]) {
            let b = before.index_of(queue[i]);
            assert(from_queue(s, n - 1, before[b]));
            let k = choose|k: int| 0 <= k < n - 1 && #[trigger] queue[k] == before[b];
            assert(s.position(queue[k].event_id) < s.position(queue[i].event_id));
        }
        if now_part == before {
            assert(before[a] == queue[i]);
        }
        assert(before.len() < policy.max_messages);
        lemma_part_complete(s, policy, now, session_id, n - 1);
        assert(now_part[a].session_id == session_id);
        assert(policy.due(queue[j], now));
        assert(before.contains(queue[j]));
        let b = before.index_of(queue[j]);
        assert(now_part[b] == queue[j]);
    } else {
        if a >= before.len() {
            assert(now_part[a] == queue[n - 1]);
            assert(s.position(queue[i].event_id) < s.position(queue[n - 1].event_id));
        }
        assert(before[a] == queue[i]);
        assert(before.contains(queue[i]));
        lemma_part_is_front(s, policy, now, session_id, n - 1, j, i);
        let b = before.index_of(queue[j]);
        assert(now_part[b] == queue[j]);
    }
}

/// What is left of the queue.
spec fn rest(s: StateView, taken: Seq<QueuedView>, n: int) -> Seq<QueuedView> {
    released(s.queued_messages.take(n), taken)
}

/// What is left comes from the queue, in its order, and was not taken.
proof fn lemma_rest(s: StateView, taken: Seq<QueuedView>, n: int)
    requires
        s.queue_sound(),
        0 <= n <= s.queued_messages.len(),
    ensures
        forall|a: int|
            0 <= a < rest(s, taken, n).len() ==> {
                &&& from_queue(s, n, #[trigger] rest(s, taken, n)[a])
                &&& !has_key(taken, rest(s, taken, n)[a].event_id)
            },
        forall|a: int, b: int|
            0 <= a < b < rest(s, taken, n).len() ==> {
                &&& s.position((#[trigger] rest(s, taken, n)[a]).event_id) < s.position(
                    (#[trigger] rest(s, taken, n)[b]).event_id,
                )
                &&& rest(s, taken, n)[a].session_id == rest(s, taken, n)[b].session_id
                    ==> rest(s, taken, n)[a].enqueued_at_unix <= rest(s, taken, n)[b].enqueued_at_unix
            },
    decreases n,
{
    let queue = s.queued_messages;
    let left = rest(s, taken, n);
    if n > 0 {
        let before = rest(s, taken, n - 1);
        lemma_rest(s, taken, n - 1);
        assert(queue.take(n).drop_last() =~= queue.take(n - 1));
        assert(queue.take(n).last() == queue[n - 1]);
        assert forall|a: int| 0 <= a < left.len() implies {
            &&& from_queue(s, n, #[trigger] left[a])
            &&& !has_key(taken, left[a].event_id)
        } by {
            if a < before.len() {
                assert(left[a] == before[a]);
                assert(from_queue(s, n - 1, before[a]));
                let i = choose|i: int| 0 <= i < n - 1 && #[trigger] queue[i] == before[a];
                assert(queue[i] == left[a]);
            } else {
                assert(queue[n - 1] == left[a]);
            }
        }
        assert forall|a: int, b: int| 0 <= a < b < left.len() implies {
            &&& s.position((#[trigger] left[a]).event_id) < s.position(
                (#[trigger] left[b]).event_id,
            )
            &&& left[a].session_id == left[b].session_id ==> left[a].enqueued_at_unix
                <= left[b].enqueued_at_unix
        } by {
            assert(left[a] == before[a]);
            if b < before.len() {
                assert(left[b] == before[b]);
            } else {
                assert(from_queue(s, n - 1, before[a]));
                let i = choose|i: int| 0 <= i < n - 1 && #[trigger] queue[i] == before[a];
                assert(left[b] == queue[n - 1]);
            }
        }
    }
}

/// Taking one more input adds its messages behind all others.
pub proof fn lemma_claims_push(inputs: Seq<RunInputView>, input: RunInputView)
    ensures
        claims(inputs.push(input)) == claims(inputs) + claims_of(input),
{
    assert(inputs.push(input).drop_last() =~= inputs);
}

/// A queue falls into a batch of one session and what is left, each in the order
/// of the queue, and within the session what is left follows the batch.
spec fn splits(
    m: StateView,
    session_id: Seq<char>,
    batch: Seq<QueuedView>,
    left: Seq<QueuedView>,
) -> bool {
    &&& forall|a: int|
        0 <= a < batch.len() ==> {
            &&& m.queued_messages.contains(#[trigger] batch[a])
            &&& batch[a].session_id == session_id
        }
    &&& forall|b: int|
        0 <= b < left.len() ==> {
            &&& m.queued_messages.contains(#[trigger] left[b])
            &&& !has_key(batch, left[b].event_id)
        }
    &&& forall|a: int, b: int|
        0 <= a < b < batch.len() ==> {
            &&& m.position((#[trigger] batch[a]).event_id) < m.position(
                (#[trigger] batch[b]).event_id,
            )
            &&& batch[a].enqueued_at_unix <= batch[b].enqueued_at_unix
        }
    &&& forall|a: int, b: int|
        0 <= a < b < left.len() ==> {
            &&& m.position((#[trigger] left[a]).event_id) < m.position(
                (#[trigger] left[b]).event_id,
            )
            &&& left[a].session_id == left[b].session_id ==> left[a].enqueued_at_unix
                <= left[b].enqueued_at_unix
        }
    &&& forall|a: int, b: int|
        0 <= a < batch.len() && 0 <= b < left.len() && (#[trigger] left[b]).session_id
            == session_id ==> {
            &&& (#[trigger] batch[a]).enqueued_at_unix <= left[b].enqueued_at_unix
            &&& m.position(batch[a].event_id) < m.position(left[b].event_id)
        }
}

/// A poll splits the queue.
proof fn lemma_poll_splits(
    m: StateView,
    policy: MessageQueuePolicy,
    now: u64,
    session_id: Seq<char>,
)
    requires
        m.queue_sound(),
    ensures
        ({
            let batch = policy.taken(m.queued_messages, now, session_id);
            splits(m, session_id, batch, released(m.queued_messages, batch))
        }),
{
    broadcast use lemma_find_key;

    let queue = m.queued_messages;
    let n = queue.len() as int;
    assert(queue.take(n) =~= queue);
    let batch = part(m, policy, now, session_id, n);
    let left = rest(m, batch, n);
    lemma_part(m, policy, now, session_id, n);
    lemma_rest(m, batch, n);
    assert forall|a: int| 0 <= a < batch.len() implies queue.contains(#[trigger] batch[a]) by {
        assert(from_queue(m, n, batch[a]));
    }
    assert forall|b: int| 0 <= b < left.len() implies queue.contains(#[trigger] left[b]) by {
        assert(from_queue(m, n, left[b]));
    }
    assert forall|a: int, b: int|
        0 <= a < batch.len() && 0 <= b < left.len() && (#[trigger] left[b]).session_id
            == session_id implies {
        &&& (#[trigger] batch[a]).enqueued_at_unix <= left[b].enqueued_at_unix
        &&& m.position(batch[a].event_id) < m.position(left[b].event_id)
    } by {
        assert(from_queue(m, n, batch[a]));
        assert(from_queue(m, n, left[b]));
        let i = choose|i: int| 0 <= i < n && #[trigger] queue[i] == batch[a];
        let j = choose|j: int| 0 <= j < n && #[trigger] queue[j] == left[b];
        assert(batch.contains(queue[i]));
        if j < i {
            lemma_part_is_front(m, policy, now, session_id, n, j, i);
        }
        if j <= i {
            assert(batch.contains(queue[j]));
            let c = batch.index_of(queue[j]);
            assert(batch[c].key() == left[b].event_id);
            assert(!has_key(batch, left[b].event_id));
        }
        assert(m.queued_messages[i] == queue[i]);
    }
}

/// What is left of a sound queue is sound.
proof fn lemma_left_is_sound(
    m: StateView,
    t: StateView,
    session_id: Seq<char>,
    batch: Seq<QueuedView>,
)
    requires
        m.valid(),
        splits(m, session_id, batch, t.queued_messages),
        t.inbound_events == m.inbound_events,
        t.sessions == m.sessions,
        m.updated_at_unix <= t.updated_at_unix,
    ensures
        t.queue_sound(),
{
    let left = t.queued_messages;
    assert forall|b: int| 0 <= b < left.len() implies {
        &&& (#[trigger] left[b]).flaw() is None
        &&& t.backed(left[b])
        &&& has_key(t.sessions, left[b].session_id)
        &&& left[b].enqueued_at_unix <= t.updated_at_unix
    } by {
        assert(m.queued_messages.contains(left[b]));
        let i = m.queued_messages.index_of(left[b]);
        assert(m.queued_messages[i] == left[b]);
        assert(m.backed(left[b]));
    }
}

/// Claims stay sound when a batch goes over to a new run.
proof fn lemma_claims_after(
    m: StateView,
    t: StateView,
    input: RunInputView,
)
    requires
        m.valid(),
        splits(m, input.session_id, input.messages, t.queued_messages),
        t.inbound_events == m.inbound_events,
        t.run_inputs == m.run_inputs.push(input),
    ensures
        t.claims_sound(),
        t.handover_sound(),
{
    broadcast use lemma_find_key;

    let batch = input.messages;
    let left = t.queued_messages;
    let queue = m.queued_messages;
    let earlier = claims(m.run_inputs);
    let taken = claims(t.run_inputs);
    lemma_claims_push(m.run_inputs, input);
    assert(taken == earlier + claims_of(input));
    assert forall|x: int| earlier.len() <= x < taken.len() implies (#[trigger] taken[x]) == (
    ClaimedView { session_id: input.session_id, message: batch[x - earlier.len()] }) by {}
    assert forall|x: int| 0 <= x < earlier.len() implies (#[trigger] taken[x]) == earlier[x] by {}
    assert forall|x: int| 0 <= x < taken.len() implies {
        &&& t.backed((#[trigger] taken[x]).message)
        &&& !has_key(left, taken[x].message.event_id)
    } by {
        if x < earlier.len() {
            assert(m.backed(earlier[x].message));
            assert(!has_key(queue, earlier[x].message.event_id));
            if let Some(b) = find_key(left, earlier[x].message.event_id) {
                assert(queue.contains(left[b]));
                let i = queue.index_of(left[b]);
                assert(queue[i].key() == earlier[x].message.event_id);
            }
        } else {
            let a = x - earlier.len();
            assert(queue.contains(batch[a]));
            let i = queue.index_of(batch[a]);
            assert(m.backed(queue[i]));
            if let Some(b) = find_key(left, batch[a].event_id) {
                assert(!has_key(batch, left[b].event_id));
                assert(batch[a].key() == left[b].event_id);
            }
        }
    }
    assert forall|x: int, y: int| 0 <= x < y < taken.len() implies (#[trigger] taken[x]).key() != (
    #[trigger] taken[y]).key() by {
        if y >= earlier.len() {
            let b = y - earlier.len();
            if x < earlier.len() {
                assert(!has_key(queue, earlier[x].message.event_id));
                assert(queue.contains(batch[b]));
                let i = queue.index_of(batch[b]);
                assert(queue[i].key() == batch[b].event_id);
            } else {
                let a = x - earlier.len();
                assert(m.position(batch[a].event_id) < m.position(batch[b].event_id));
            }
        }
    }
    assert forall|x: int, y: int|
        0 <= x < y < taken.len() && (#[trigger] taken[x]).session_id == (
        #[trigger] taken[y]).session_id implies {
        &&& taken[x].message.enqueued_at_unix <= taken[y].message.enqueued_at_unix
        &&& t.position(taken[x].message.event_id) < t.position(taken[y].message.event_id)
    } by {
        if y >= earlier.len() {
            let b = y - earlier.len();
            assert(queue.contains(batch[b]));
            let j = queue.index_of(batch[b]);
            assert(queue[j] == batch[b]);
            if x >= earlier.len() {
                let a = x - earlier.len();
                assert(m.position(batch[a].event_id) < m.position(batch[b].event_id));
            } else {
                assert(earlier[x].session_id == queue[j].session_id);
            }
        }
    }
    assert forall|x: int, b: int|
        0 <= x < taken.len() && 0 <= b < left.len() && (#[trigger] taken[x]).session_id == (
        #[trigger] left[b]).session_id implies {
        &&& taken[x].message.enqueued_at_unix <= left[b].enqueued_at_unix
        &&& t.position(taken[x].message.event_id) < t.position(left[b].event_id)
    } by {
        if x < earlier.len() {
            assert(queue.contains(left[b]));
            let j = queue.index_of(left[b]);
            assert(earlier[x].session_id == queue[j].session_id);
        } else {
            let a = x - earlier.len();
            assert(batch[a].enqueued_at_unix <= left[b].enqueued_at_unix);
        }
    }
}

/// Handing a batch of messages over to a new run keeps a state valid.
pub proof fn law_claiming_keeps_valid(
    s: StateView,
    run_id: Seq<char>,
    policy: MessageQueuePolicy,
    now: u64,
    clock: u64,
)
    requires
        s.valid(),
    ensures
        s.batch_claimed(run_id, policy, now, clock) matches Ok((t, _)) ==> t.valid(),
{
    if let Ok((t, claim)) = s.batch_claimed(run_id, policy, now, clock) {
        if claim is Claimed {
            let batch = policy.polled(
                s.queued_messages,
                now,
                busy_sessions(s.runs),
            )->Ready_0;
            let run = run_created(run_id, batch.session_id, now);
            let input = run_input_of(run_id, batch, now);
            let m = s.with_run(run, clock)->Ok_0;
            super::keeping::law_with_run_keeps_valid(s, run, clock);
            lemma_poll_splits(m, policy, now, batch.session_id);
            lemma_left_is_sound(m, t, batch.session_id, batch.messages);
            lemma_claimed_inputs_sound(s, m, t, run_id, input);
            lemma_claims_after(m, t, input);
        }
    }
}

/// The inputs stay sound when a new run takes one.
proof fn lemma_claimed_inputs_sound(
    s: StateView,
    m: StateView,
    t: StateView,
    run_id: Seq<char>,
    input: RunInputView,
)
    requires
        m.valid(),
        !has_key(s.runs, run_id),
        m.runs == s.runs.push(run_created(run_id, input.session_id, input.claimed_at_unix)),
        s.valid(),
        m.run_inputs == s.run_inputs,
        t.runs == m.runs,
        t.run_inputs == s.run_inputs.push(input),
        input.run_id == run_id,
        input.flaw() is None,
        m.updated_at_unix <= t.updated_at_unix,
        input.claimed_at_unix <= t.updated_at_unix,
    ensures
        t.inputs_sound(),
{
    broadcast use lemma_find_key;

    let run = run_created(run_id, input.session_id, input.claimed_at_unix);
    lemma_find_key_push(s.runs, run, run_id);
    assert forall|k: int| 0 <= k < s.run_inputs.len() implies (
    #[trigger] s.run_inputs[k]).run_id != run_id by {
        assert(lookup(s.runs, s.run_inputs[k].run_id) is Some);
    }
    assert forall|k: int| 0 <= k < t.run_inputs.len() implies {
        &&& (#[trigger] t.run_inputs[k]).flaw() is None
        &&& match lookup(t.runs, t.run_inputs[k].run_id) {
            Some(run) => {
                &&& run.session_id == t.run_inputs[k].session_id
                &&& run.created_at_unix == t.run_inputs[k].claimed_at_unix
            },
            None => false,
        }
        &&& t.run_inputs[k].claimed_at_unix <= t.updated_at_unix
    } by {
        if k < s.run_inputs.len() {
            assert(t.run_inputs[k] == m.run_inputs[k]);
        } else {
            assert(t.run_inputs[k] == input);
        }
    }
}

/// A session is busy exactly where it has an active run.
pub proof fn lemma_busy_sessions(runs: Seq<RunView>, session_id: Seq<char>)
    ensures
        busy_sessions(runs).contains(session_id) <==> active_run(runs, session_id) is Some,
    decreases runs.len(),
{
    if runs.len() > 0 {
        let front = runs.drop_last();
        lemma_busy_sessions(front, session_id);
        let before = busy_sessions(front);
        let after = busy_sessions(runs);
        if before.contains(session_id) {
            let k = before.index_of(session_id);
            assert(after[k] == session_id);
        }
        if runs.last().active() && runs.last().session_id == session_id {
            assert(after[after.len() - 1] == session_id);
        }
        if after.contains(session_id) && !before.contains(session_id) {
            let k = after.index_of(session_id);
            if k < before.len() {
                assert(before[k] == session_id);
            }
        }
    }
}

/// Where a message of a session without an active run is due, a claim under a new
/// run id succeeds.
pub proof fn law_due_messages_can_be_claimed(
    s: StateView,
    run_id: Seq<char>,
    policy: MessageQueuePolicy,
    i: int,
    now: u64,
    clock: u64,
)
    requires
        s.valid(),
        policy.max_messages > 0,
        !has_key(s.runs, run_id),
        0 <= i < s.queued_messages.len(),
        policy.due(s.queued_messages[i], now),
        active_run(s.runs, s.queued_messages[i].session_id) is None,
    ensures
        s.batch_claimed(run_id, policy, now, clock) matches Ok((_, claim)) && claim is Claimed,
{
    let queue = s.queued_messages;
    let busy = busy_sessions(s.runs);
    lemma_busy_sessions(s.runs, queue[i].session_id);
    policy.law_batches_are_due(queue, now, busy);
    assert(policy.due(queue[i], now) && !busy.contains(queue[i].session_id));
    let batch = policy.polled(queue, now, busy)->Ready_0;
    let input = run_input_of(run_id, batch, now);
    lemma_busy_sessions(s.runs, batch.session_id);
    assert forall|a: int| 0 <= a < batch.messages.len() implies input.message_flaw(
        #[trigger] input.messages[a],
    ) is None by {
        let message = batch.messages[a];
        assert(queue.contains(message));
        let k = queue.index_of(message);
        assert(queue[k].flaw() is None);
    }
    input.law_sound_inputs();
    let first = batch.messages[0];
    assert(queue.contains(first));
    let k = queue.index_of(first);
    assert(has_key(s.sessions, queue[k].session_id));
}

} // verus!

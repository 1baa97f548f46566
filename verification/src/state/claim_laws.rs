//! What claiming a batch does, in terms of the queue and the runs before and
//! after.
use vstd::prelude::*;

use super::inbound::{busy_sessions, released};
use super::keeping_queue::{law_due_messages_can_be_claimed, lemma_busy_sessions};
use super::validity::lemma_active_run;
use super::view::{active_run, StateView};
use crate::keyed::{find_key, has_key, lemma_find_key, Keyed};
use crate::queue::{run_input_of, ClaimView, MessageQueuePolicy, PollView, QueuedView};
use crate::run::RunView;

verus! {

/// A session is busy exactly where one of its runs is not completed, failed or
/// cancelled.
proof fn lemma_busy(runs: Seq<RunView>, session_id: Seq<char>)
    ensures
        busy_sessions(runs).contains(session_id) <==> exists|r: int|
            0 <= r < runs.len() && (#[trigger] runs[r]).session_id == session_id
                && runs[r].status !is Completed && runs[r].status !is Failed && runs[r].status
                !is Cancelled,
{
    lemma_busy_sessions(runs, session_id);
    lemma_active_run(runs, session_id);
    if let Some(r) = active_run(runs, session_id) {
        assert(runs[r].session_id == session_id);
    }
    assert forall|r: int|
        0 <= r < runs.len() && (#[trigger] runs[r]).session_id == session_id && runs[r].status
            !is Completed && runs[r].status !is Failed && runs[r].status
            !is Cancelled implies active_run(runs, session_id) is Some by {
        assert(runs[r].active());
    }
}

/// What is left of a queue are the entries whose event is not taken.
proof fn lemma_released_is_the_rest(queue: Seq<QueuedView>, taken: Seq<QueuedView>)
    ensures
        released(queue, taken) == queue.filter(
            |m: QueuedView|
                forall|a: int|
                    0 <= a < taken.len() ==> (#[trigger] taken[a]).event_id != m.event_id,
        ),
    decreases queue.len(),
{
    reveal(Seq::filter);
    let stays = |m: QueuedView|
        forall|a: int| 0 <= a < taken.len() ==> (#[trigger] taken[a]).event_id != m.event_id;
    if queue.len() == 0 {
        assert(released(queue, taken) =~= queue.filter(stays));
    } else {
        lemma_released_is_the_rest(queue.drop_last(), taken);
        lemma_find_key(taken, queue.last().event_id);
        match find_key(taken, queue.last().event_id) {
            Some(a) => {
                assert(taken[a].event_id == queue.last().event_id);
                assert(!stays(queue.last()));
            },
            None => {
                assert forall|a: int| 0 <= a < taken.len() implies (#[trigger] taken[a]).event_id
                    != queue.last().event_id by {
                    assert(taken[a].key() != queue.last().event_id);
                }
                assert(stays(queue.last()));
            },
        }
    }
}

/// A claim starts a new pending run under the given id, whose input are the
/// messages of one session that are due: all of them where they are no more than
/// the limit, and otherwise as many as the limit allows, in queue order. The
/// session has no run that still goes on. Exactly those messages leave the queue;
/// the others stay in their order. Nothing else changes but the time of the last
/// update.
pub proof fn law_claims_take_all_that_is_due(
    s: StateView,
    run_id: Seq<char>,
    policy: MessageQueuePolicy,
    now: u64,
    clock: u64,
)
    ensures
        s.batch_claimed(run_id, policy, now, clock) matches Ok((t, ClaimView::Claimed {
            run,
            input,
        })) ==> {
            let due = s.queued_messages.filter(
                |m: QueuedView|
                    m.session_id == input.session_id && (m.enqueued_at_unix + policy.delay_seconds
                        <= now || now == u64::MAX),
            );
            &&& input.messages == if due.len() <= policy.max_messages {
                due
            } else {
                due.take(policy.max_messages as int)
            }
            &&& due.len() > 0
            &&& input.run_id == run_id
            &&& input.claimed_at_unix == now
            &&& run.id == run_id
            &&& run.session_id == input.session_id
            &&& run.status is Pending
            &&& run.created_at_unix == now
            &&& run.updated_at_unix == now
            &&& run.started_at_unix is None
            &&& run.finished_at_unix is None
            &&& run.output_delivery_ids.len() == 0
            &&& forall|r: int|
                0 <= r < s.runs.len() ==> (#[trigger] s.runs[r]).id != run_id && (
                s.runs[r].session_id == input.session_id ==> s.runs[r].status is Completed
                    || s.runs[r].status is Failed || s.runs[r].status is Cancelled)
            &&& t.runs == s.runs.push(run)
            &&& t.run_inputs == s.run_inputs.push(input)
            &&& t.queued_messages == s.queued_messages.filter(
                |m: QueuedView|
                    forall|a: int|
                        0 <= a < input.messages.len() ==> (#[trigger] input.messages[a]).event_id
                            != m.event_id,
            )
            &&& t.sessions == s.sessions
            &&& t.inbound_events == s.inbound_events
            &&& t.outbound_deliveries == s.outbound_deliveries
            &&& t.updated_at_unix >= s.updated_at_unix
            &&& t.updated_at_unix >= now
            &&& t.updated_at_unix >= clock
            &&& t.updated_at_unix == s.updated_at_unix || t.updated_at_unix == now
                || t.updated_at_unix == clock
        },
{
    broadcast use lemma_find_key;

    let busy = busy_sessions(s.runs);
    policy.law_batches_hold_all_that_is_due(s.queued_messages, now, busy);
    if let PollView::Ready(batch) = policy.polled(s.queued_messages, now, busy) {
        let input = run_input_of(run_id, batch, now);
        lemma_busy(s.runs, batch.session_id);
        lemma_released_is_the_rest(s.queued_messages, input.messages);
        if s.batch_claimed(run_id, policy, now, clock) is Ok {
            assert forall|r: int| 0 <= r < s.runs.len() implies (#[trigger] s.runs[r]).id
                != run_id by {
                assert(s.runs[r].key() != run_id);
            }
        }
    }
}

/// The batch that a claim takes is that of the first message in the queue that is
/// due and whose session has no run that still goes on.
pub proof fn law_claims_go_in_queue_order(
    s: StateView,
    run_id: Seq<char>,
    policy: MessageQueuePolicy,
    now: u64,
    clock: u64,
)
    ensures
        s.batch_claimed(run_id, policy, now, clock) matches Ok((t, ClaimView::Claimed {
            run,
            input,
        })) ==> exists|i: int|
            {
                &&& 0 <= i < s.queued_messages.len()
                &&& (#[trigger] s.queued_messages[i]).session_id == input.session_id
                &&& s.queued_messages[i].enqueued_at_unix + policy.delay_seconds <= now || now
                    == u64::MAX
                &&& forall|j: int|
                    0 <= j < i ==> (#[trigger] s.queued_messages[j]).enqueued_at_unix
                        + policy.delay_seconds > now || exists|r: int|
                        0 <= r < s.runs.len() && (#[trigger] s.runs[r]).session_id
                            == s.queued_messages[j].session_id && s.runs[r].status !is Completed
                            && s.runs[r].status !is Failed && s.runs[r].status !is Cancelled
            },
{
    let busy = busy_sessions(s.runs);
    let queue = s.queued_messages;
    policy.law_batches_hold_all_that_is_due(queue, now, busy);
    if let PollView::Ready(batch) = policy.polled(queue, now, busy) {
        let i = choose|i: int|
            {
                &&& 0 <= i < queue.len()
                &&& (#[trigger] queue[i]).session_id == batch.session_id
                &&& queue[i].enqueued_at_unix + policy.delay_seconds <= now || now == u64::MAX
                &&& forall|j: int|
                    0 <= j < i ==> busy.contains((#[trigger] queue[j]).session_id)
                        || queue[j].enqueued_at_unix + policy.delay_seconds > now
            };
        assert(queue[i].session_id == batch.session_id);
        assert forall|j: int| 0 <= j < i implies (#[trigger] queue[j]).enqueued_at_unix
            + policy.delay_seconds > now || exists|r: int|
            0 <= r < s.runs.len() && (#[trigger] s.runs[r]).session_id == queue[j].session_id
                && s.runs[r].status !is Completed && s.runs[r].status !is Failed && s.runs[r].status
                !is Cancelled by {
            lemma_busy(s.runs, queue[j].session_id);
        }
    }
}

/// A claim waits exactly where no message is due whose session has no run that
/// still goes on. It then changes nothing, and says when the first such message
/// will be due, or nothing where there is none.
pub proof fn law_claims_wait_only_where_nothing_is_due(
    s: StateView,
    run_id: Seq<char>,
    policy: MessageQueuePolicy,
    now: u64,
    clock: u64,
)
    ensures
        s.batch_claimed(run_id, policy, now, clock) matches Ok((t, ClaimView::Waiting(_)))
            ==> t == s,
        (s.batch_claimed(run_id, policy, now, clock) matches Ok((_, ClaimView::Waiting(_))))
            <==> forall|i: int|
            0 <= i < s.queued_messages.len() ==> ((#[trigger] s.queued_messages[i]).enqueued_at_unix
                + policy.delay_seconds > now && now != u64::MAX) || busy_sessions(s.runs).contains(
                s.queued_messages[i].session_id,
            ),
        s.batch_claimed(run_id, policy, now, clock) matches Ok((_, ClaimView::Waiting(Some(next))))
            ==> {
            &&& now < next
            &&& exists|i: int|
                0 <= i < s.queued_messages.len() && !busy_sessions(s.runs).contains(
                    (#[trigger] s.queued_messages[i]).session_id,
                ) && (s.queued_messages[i].enqueued_at_unix + policy.delay_seconds == next || (next
                    == u64::MAX && s.queued_messages[i].enqueued_at_unix + policy.delay_seconds
                    > next))
            &&& forall|i: int|
                0 <= i < s.queued_messages.len() && !busy_sessions(s.runs).contains(
                    (#[trigger] s.queued_messages[i]).session_id,
                ) ==> next <= s.queued_messages[i].enqueued_at_unix + policy.delay_seconds
        },
        (s.batch_claimed(run_id, policy, now, clock) matches Ok((_, ClaimView::Waiting(None))))
            <==> forall|i: int|
            0 <= i < s.queued_messages.len() ==> busy_sessions(s.runs).contains(
                (#[trigger] s.queued_messages[i]).session_id,
            ),
        forall|session_id: Seq<char>|
            #![trigger busy_sessions(s.runs).contains(session_id)]
            busy_sessions(s.runs).contains(session_id) <==> exists|r: int|
                0 <= r < s.runs.len() && (#[trigger] s.runs[r]).session_id == session_id
                    && s.runs[r].status !is Completed && s.runs[r].status !is Failed
                    && s.runs[r].status !is Cancelled,
{
    let busy = busy_sessions(s.runs);
    policy.law_polls_wait_for_the_next_message(s.queued_messages, now, busy);
    assert forall|session_id: Seq<char>|
        #![trigger busy_sessions(s.runs).contains(session_id)]
        busy_sessions(s.runs).contains(session_id) <==> exists|r: int|
            0 <= r < s.runs.len() && (#[trigger] s.runs[r]).session_id == session_id
                && s.runs[r].status !is Completed && s.runs[r].status !is Failed && s.runs[r].status
                !is Cancelled by {
        lemma_busy(s.runs, session_id);
    }
}

/// In a valid state a claim is refused exactly where a message is due whose
/// session has no run that still goes on, and the run id is taken.
pub proof fn law_claims_are_refused_only_for_their_id(
    s: StateView,
    run_id: Seq<char>,
    policy: MessageQueuePolicy,
    now: u64,
    clock: u64,
)
    requires
        s.valid(),
        policy.max_messages > 0,
    ensures
        s.batch_claimed(run_id, policy, now, clock) is Err <==> (exists|r: int|
            0 <= r < s.runs.len() && (#[trigger] s.runs[r]).id == run_id) && (exists|i: int|
            0 <= i < s.queued_messages.len() && ((
            #[trigger] s.queued_messages[i]).enqueued_at_unix + policy.delay_seconds <= now || now
                == u64::MAX) && forall|r: int|
                0 <= r < s.runs.len() && (#[trigger] s.runs[r]).session_id
                    == s.queued_messages[i].session_id ==> s.runs[r].status is Completed
                    || s.runs[r].status is Failed || s.runs[r].status is Cancelled),
{
    broadcast use lemma_find_key;

    let busy = busy_sessions(s.runs);
    let queue = s.queued_messages;
    law_claims_wait_only_where_nothing_is_due(s, run_id, policy, now, clock);
    policy.law_polls_wait_for_the_next_message(queue, now, busy);
    if has_key(s.runs, run_id) {
        let r = find_key(s.runs, run_id)->Some_0;
        assert(s.runs[r].id == run_id);
    } else {
        assert forall|r: int| 0 <= r < s.runs.len() implies (#[trigger] s.runs[r]).id
            != run_id by {
            assert(s.runs[r].key() != run_id);
        }
    }
    if let PollView::Ready(_) = policy.polled(queue, now, busy) {
        let i = choose|i: int|
            0 <= i < queue.len() && !busy.contains((#[trigger] queue[i]).session_id) && (
            queue[i].enqueued_at_unix + policy.delay_seconds <= now || now == u64::MAX);
        lemma_busy(s.runs, queue[i].session_id);
        assert(s.queued_messages[i].enqueued_at_unix + policy.delay_seconds <= now || now
            == u64::MAX);
        if !has_key(s.runs, run_id) {
            lemma_busy_sessions(s.runs, queue[i].session_id);
            law_due_messages_can_be_claimed(s, run_id, policy, i, now, clock);
        }
    } else {
        assert forall|i: int|
            0 <= i < queue.len() && ((#[trigger] queue[i]).enqueued_at_unix
                + policy.delay_seconds <= now || now == u64::MAX) implies busy.contains(
            queue[i].session_id,
        ) by {}
        assert forall|i: int| 0 <= i < queue.len() && busy.contains(
            (#[trigger] queue[i]).session_id,
        ) implies exists|r: int|
            0 <= r < s.runs.len() && (#[trigger] s.runs[r]).session_id == queue[i].session_id
                && s.runs[r].status !is Completed && s.runs[r].status !is Failed && s.runs[r].status
                !is Cancelled by {
            lemma_busy(s.runs, queue[i].session_id);
        }
    }
}

} // verus!

//! What a poll of the queue finds and what a queue entry is, in terms of the
//! messages that wait and of the times at which they were queued.
use vstd::prelude::*;

use crate::event::{EventKindView, EventView};
use crate::queue::{queue_entry, MessageQueuePolicy, PollView, QueuedView, RunInputView};

verus! {

/// What is taken of a session is the front of its due messages.
proof fn lemma_taken_is_the_front(
    policy: MessageQueuePolicy,
    queue: Seq<QueuedView>,
    now: u64,
    session_id: Seq<char>,
)
    ensures
        ({
            let due = queue.filter(
                |m: QueuedView|
                    m.session_id == session_id && (m.enqueued_at_unix + policy.delay_seconds <= now
                        || now == u64::MAX),
            );
            policy.taken(queue, now, session_id) == if due.len() <= policy.max_messages {
                due
            } else {
                due.take(policy.max_messages as int)
            }
        }),
    decreases queue.len(),
{
    reveal(Seq::filter);
    let is_due = |m: QueuedView|
        m.session_id == session_id && (m.enqueued_at_unix + policy.delay_seconds <= now || now
            == u64::MAX);
    let due = queue.filter(is_due);
    if queue.len() == 0 {
        assert(policy.taken(queue, now, session_id) =~= due);
    } else {
        let front = queue.drop_last();
        lemma_taken_is_the_front(policy, front, now, session_id);
        let before = policy.taken(front, now, session_id);
        let after = policy.taken(queue, now, session_id);
        assert(is_due(queue.last()) <==> queue.last().session_id == session_id && policy.due(
            queue.last(),
            now,
        ));
        if is_due(queue.last()) {
            assert(due == front.filter(is_due).push(queue.last()));
            if before.len() < policy.max_messages {
                assert(after =~= due);
            } else {
                assert(after =~= due.take(policy.max_messages as int));
            }
        }
    }
}

impl MessageQueuePolicy {
    /// A batch is of the session of the first message in the queue that has waited
    /// long enough and whose session is not busy. It holds the messages of that
    /// session that have waited long enough, in queue order: all of them where they
    /// are no more than the limit, and otherwise as many as the limit allows, from
    /// the front. A message has waited long enough once the delay has passed since
    /// it was queued, or at the end of time.
    pub proof fn law_batches_hold_all_that_is_due(
        self,
        queue: Seq<QueuedView>,
        now: u64,
        busy: Seq<Seq<char>>,
    )
        ensures
            self.polled(queue, now, busy) matches PollView::Ready(batch) ==> {
                let due = queue.filter(
                    |m: QueuedView|
                        m.session_id == batch.session_id && (m.enqueued_at_unix
                            + self.delay_seconds <= now || now == u64::MAX),
                );
                &&& batch.messages == if due.len() <= self.max_messages {
                    due
                } else {
                    due.take(self.max_messages as int)
                }
                &&& due.len() > 0
                &&& !busy.contains(batch.session_id)
                &&& exists|i: int|
                    {
                        &&& 0 <= i < queue.len()
                        &&& (#[trigger] queue[i]).session_id == batch.session_id
                        &&& queue[i].enqueued_at_unix + self.delay_seconds <= now || now
                            == u64::MAX
                        &&& forall|j: int|
                            0 <= j < i ==> busy.contains((#[trigger] queue[j]).session_id)
                                || queue[j].enqueued_at_unix + self.delay_seconds > now
                    }
            },
    {
        self.lemma_first_due(queue, now, busy);
        if let Some(i) = self.first_due(queue, now, busy) {
            let session_id = queue[i].session_id;
            lemma_taken_is_the_front(self, queue, now, session_id);
            let is_due = |m: QueuedView|
                m.session_id == session_id && (m.enqueued_at_unix + self.delay_seconds <= now || now
                    == u64::MAX);
            assert(is_due(queue[i]));
            queue.lemma_filter_contains(is_due, i);
            assert(queue.filter(is_due).contains(queue[i]));
            assert forall|j: int| 0 <= j < i implies busy.contains(
                (#[trigger] queue[j]).session_id,
            ) || queue[j].enqueued_at_unix + self.delay_seconds > now by {
                assert(!(self.due(queue[j], now) && !busy.contains(queue[j].session_id)));
            }
        }
    }

    /// A poll finds a batch exactly where some message of a session that is not
    /// busy has waited long enough. Where none has, it says when the first of them
    /// will have, and nothing where there is none at all.
    pub proof fn law_polls_wait_for_the_next_message(
        self,
        queue: Seq<QueuedView>,
        now: u64,
        busy: Seq<Seq<char>>,
    )
        ensures
            self.polled(queue, now, busy) is Ready <==> exists|i: int|
                0 <= i < queue.len() && !busy.contains((#[trigger] queue[i]).session_id) && (
                queue[i].enqueued_at_unix + self.delay_seconds <= now || now == u64::MAX),
            self.polled(queue, now, busy) matches PollView::Waiting(Some(t)) ==> {
                &&& now < t
                &&& exists|i: int|
                    0 <= i < queue.len() && !busy.contains((#[trigger] queue[i]).session_id) && (
                    queue[i].enqueued_at_unix + self.delay_seconds == t || (t == u64::MAX
                        && queue[i].enqueued_at_unix + self.delay_seconds > t))
                &&& forall|i: int|
                    0 <= i < queue.len() && !busy.contains((#[trigger] queue[i]).session_id) ==> t
                        <= queue[i].enqueued_at_unix + self.delay_seconds
            },
            self.polled(queue, now, busy) == PollView::Waiting(None::<u64>) <==> forall|i: int|
                0 <= i < queue.len() ==> busy.contains((#[trigger] queue[i]).session_id),
    {
        self.lemma_first_due(queue, now, busy);
        self.law_waiting_ends_with_the_first_due_message(queue, busy);
        match self.polled(queue, now, busy) {
            PollView::Ready(_) => {
                let i = self.first_due(queue, now, busy)->Some_0;
                assert(!busy.contains(queue[i].session_id));
            },
            PollView::Waiting(next) => {
                assert forall|i: int|
                    0 <= i < queue.len() && !busy.contains(
                        (#[trigger] queue[i]).session_id,
                    ) implies queue[i].enqueued_at_unix + self.delay_seconds > now && now
                    != u64::MAX by {
                    assert(!self.due(queue[i], now));
                }
                if let Some(t) = next {
                    let i = choose|i: int|
                        0 <= i < queue.len() && self.ready_at(#[trigger] queue[i]) == t
                            && !busy.contains(queue[i].session_id);
                    assert(!busy.contains(queue[i].session_id));
                    assert(!self.due(queue[i], now));
                }
            },
        }
    }
}

/// A queue entry is made exactly from a user's message that came from a platform
/// and is bound to a session. It carries the event's id, session, message and
/// receive time, and is queued at the given time, or at the receive time where
/// that is later.
pub proof fn law_queue_entries_carry_their_event(event: EventView, at: u64)
    ensures
        queue_entry(event, at) is Ok <==> event.source is Platform && match event.kind {
            EventKindView::MessageReceived { message } => message.author is User
                && message.session_id is Some,
            EventKindView::RuntimeNotice { message: _ } => false,
        },
        queue_entry(event, at) matches Ok(entry) ==> {
            &&& entry.event_id == event.id
            &&& event.kind == (EventKindView::MessageReceived { message: entry.message })
            &&& entry.message.session_id == Some(entry.session_id)
            &&& entry.received_at_unix == event.received_at_unix
            &&& entry.enqueued_at_unix >= at
            &&& entry.enqueued_at_unix >= event.received_at_unix
            &&& entry.enqueued_at_unix == at || entry.enqueued_at_unix == event.received_at_unix
        },
{
}

/// Moving the queue time of an entry forward changes that time alone, and never
/// moves it back.
pub proof fn law_rebasing_moves_the_queue_time_forward(entry: QueuedView, at: u64)
    ensures
        ({
            let moved = entry.rebased(at);
            &&& moved.event_id == entry.event_id
            &&& moved.session_id == entry.session_id
            &&& moved.message == entry.message
            &&& moved.received_at_unix == entry.received_at_unix
            &&& moved.enqueued_at_unix >= at
            &&& moved.enqueued_at_unix >= entry.enqueued_at_unix
            &&& moved.enqueued_at_unix == at || moved.enqueued_at_unix == entry.enqueued_at_unix
        }),
{
}

/// Two entries have the same identity exactly where they agree in everything but
/// the time at which they were queued.
pub proof fn law_identity_leaves_out_the_queue_time(a: QueuedView, b: QueuedView)
    ensures
        a.same_identity(b) <==> a == (QueuedView { enqueued_at_unix: a.enqueued_at_unix, ..b }),
{
}

/// A sound queue entry holds a user's message of its session that was not queued
/// before it was received; nothing else is asked of it.
pub proof fn law_sound_entries(entry: QueuedView)
    ensures
        entry.flaw() is None <==> entry.message.session_id == Some(entry.session_id)
            && entry.message.author is User && entry.received_at_unix <= entry.enqueued_at_unix,
{
}

/// A sound run input has messages; each is a user's message of the input's
/// session, received no later than it was queued, and queued no later than it was
/// taken; nothing else is asked of it.
pub proof fn law_sound_inputs_hold_sound_messages(input: RunInputView)
    ensures
        input.flaw() is None <==> input.messages.len() > 0 && forall|i: int|
            0 <= i < input.messages.len() ==> {
                &&& (#[trigger] input.messages[i]).session_id == input.session_id
                &&& input.messages[i].message.session_id == Some(input.session_id)
                &&& input.messages[i].message.author is User
                &&& input.messages[i].received_at_unix <= input.messages[i].enqueued_at_unix
                &&& input.messages[i].enqueued_at_unix <= input.claimed_at_unix
            },
{
    input.law_sound_inputs();
    assert forall|i: int| 0 <= i < input.messages.len() implies (input.message_flaw(
        #[trigger] input.messages[i],
    ) is None <==> {
        &&& input.messages[i].session_id == input.session_id
        &&& input.messages[i].message.session_id == Some(input.session_id)
        &&& input.messages[i].message.author is User
        &&& input.messages[i].received_at_unix <= input.messages[i].enqueued_at_unix
        &&& input.messages[i].enqueued_at_unix <= input.claimed_at_unix
    }) by {}
}

} // verus!

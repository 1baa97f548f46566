//! The message queue: messages that wait for a run, the policy by which they are
//! taken out in batches, and the batches that runs own.
use vstd::prelude::*;

use crate::event::{Event, EventId, EventKind, EventKindView, EventSource, EventView};
use crate::keyed::{Keyed, Record};
use crate::message::{Message, MessageAuthor, MessageView};
use crate::run::{RunId, RunRecord, RunView};
use crate::session::SessionId;
use crate::text::{join3, join5, same_text};

verus! {

/// The model of a [`QueuedMessage`].
#[verifier::ext_equal]
pub struct QueuedView {
    pub event_id: Seq<char>,
    pub session_id: Seq<char>,
    pub message: MessageView,
    pub received_at_unix: u64,
    pub enqueued_at_unix: u64,
}

impl Keyed for QueuedView {
    open spec fn key(self) -> Seq<char> {
        self.event_id
    }
}

impl QueuedView {
    /// Why this queue entry is unsound, if it is.
    pub open spec fn flaw(self) -> Option<Seq<char>> {
        if self.message.session_id != Some(self.session_id) {
            Some("queued message event "@ + self.event_id + " message does not match its session"@)
        } else if self.message.author != MessageAuthor::User {
            Some(
                "queued message event "@ + self.event_id
                    + " must contain a user-authored message"@,
            )
        } else if self.enqueued_at_unix < self.received_at_unix {
            Some(
                "queued message event "@ + self.event_id
                    + " has enqueued_at_unix before received_at_unix"@,
            )
        } else {
            None
        }
    }

    /// Both entries stand for the same message event, whenever each was queued.
    pub open spec fn same_identity(self, other: QueuedView) -> bool {
        &&& self.event_id == other.event_id
        &&& self.session_id == other.session_id
        &&& self.message == other.message
        &&& self.received_at_unix == other.received_at_unix
    }

    /// This entry, queued no earlier than `at`.
    pub open spec fn rebased(self, at: u64) -> QueuedView {
        QueuedView {
            enqueued_at_unix: if self.enqueued_at_unix < at {
                at
            } else {
                self.enqueued_at_unix
            },
            ..self
        }
    }
}

/// The queue entry for an event that is queued at `enqueued_at_unix`, or why the
/// event cannot be queued: only a user's message from a platform, bound to a
/// session, can.
pub open spec fn queue_entry(event: EventView, enqueued_at_unix: u64) -> Result<
    QueuedView,
    Seq<char>,
> {
    if event.source != EventSource::Platform {
        Err("queued message event "@ + event.id + " must come from a platform"@)
    } else {
        match event.kind {
            EventKindView::MessageReceived { message } => {
                if message.author != MessageAuthor::User {
                    Err("queued message event "@ + event.id + " must contain a user-authored message"@)
                } else {
                    match message.session_id {
                        Some(session_id) => Ok(
                            QueuedView {
                                event_id: event.id,
                                session_id,
                                message,
                                received_at_unix: event.received_at_unix,
                                enqueued_at_unix,
                            }.rebased(event.received_at_unix),
                        ),
                        None => Err(
                            "queued message event "@ + event.id + " must reference a session"@,
                        ),
                    }
                }
            },
            EventKindView::RuntimeNotice { .. } => Err(
                "queued message event "@ + event.id + " must contain a user-authored message"@,
            ),
        }
    }
}

/// A user's message that waits in a session's queue.
#[derive(Debug, PartialEq, Eq)]
pub struct QueuedMessage {
    pub event_id: EventId,
    pub session_id: SessionId,
    pub message: Message,
    pub received_at_unix: u64,
    pub enqueued_at_unix: u64,
}

impl View for QueuedMessage {
    type V = QueuedView;

    open spec fn view(&self) -> QueuedView {
        QueuedView {
            event_id: self.event_id@,
            session_id: self.session_id@,
            message: self.message@,
            received_at_unix: self.received_at_unix,
            enqueued_at_unix: self.enqueued_at_unix,
        }
    }
}

impl Clone for QueuedMessage {
    fn clone(&self) -> (r: Self)
        ensures
            r@ == self@,
    {
        QueuedMessage {
            event_id: self.event_id.clone(),
            session_id: self.session_id.clone(),
            message: self.message.clone(),
            received_at_unix: self.received_at_unix,
            enqueued_at_unix: self.enqueued_at_unix,
        }
    }
}

impl Record for QueuedMessage {
    fn key_text(&self) -> (r: &String) {
        &self.event_id.text
    }
}

impl QueuedMessage {
    /// The queue entry for an event.
    pub fn from_event(event: &Event, enqueued_at_unix: u64) -> (r: Result<QueuedMessage, String>)
        ensures
            match r {
                Ok(queued) => queue_entry(event@, enqueued_at_unix) == Ok::<QueuedView, Seq<char>>(
                    queued@,
                ),
                Err(e) => queue_entry(event@, enqueued_at_unix) == Err::<QueuedView, Seq<char>>(e@),
            },
    {
        if event.source != EventSource::Platform {
            return Err(
                join3("queued message event ", event.id.as_str(), " must come from a platform"),
            );
        }
        let message = match &event.kind {
            EventKind::MessageReceived { message } => message,
            EventKind::RuntimeNotice { .. } => {
                return Err(
                    join3(
                        "queued message event ",
                        event.id.as_str(),
                        " must contain a user-authored message",
                    ),
                );
            },
        };
        if message.author != MessageAuthor::User {
            return Err(
                join3(
                    "queued message event ",
                    event.id.as_str(),
                    " must contain a user-authored message",
                ),
            );
        }
        let session_id = match &message.session_id {
            Some(session_id) => session_id.clone(),
            None => {
                return Err(
                    join3("queued message event ", event.id.as_str(), " must reference a session"),
                );
            },
        };
        let mut queued = QueuedMessage {
            event_id: event.id.clone(),
            session_id,
            message: message.clone(),
            received_at_unix: event.received_at_unix,
            enqueued_at_unix,
        };
        queued.rebase_enqueued_at_unix(event.received_at_unix);
        Ok(queued)
    }

    pub fn event_id(&self) -> (r: &EventId)
        ensures
            r@ == self@.event_id,
    {
        &self.event_id
    }

    pub fn session_id(&self) -> (r: &SessionId)
        ensures
            r@ == self@.session_id,
    {
        &self.session_id
    }

    pub fn message(&self) -> (r: &Message)
        ensures
            r@ == self@.message,
    {
        &self.message
    }

    pub fn received_at_unix(&self) -> (r: u64)
        ensures
            r == self@.received_at_unix,
    {
        self.received_at_unix
    }

    pub fn enqueued_at_unix(&self) -> (r: u64)
        ensures
            r == self@.enqueued_at_unix,
    {
        self.enqueued_at_unix
    }

    /// Moves the queue time forward to `at`, never back.
    pub fn rebase_enqueued_at_unix(&mut self, at: u64)
        ensures
            final(self)@ == old(self)@.rebased(at),
    {
        if self.enqueued_at_unix < at {
            self.enqueued_at_unix = at;
        }
    }

    /// Whether both entries stand for the same message event, whenever each was
    /// queued.
    pub fn has_same_identity(&self, other: &QueuedMessage) -> (r: bool)
        ensures
            r == self@.same_identity(other@),
    {
        same_text(&self.event_id.text, &other.event_id.text) && self.session_id.same(
            &other.session_id,
        ) && self.message.same(&other.message) && self.received_at_unix == other.received_at_unix
    }

    /// Whether two queue entries are the same in every field.
    pub fn same(&self, other: &QueuedMessage) -> (r: bool)
        ensures
            r == (self@ == other@),
    {
        self.has_same_identity(other) && self.enqueued_at_unix == other.enqueued_at_unix
    }

    /// Checks that the message is the user's, that it belongs to the session, and
    /// that it was not queued before it was received.
    pub fn validate(&self) -> (r: Result<(), String>)
        ensures
            crate::fault::reports(r, self@.flaw()),
    {
        let message_in_session = match &self.message.session_id {
            Some(id) => id.same(&self.session_id),
            None => false,
        };
        if !message_in_session {
            return Err(
                join3(
                    "queued message event ",
                    self.event_id.as_str(),
                    " message does not match its session",
                ),
            );
        }
        if self.message.author != MessageAuthor::User {
            return Err(
                join3(
                    "queued message event ",
                    self.event_id.as_str(),
                    " must contain a user-authored message",
                ),
            );
        }
        if self.enqueued_at_unix < self.received_at_unix {
            return Err(
                join3(
                    "queued message event ",
                    self.event_id.as_str(),
                    " has enqueued_at_unix before received_at_unix",
                ),
            );
        }
        Ok(())
    }
}

/// How long a message waits before it may be taken, and how many messages are
/// taken at a time.
#[derive(Debug, Clone, Copy, PartialEq, Eq, Structural)]
pub struct MessageQueuePolicy {
    pub delay_seconds: u64,
    pub max_messages: usize,
}

/// The model of a [`MessageBatch`].
#[verifier::ext_equal]
pub struct BatchView {
    pub session_id: Seq<char>,
    pub messages: Seq<QueuedView>,
}

/// The model of a [`MessageQueuePoll`].
#[verifier::ext_equal]
pub enum PollView {
    Ready(BatchView),
    Waiting(Option<u64>),
}

impl MessageQueuePolicy {
    /// When a message has waited long enough.
    pub open spec fn ready_at(self, message: QueuedView) -> u64 {
        if message.enqueued_at_unix + self.delay_seconds > u64::MAX {
            u64::MAX
        } else {
            (message.enqueued_at_unix + self.delay_seconds) as u64
        }
    }

    /// Whether a message has waited long enough at `now`.
    pub open spec fn due(self, message: QueuedView, now: u64) -> bool {
        self.ready_at(message) <= now
    }

    /// The first message in the queue that is due and whose session is not busy.
    pub open spec fn first_due(
        self,
        queue: Seq<QueuedView>,
        now: u64,
        busy: Seq<Seq<char>>,
    ) -> Option<int>
        decreases queue.len(),
    {
        if queue.len() == 0 {
            None
        } else {
            match self.first_due(queue.drop_last(), now, busy) {
                Some(i) => Some(i),
                None => if self.due(queue.last(), now) && !busy.contains(queue.last().session_id) {
                    Some(queue.len() - 1)
                } else {
                    None
                },
            }
        }
    }

    /// The messages of a session that are due, in queue order, up to the limit.
    pub open spec fn taken(
        self,
        queue: Seq<QueuedView>,
        now: u64,
        session_id: Seq<char>,
    ) -> Seq<QueuedView>
        decreases queue.len(),
    {
        if queue.len() == 0 {
            Seq::empty()
        } else {
            let before = self.taken(queue.drop_last(), now, session_id);
            if before.len() < self.max_messages && queue.last().session_id == session_id
                && self.due(queue.last(), now) {
                before.push(queue.last())
            } else {
                before
            }
        }
    }

    /// When the next message of a session that is not busy will be due.
    pub open spec fn next_ready(self, queue: Seq<QueuedView>, busy: Seq<Seq<char>>) -> Option<u64>
        decreases queue.len(),
    {
        if queue.len() == 0 {
            None
        } else {
            let before = self.next_ready(queue.drop_last(), busy);
            if busy.contains(queue.last().session_id) {
                before
            } else {
                match before {
                    Some(t) if t <= self.ready_at(queue.last()) => Some(t),
                    _ => Some(self.ready_at(queue.last())),
                }
            }
        }
    }

    /// What a poll of the queue finds at `now` while some sessions are busy: the
    /// batch of the first session with a due message, or how long to wait.
    pub open spec fn polled(
        self,
        queue: Seq<QueuedView>,
        now: u64,
        busy: Seq<Seq<char>>,
    ) -> PollView {
        match self.first_due(queue, now, busy) {
            Some(i) => PollView::Ready(
                BatchView {
                    session_id: queue[i].session_id,
                    messages: self.taken(queue, now, queue[i].session_id),
                },
            ),
            None => PollView::Waiting(self.next_ready(queue, busy)),
        }
    }

    /// A policy; a batch holds at least one message.
    pub fn new(delay_seconds: u64, max_messages: usize) -> (r: Result<MessageQueuePolicy, String>)
        ensures
            match r {
                Ok(policy) => max_messages > 0 && policy == (MessageQueuePolicy {
                    delay_seconds,
                    max_messages,
                }),
                Err(e) => max_messages == 0 && e@
                    == "message queue policy must allow at least one message"@,
            },
    {
        if max_messages == 0 {
            return Err("message queue policy must allow at least one message".to_owned());
        }
        Ok(MessageQueuePolicy { delay_seconds, max_messages })
    }

    fn ready_at_unix(&self, message: &QueuedMessage) -> (r: u64)
        ensures
            r == self.ready_at(message@),
    {
        if message.enqueued_at_unix > u64::MAX - self.delay_seconds {
            u64::MAX
        } else {
            message.enqueued_at_unix + self.delay_seconds
        }
    }

    /// Polls the queue.
    pub fn poll(&self, queued: &Vec<QueuedMessage>, now_unix: u64) -> (r: MessageQueuePoll)
        ensures
            r@ == self.polled(crate::keyed::views(queued@), now_unix, Seq::empty()),
    {
        let busy: Vec<SessionId> = Vec::new();
        assert(crate::keyed::views(busy@) =~= Seq::empty());
        self.poll_where_free(queued, now_unix, &busy)
    }

    /// Polls the queue, leaving out the messages of busy sessions.
    pub fn poll_where_free(
        &self,
        queued: &Vec<QueuedMessage>,
        now_unix: u64,
        busy: &Vec<SessionId>,
    ) -> (r: MessageQueuePoll)
        ensures
            r@ == self.polled(
                crate::keyed::views(queued@),
                now_unix,
                crate::keyed::views(busy@),
            ),
    {
        let ghost queue = crate::keyed::views(queued@);
        let ghost busy_ids = crate::keyed::views(busy@);
        let mut next_ready_at_unix: Option<u64> = None;
        let mut i: usize = 0;
        while i < queued.len()
            invariant
                i <= queued@.len(),
                queue == crate::keyed::views(queued@),
                busy_ids == crate::keyed::views(busy@),
                self.first_due(queue.take(i as int), now_unix, busy_ids) is None,
                next_ready_at_unix == self.next_ready(queue.take(i as int), busy_ids),
            decreases queued@.len() - i,
        {
            proof {
                assert(queue.take(i + 1).drop_last() =~= queue.take(i as int));
                assert(queue.take(i + 1).last() == queue[i as int]);
            }
            if !session_listed(busy, &queued[i].session_id) {
                let ready_at: u64 = self.ready_at_unix(&queued[i]);
                if ready_at <= now_unix {
                    proof {
                        self.lemma_first_due_stands(queue, now_unix, busy_ids, i + 1);
                    }
                    return MessageQueuePoll::Ready(self.take_batch(queued, now_unix, i));
                }
                next_ready_at_unix = match next_ready_at_unix {
                    Some(t) if t <= ready_at => Some(t),
                    _ => Some(ready_at),
                };
            }
            i = i + 1;
        }
        assert(queue.take(queue.len() as int) =~= queue);
        MessageQueuePoll::Waiting { next_ready_at_unix }
    }

    /// The first due message of a front part is that of the whole queue.
    proof fn lemma_first_due_stands(
        self,
        queue: Seq<QueuedView>,
        now: u64,
        busy: Seq<Seq<char>>,
        n: int,
    )
        requires
            0 <= n <= queue.len(),
            self.first_due(queue.take(n), now, busy) is Some,
        ensures
            self.first_due(queue, now, busy) == self.first_due(queue.take(n), now, busy),
        decreases queue.len(),
    {
        if n < queue.len() {
            assert(queue.drop_last().take(n) =~= queue.take(n));
            self.lemma_first_due_stands(queue.drop_last(), now, busy, n);
        } else {
            assert(queue.take(n) =~= queue);
        }
    }

    /// The batch of the session of the message at `at`.
    fn take_batch(&self, queued: &Vec<QueuedMessage>, now_unix: u64, at: usize) -> (r: MessageBatch)
        requires
            at < queued@.len(),
        ensures
            r@.session_id == queued@[at as int]@.session_id,
            r@.messages == self.taken(crate::keyed::views(queued@), now_unix, r@.session_id),
    {
        let session_id = queued[at].session_id.clone();
        let ghost queue = crate::keyed::views(queued@);
        let mut messages: Vec<QueuedMessage> = Vec::new();
        assert(crate::keyed::views(messages@) =~= Seq::empty());
        let mut i: usize = 0;
        while i < queued.len()
            invariant
                i <= queued@.len(),
                queue == crate::keyed::views(queued@),
                crate::keyed::views(messages@) == self.taken(
                    queue.take(i as int),
                    now_unix,
                    session_id@,
                ),
            decreases queued@.len() - i,
        {
            proof {
                assert(queue.take(i + 1).drop_last() =~= queue.take(i as int));
                assert(queue.take(i + 1).last() == queue[i as int]);
            }
            if messages.len() < self.max_messages && queued[i].session_id.same(&session_id)
                && self.ready_at_unix(&queued[i]) <= now_unix {
                let ghost before = messages@;
                messages.push(queued[i].clone());
                assert(crate::keyed::views(messages@) =~= crate::keyed::views(before).push(
                    queue[i as int],
                ));
            }
            i = i + 1;
        }
        assert(queue.take(queue.len() as int) =~= queue);
        MessageBatch { session_id, messages }
    }
}

impl MessageQueuePolicy {
    /// `first_due` gives the first due message of a session that is not busy, if
    /// there is one.
    pub proof fn lemma_first_due(self, queue: Seq<QueuedView>, now: u64, busy: Seq<Seq<char>>)
        ensures
            match self.first_due(queue, now, busy) {
                Some(i) => {
                    &&& 0 <= i < queue.len()
                    &&& self.due(queue[i], now)
                    &&& !busy.contains(queue[i].session_id)
                    &&& forall|j: int|
                        0 <= j < i ==> !(self.due(#[trigger] queue[j], now) && !busy.contains(
                            queue[j].session_id,
                        ))
                },
                None => forall|j: int|
                    0 <= j < queue.len() ==> !(self.due(#[trigger] queue[j], now)
                        && !busy.contains(queue[j].session_id)),
            },
        decreases queue.len(),
    {
        if queue.len() > 0 {
            let front = queue.drop_last();
            self.lemma_first_due(front, now, busy);
            assert(forall|j: int| 0 <= j < front.len() ==> #[trigger] queue[j] == front[j]);
        }
    }

    /// What is taken of a session is of the session, due, in the queue, and within
    /// the limit; something is taken where something is due.
    proof fn lemma_taken(self, queue: Seq<QueuedView>, now: u64, session_id: Seq<char>)
        ensures
            self.taken(queue, now, session_id).len() <= self.max_messages,
            forall|a: int|
                0 <= a < self.taken(queue, now, session_id).len() ==> {
                    &&& (#[trigger] self.taken(queue, now, session_id)[a]).session_id == session_id
                    &&& self.due(self.taken(queue, now, session_id)[a], now)
                    &&& queue.contains(self.taken(queue, now, session_id)[a])
                },
            forall|i: int|
                0 <= i < queue.len() && (#[trigger] queue[i]).session_id == session_id && self.due(
                    queue[i],
                    now,
                ) && self.max_messages > 0 ==> self.taken(queue, now, session_id).len() > 0,
        decreases queue.len(),
    {
        if queue.len() > 0 {
            let front = queue.drop_last();
            let before = self.taken(front, now, session_id);
            let after = self.taken(queue, now, session_id);
            self.lemma_taken(front, now, session_id);
            assert forall|a: int| 0 <= a < after.len() implies {
                &&& (#[trigger] after[a]).session_id == session_id
                &&& self.due(after[a], now)
                &&& queue.contains(after[a])
            } by {
                if a < before.len() {
                    assert(after[a] == before[a]);
                    let k = front.index_of(before[a]);
                    assert(queue[k] == front[k]);
                } else {
                    assert(queue[queue.len() - 1] == after[a]);
                }
            }
            assert forall|i: int|
                0 <= i < queue.len() && (#[trigger] queue[i]).session_id == session_id && self.due(
                    queue[i],
                    now,
                ) && self.max_messages > 0 implies after.len() > 0 by {
                if i < front.len() {
                    assert(front[i] == queue[i]);
                }
            }
        }
    }

    /// A batch has messages, no more than the limit, all from the queue, of one
    /// session that is not busy, and due. Without a batch no message of a session
    /// that is not busy is due.
    pub proof fn law_batches_are_due(self, queue: Seq<QueuedView>, now: u64, busy: Seq<Seq<char>>)
        requires
            self.max_messages > 0,
        ensures
            match self.polled(queue, now, busy) {
                PollView::Ready(batch) => {
                    &&& 0 < batch.messages.len() <= self.max_messages
                    &&& !busy.contains(batch.session_id)
                    &&& forall|a: int|
                        0 <= a < batch.messages.len() ==> {
                            &&& (#[trigger] batch.messages[a]).session_id == batch.session_id
                            &&& self.due(batch.messages[a], now)
                            &&& queue.contains(batch.messages[a])
                        }
                },
                PollView::Waiting(_) => forall|j: int|
                    0 <= j < queue.len() ==> !(self.due(#[trigger] queue[j], now)
                        && !busy.contains(queue[j].session_id)),
            },
    {
        self.lemma_first_due(queue, now, busy);
        if let Some(i) = self.first_due(queue, now, busy) {
            self.lemma_taken(queue, now, queue[i].session_id);
        }
    }

    /// A poll that waits says when the first message of a session that is not busy
    /// will be due, and none is due before that.
    pub proof fn law_waiting_ends_with_the_first_due_message(
        self,
        queue: Seq<QueuedView>,
        busy: Seq<Seq<char>>,
    )
        ensures
            match self.next_ready(queue, busy) {
                Some(t) => {
                    &&& exists|i: int|
                        0 <= i < queue.len() && self.ready_at(#[trigger] queue[i]) == t
                            && !busy.contains(queue[i].session_id)
                    &&& forall|j: int|
                        0 <= j < queue.len() && !busy.contains((#[trigger] queue[j]).session_id)
                            ==> t <= self.ready_at(queue[j])
                },
                None => forall|j: int|
                    0 <= j < queue.len() ==> busy.contains((#[trigger] queue[j]).session_id),
            },
        decreases queue.len(),
    {
        if queue.len() > 0 {
            let front = queue.drop_last();
            self.law_waiting_ends_with_the_first_due_message(front, busy);
            assert(forall|j: int| 0 <= j < front.len() ==> #[trigger] queue[j] == front[j]);
            let last = queue[queue.len() - 1];
            if let Some(t) = self.next_ready(queue, busy) {
                if t == self.ready_at(last) && !busy.contains(last.session_id) {
                    assert(self.ready_at(queue[queue.len() - 1]) == t);
                } else {
                    let i = choose|i: int|
                        0 <= i < front.len() && self.ready_at(#[trigger] front[i]) == t
                            && !busy.contains(front[i].session_id);
                    assert(self.ready_at(queue[i]) == t);
                }
            }
        }
    }
}

/// Whether a session is in a list.
pub(crate) fn session_listed(ids: &Vec<SessionId>, id: &SessionId) -> (r: bool)
    ensures
        r == crate::keyed::views(ids@).contains(id@),
{
    let ghost listed = crate::keyed::views(ids@);
    let mut i: usize = 0;
    while i < ids.len()
        invariant
            i <= ids@.len(),
            listed == crate::keyed::views(ids@),
            forall|j: int| 0 <= j < i ==> listed[j] != id@,
        decreases ids@.len() - i,
    {
        if ids[i].same(id) {
            assert(listed[i as int] == id@);
            return true;
        }
        i = i + 1;
    }
    false
}

/// Messages of one session that are taken out of the queue together.
#[derive(Debug, PartialEq, Eq)]
pub struct MessageBatch {
    pub session_id: SessionId,
    pub messages: Vec<QueuedMessage>,
}

impl View for MessageBatch {
    type V = BatchView;

    open spec fn view(&self) -> BatchView {
        BatchView {
            session_id: self.session_id@,
            messages: crate::keyed::views(self.messages@),
        }
    }
}

impl MessageBatch {
    pub fn session_id(&self) -> (r: &SessionId)
        ensures
            r@ == self@.session_id,
    {
        &self.session_id
    }

    pub fn messages(&self) -> (r: &[QueuedMessage])
        ensures
            crate::keyed::views(r@) == self@.messages,
    {
        self.messages.as_slice()
    }
}

/// What a poll of the queue found.
#[derive(Debug, PartialEq, Eq)]
pub enum MessageQueuePoll {
    Ready(MessageBatch),
    Waiting { next_ready_at_unix: Option<u64> },
}

impl View for MessageQueuePoll {
    type V = PollView;

    open spec fn view(&self) -> PollView {
        match self {
            MessageQueuePoll::Ready(batch) => PollView::Ready(batch@),
            MessageQueuePoll::Waiting { next_ready_at_unix } => PollView::Waiting(
                *next_ready_at_unix,
            ),
        }
    }
}

/// The model of a [`RunInputRecord`].
#[verifier::ext_equal]
pub struct RunInputView {
    pub run_id: Seq<char>,
    pub session_id: Seq<char>,
    pub messages: Seq<QueuedView>,
    pub claimed_at_unix: u64,
}

impl Keyed for RunInputView {
    open spec fn key(self) -> Seq<char> {
        self.run_id
    }
}

impl RunInputView {
    /// Why a message cannot be part of this input, if it cannot.
    pub open spec fn message_flaw(self, message: QueuedView) -> Option<Seq<char>> {
        if message.flaw() is Some {
            message.flaw()
        } else if message.session_id != self.session_id {
            Some(
                "run input "@ + self.run_id + " message event "@ + message.event_id
                    + " does not match its session"@,
            )
        } else if self.claimed_at_unix < message.enqueued_at_unix {
            Some(
                "run input "@ + self.run_id + " message event "@ + message.event_id
                    + " was claimed before it was enqueued"@,
            )
        } else {
            None
        }
    }

    /// Why this input record is unsound, if it is.
    pub open spec fn flaw(self) -> Option<Seq<char>> {
        if self.messages.len() == 0 {
            Some("run input "@ + self.run_id + " has no messages"@)
        } else {
            crate::fault::first_fault(
                self.messages.len(),
                |i: int| self.message_flaw(self.messages[i]),
            )
        }
    }

    /// A sound input has messages, all sound, of its session, and queued before
    /// they were claimed.
    pub proof fn law_sound_inputs(self)
        ensures
            self.flaw() is None <==> self.messages.len() > 0 && forall|i: int|
                0 <= i < self.messages.len() ==> self.message_flaw(#[trigger] self.messages[i])
                    is None,
    {
        let flaw_at = |i: int| self.message_flaw(self.messages[i]);
        crate::fault::lemma_no_fault(self.messages.len(), flaw_at);
        if self.flaw() is None {
            assert forall|i: int| 0 <= i < self.messages.len() implies self.message_flaw(
                #[trigger] self.messages[i],
            ) is None by {
                assert(flaw_at(i) is None);
            }
        }
    }
}

/// The messages that a run owns, and when it took them.
#[derive(Debug, PartialEq, Eq)]
pub struct RunInputRecord {
    pub run_id: RunId,
    pub session_id: SessionId,
    pub messages: Vec<QueuedMessage>,
    pub claimed_at_unix: u64,
}

impl View for RunInputRecord {
    type V = RunInputView;

    open spec fn view(&self) -> RunInputView {
        RunInputView {
            run_id: self.run_id@,
            session_id: self.session_id@,
            messages: crate::keyed::views(self.messages@),
            claimed_at_unix: self.claimed_at_unix,
        }
    }
}

impl Clone for RunInputRecord {
    fn clone(&self) -> (r: Self)
        ensures
            r@ == self@,
    {
        let messages = self.messages.clone();
        assert(crate::keyed::views(messages@) =~= crate::keyed::views(self.messages@));
        RunInputRecord {
            run_id: self.run_id.clone(),
            session_id: self.session_id.clone(),
            messages,
            claimed_at_unix: self.claimed_at_unix,
        }
    }
}

impl Record for RunInputRecord {
    fn key_text(&self) -> (r: &String) {
        &self.run_id.text
    }
}

/// The input of a run that takes `batch` at `claimed_at_unix`.
pub open spec fn run_input_of(
    run_id: Seq<char>,
    batch: BatchView,
    claimed_at_unix: u64,
) -> RunInputView {
    RunInputView {
        run_id,
        session_id: batch.session_id,
        messages: batch.messages,
        claimed_at_unix,
    }
}

impl RunInputRecord {
    /// The input of a run that takes a batch.
    pub fn from_batch(
        run_id: RunId,
        batch: &MessageBatch,
        claimed_at_unix: u64,
    ) -> (r: Result<RunInputRecord, String>)
        ensures
            ({
                let made = run_input_of(run_id@, batch@, claimed_at_unix);
                match r {
                    Ok(input) => made.flaw() is None && input@ == made,
                    Err(e) => made.flaw() == Some(e@),
                }
            }),
    {
        let messages = batch.messages.clone();
        assert(crate::keyed::views(messages@) =~= crate::keyed::views(batch.messages@));
        let input = RunInputRecord {
            run_id,
            session_id: batch.session_id.clone(),
            messages,
            claimed_at_unix,
        };
        match input.validate() {
            Ok(()) => Ok(input),
            Err(e) => Err(e),
        }
    }

    pub fn run_id(&self) -> (r: &RunId)
        ensures
            r@ == self@.run_id,
    {
        &self.run_id
    }

    pub fn session_id(&self) -> (r: &SessionId)
        ensures
            r@ == self@.session_id,
    {
        &self.session_id
    }

    pub fn messages(&self) -> (r: &[QueuedMessage])
        ensures
            crate::keyed::views(r@) == self@.messages,
    {
        self.messages.as_slice()
    }

    pub fn claimed_at_unix(&self) -> (r: u64)
        ensures
            r == self@.claimed_at_unix,
    {
        self.claimed_at_unix
    }

    fn validate_message(&self, message: &QueuedMessage) -> (r: Result<(), String>)
        ensures
            crate::fault::reports(r, self@.message_flaw(message@)),
    {
        match message.validate() {
            Ok(()) => {},
            Err(e) => return Err(e),
        }
        if !message.session_id.same(&self.session_id) {
            return Err(
                join5(
                    "run input ",
                    self.run_id.as_str(),
                    " message event ",
                    message.event_id.as_str(),
                    " does not match its session",
                ),
            );
        }
        if self.claimed_at_unix < message.enqueued_at_unix {
            return Err(
                join5(
                    "run input ",
                    self.run_id.as_str(),
                    " message event ",
                    message.event_id.as_str(),
                    " was claimed before it was enqueued",
                ),
            );
        }
        Ok(())
    }

    /// Checks that there are messages, each sound, of the run's session, and
    /// queued before they were claimed.
    pub fn validate(&self) -> (r: Result<(), String>)
        ensures
            crate::fault::reports(r, self@.flaw()),
    {
        if self.messages.len() == 0 {
            return Err(join3("run input ", self.run_id.as_str(), " has no messages"));
        }
        let ghost flaw_at = |i: int| self@.message_flaw(self@.messages[i]);
        let mut i: usize = 0;
        while i < self.messages.len()
            invariant
                i <= self.messages@.len(),
                flaw_at == (|i: int| self@.message_flaw(self@.messages[i])),
                forall|j: int| 0 <= j < i ==> (#[trigger] flaw_at(j)) is None,
                self@.messages.len() > 0,
            decreases self.messages@.len() - i,
        {
            match self.validate_message(&self.messages[i]) {
                Ok(()) => {
                    assert(flaw_at(i as int) is None);
                },
                Err(e) => {
                    proof {
                        assert(flaw_at(i as int) == Some(e@));
                        crate::fault::lemma_first_fault(self@.messages.len(), flaw_at, i as int);
                    }
                    return Err(e);
                },
            }
            i = i + 1;
        }
        proof {
            crate::fault::lemma_no_fault(self@.messages.len(), flaw_at);
        }
        Ok(())
    }

    /// Whether two inputs are the same in every field.
    pub fn same(&self, other: &RunInputRecord) -> (r: bool)
        ensures
            r == (self@ == other@),
    {
        same_text(&self.run_id.text, &other.run_id.text) && self.session_id.same(&other.session_id)
            && same_messages(&self.messages, &other.messages) && self.claimed_at_unix
            == other.claimed_at_unix
    }
}

/// Whether two lists hold the same queue entries in the same order.
fn same_messages(a: &Vec<QueuedMessage>, b: &Vec<QueuedMessage>) -> (r: bool)
    ensures
        r == (crate::keyed::views(a@) == crate::keyed::views(b@)),
{
    let ghost left = crate::keyed::views(a@);
    let ghost right = crate::keyed::views(b@);
    if a.len() != b.len() {
        assert(left.len() != right.len());
        return false;
    }
    let mut i: usize = 0;
    while i < a.len()
        invariant
            i <= a@.len() == b@.len(),
            left == crate::keyed::views(a@),
            right == crate::keyed::views(b@),
            forall|j: int| 0 <= j < i ==> left[j] == right[j],
        decreases a@.len() - i,
    {
        if !a[i].same(&b[i]) {
            assert(left[i as int] != right[i as int]);
            return false;
        }
        i = i + 1;
    }
    assert(left =~= right);
    true
}

/// The model of a [`MessageBatchClaimOutcome`].
#[verifier::ext_equal]
pub enum ClaimView {
    Claimed { run: RunView, input: RunInputView },
    Waiting(Option<u64>),
}

/// What came of an attempt to start a run on waiting messages.
#[derive(Debug, PartialEq, Eq)]
pub enum MessageBatchClaimOutcome {
    Claimed { run: RunRecord, input: RunInputRecord },
    Waiting { next_ready_at_unix: Option<u64> },
}

impl View for MessageBatchClaimOutcome {
    type V = ClaimView;

    open spec fn view(&self) -> ClaimView {
        match self {
            MessageBatchClaimOutcome::Claimed { run, input } => ClaimView::Claimed {
                run: run@,
                input: input@,
            },
            MessageBatchClaimOutcome::Waiting { next_ready_at_unix } => ClaimView::Waiting(
                *next_ready_at_unix,
            ),
        }
    }
}

} // verus!

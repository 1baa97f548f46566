//! Inbound events: entering them in the ledger, queueing their messages, and
//! handing queued messages over to runs.
use vstd::prelude::*;

use super::model::RuntimeState;
use super::session_run::{later, later_of};
use super::view::{claims, ClaimedView, StateView};
use crate::clock::unix_seconds_now;
use crate::event::{
    event_record, Event, EventId, EventKind, EventKindView, EventView, InboundEventRecord,
    InboundEventRecordStatus,
};
use crate::keyed::{find_record, has_key, lookup};
use crate::queue::{
    queue_entry, run_input_of, ClaimView, MessageBatchClaimOutcome, MessageQueuePoll,
    MessageQueuePolicy, PollView, QueuedMessage, QueuedView, RunInputRecord,
};
use crate::run::{run_created, RunId, RunRecord, RunView};
use crate::session::SessionId;
use crate::text::{join3, join4};

verus! {

/// The latest of `base` and the queue times of what was taken for a session.
pub open spec fn latest_claimed(taken: Seq<ClaimedView>, session_id: Seq<char>, base: u64) -> u64
    decreases taken.len(),
{
    if taken.len() == 0 {
        base
    } else {
        let before = latest_claimed(taken.drop_last(), session_id, base);
        if taken.last().session_id == session_id {
            later_of(before, taken.last().message.enqueued_at_unix)
        } else {
            before
        }
    }
}

/// The latest of `base` and the queue times of a session's queue entries.
pub open spec fn latest_queued(queue: Seq<QueuedView>, session_id: Seq<char>, base: u64) -> u64
    decreases queue.len(),
{
    if queue.len() == 0 {
        base
    } else {
        let before = latest_queued(queue.drop_last(), session_id, base);
        if queue.last().session_id == session_id {
            later_of(before, queue.last().enqueued_at_unix)
        } else {
            before
        }
    }
}

/// The sessions of the active runs, in order of the runs.
pub open spec fn busy_sessions(runs: Seq<RunView>) -> Seq<Seq<char>>
    decreases runs.len(),
{
    if runs.len() == 0 {
        Seq::empty()
    } else if runs.last().active() {
        busy_sessions(runs.drop_last()).push(runs.last().session_id)
    } else {
        busy_sessions(runs.drop_last())
    }
}

/// What is left of a queue once the messages `taken` are out of it.
pub open spec fn released(queue: Seq<QueuedView>, taken: Seq<QueuedView>) -> Seq<QueuedView>
    decreases queue.len(),
{
    if queue.len() == 0 {
        Seq::empty()
    } else if has_key(taken, queue.last().event_id) {
        released(queue.drop_last(), taken)
    } else {
        released(queue.drop_last(), taken).push(queue.last())
    }
}

impl StateView {
    /// The message of an event, where a run has taken it.
    pub open spec fn claimed_message(self, event_id: Seq<char>) -> Option<QueuedView> {
        match lookup(claims(self.run_inputs), event_id) {
            Some(claim) => Some(claim.message),
            None => None,
        }
    }

    /// The message of an event, queued or taken.
    pub open spec fn message_record(self, event_id: Seq<char>) -> Option<QueuedView> {
        match lookup(self.queued_messages, event_id) {
            Some(queued) => Some(queued),
            None => self.claimed_message(event_id),
        }
    }

    /// The latest time at which a message of the session was queued.
    pub open spec fn session_tail(self, session_id: Seq<char>) -> u64 {
        latest_queued(
            self.queued_messages,
            session_id,
            latest_claimed(claims(self.run_inputs), session_id, 0),
        )
    }

    /// The queue entry that an event asks for, if any, or why the event is
    /// refused. Only messages that are bound to a session are queued, behind all
    /// earlier ones of the session. An unbound message leaves a ledger entry
    /// alone, but cannot stand for a message that was queued.
    pub open spec fn entry_for(self, event: EventView, at: u64) -> Result<
        Option<QueuedView>,
        Seq<char>,
    > {
        match event.kind {
            EventKindView::RuntimeNotice { .. } => Ok(None),
            EventKindView::MessageReceived { message } => match message.session_id {
                None => if self.message_record(event.id) is Some {
                    Err(
                        "inbound message event "@ + event.id
                            + " must reference a session before persistence"@,
                    )
                } else {
                    Ok(None)
                },
                Some(session_id) => if !has_key(self.sessions, session_id) {
                    Err(
                        "inbound message event "@ + event.id + " references unknown session "@
                            + session_id,
                    )
                } else {
                    match queue_entry(event, later_of(at, self.session_tail(session_id))) {
                        Ok(queued) => Ok(Some(queued)),
                        Err(e) => Err(e),
                    }
                },
            },
        }
    }

    /// Why an event that is in the ledger cannot be the one that is recorded
    /// there, if it cannot.
    pub open spec fn duplicate_fault(self, event: EventView, entry: Option<QueuedView>) -> Option<
        Seq<char>,
    > {
        match lookup(self.inbound_events, event.id) {
            None => None,
            Some(existing) => if existing.received_at_unix != event.received_at_unix {
                Some("conflicting inbound event "@ + event.id + " received_at_unix"@)
            } else {
                match (self.message_record(event.id), entry) {
                    (Some(recorded), Some(queued)) => if recorded.same_identity(queued) {
                        None
                    } else {
                        Some("conflicting queued message event "@ + event.id)
                    },
                    (Some(_), None) => Some(
                        "duplicate inbound event "@ + event.id
                            + " conflicts with a queued message record"@,
                    ),
                    (None, Some(_)) => Some(
                        "duplicate inbound message event "@ + event.id
                            + " has no queued message record"@,
                    ),
                    (None, None) => None,
                }
            },
        }
    }

    /// This state with a new event in the ledger and its message in the queue.
    pub open spec fn with_event(
        self,
        event: EventView,
        entry: Option<QueuedView>,
        at: u64,
    ) -> StateView {
        let record = event_record(event, at);
        let recorded = StateView { inbound_events: self.inbound_events.push(record), ..self };
        match entry {
            Some(queued) => StateView {
                queued_messages: recorded.queued_messages.push(queued),
                ..recorded
            }.touched(queued.enqueued_at_unix),
            None => recorded,
        }.touched(record.recorded_at_unix)
    }

    /// What recording an event does: a new event is entered, one that is in the
    /// ledger changes nothing, and one that contradicts the ledger is refused.
    pub open spec fn recorded(self, event: EventView, at: u64) -> Result<
        (StateView, InboundEventRecordStatus),
        Seq<char>,
    > {
        match self.entry_for(event, at) {
            Err(e) => Err(e),
            Ok(entry) => match self.duplicate_fault(event, entry) {
                Some(e) => Err(e),
                None => if has_key(self.inbound_events, event.id) {
                    Ok((self, InboundEventRecordStatus::Duplicate))
                } else {
                    Ok((self.with_event(event, entry, at), InboundEventRecordStatus::Recorded))
                },
            },
        }
    }

    /// What an attempt to start a run on waiting messages does at `now`, with
    /// `clock` as the time of the change: the first batch that is due and whose
    /// session has no active run goes from the queue to a new pending run.
    pub open spec fn batch_claimed(
        self,
        run_id: Seq<char>,
        policy: MessageQueuePolicy,
        now: u64,
        clock: u64,
    ) -> Result<(StateView, ClaimView), Seq<char>> {
        match policy.polled(self.queued_messages, now, busy_sessions(self.runs)) {
            PollView::Waiting(next) => Ok((self, ClaimView::Waiting(next))),
            PollView::Ready(batch) => {
                let run = run_created(run_id, batch.session_id, now);
                let input = run_input_of(run_id, batch, now);
                match input.flaw() {
                    Some(e) => Err(e),
                    None => match self.with_run(run, clock) {
                        Err(e) => Err(e),
                        Ok(next) => Ok(
                            (
                                StateView {
                                    queued_messages: released(
                                        next.queued_messages,
                                        input.messages,
                                    ),
                                    run_inputs: next.run_inputs.push(input),
                                    ..next
                                }.touched(now),
                                ClaimView::Claimed { run, input },
                            ),
                        ),
                    },
                }
            },
        }
    }
}

/// Recording comes out as `outcome` says; refused, it leaves the state as it was.
pub open spec fn gives_record_status(
    r: Result<InboundEventRecordStatus, String>,
    before: StateView,
    after: StateView,
    outcome: Result<(StateView, InboundEventRecordStatus), Seq<char>>,
) -> bool {
    match r {
        Ok(status) => outcome == Ok::<(StateView, InboundEventRecordStatus), Seq<char>>(
            (after, status),
        ),
        Err(e) => outcome == Err::<(StateView, InboundEventRecordStatus), Seq<char>>(e@) && after
            == before,
    }
}

/// A claim comes out as `outcome` says; refused, it leaves the state as it was.
pub open spec fn gives_claim(
    r: Result<MessageBatchClaimOutcome, String>,
    before: StateView,
    after: StateView,
    outcome: Result<(StateView, ClaimView), Seq<char>>,
) -> bool {
    match r {
        Ok(claim) => outcome == Ok::<(StateView, ClaimView), Seq<char>>((after, claim@)),
        Err(e) => outcome == Err::<(StateView, ClaimView), Seq<char>>(e@) && after == before,
    }
}

impl RuntimeState {
    /// The message of an event, where a run has taken it.
    pub(crate) fn claimed_message_for_event(&self, id: &EventId) -> (r: Option<&QueuedMessage>)
        ensures
            super::model::found(r, self@.claimed_message(id@)),
    {
        let taken = self.claimed_messages();
        match find_record(&taken, &id.text) {
            Some(i) => Some(taken[i].message),
            None => None,
        }
    }

    /// The message of an event, queued or taken.
    pub(crate) fn message_record_for_event(&self, id: &EventId) -> (r: Option<&QueuedMessage>)
        ensures
            super::model::found(r, self@.message_record(id@)),
    {
        match find_record(&self.queued_messages, &id.text) {
            Some(i) => Some(&self.queued_messages[i]),
            None => self.claimed_message_for_event(id),
        }
    }

    /// The latest time at which a message of the session was queued.
    fn session_tail_at_unix(&self, session_id: &SessionId) -> (r: u64)
        ensures
            r == self@.session_tail(session_id@),
    {
        let taken = self.claimed_messages();
        let ghost claimed = claims(self@.run_inputs);
        let ghost queue = self@.queued_messages;
        let mut latest: u64 = 0;
        let mut i: usize = 0;
        while i < taken.len()
            invariant
                i <= taken@.len(),
                claimed == crate::keyed::views(taken@),
                latest == latest_claimed(claimed.take(i as int), session_id@, 0),
            decreases taken@.len() - i,
        {
            proof {
                assert(claimed.take(i + 1).drop_last() =~= claimed.take(i as int));
                assert(claimed.take(i + 1).last() == claimed[i as int]);
            }
            if taken[i].session_id.same(session_id) {
                latest = later(latest, taken[i].message.enqueued_at_unix);
            }
            i = i + 1;
        }
        assert(claimed.take(claimed.len() as int) =~= claimed);
        let ghost base = latest;
        let mut j: usize = 0;
        while j < self.queued_messages.len()
            invariant
                j <= self.queued_messages@.len(),
                queue == self@.queued_messages,
                latest == latest_queued(queue.take(j as int), session_id@, base),
            decreases self.queued_messages@.len() - j,
        {
            proof {
                assert(queue.take(j + 1).drop_last() =~= queue.take(j as int));
                assert(queue.take(j + 1).last() == queue[j as int]);
            }
            if self.queued_messages[j].session_id.same(session_id) {
                latest = later(latest, self.queued_messages[j].enqueued_at_unix);
            }
            j = j + 1;
        }
        assert(queue.take(queue.len() as int) =~= queue);
        latest
    }

    /// The queue entry that an event asks for, if any.
    fn queued_message_for_event(&self, event: &Event, recorded_at_unix: u64) -> (r: Result<
        Option<QueuedMessage>,
        String,
    >)
        ensures
            match r {
                Ok(Some(queued)) => self@.entry_for(event@, recorded_at_unix) == Ok::<
                    Option<QueuedView>,
                    Seq<char>,
                >(Some(queued@)),
                Ok(None) => self@.entry_for(event@, recorded_at_unix) == Ok::<
                    Option<QueuedView>,
                    Seq<char>,
                >(None),
                Err(e) => self@.entry_for(event@, recorded_at_unix) == Err::<
                    Option<QueuedView>,
                    Seq<char>,
                >(e@),
            },
    {
        let message = match &event.kind {
            EventKind::MessageReceived { message } => message,
            EventKind::RuntimeNotice { .. } => return Ok(None),
        };
        let session_id = match &message.session_id {
            Some(session_id) => session_id,
            None => {
                if self.message_record_for_event(&event.id).is_some() {
                    return Err(
                        join3(
                            "inbound message event ",
                            event.id.as_str(),
                            " must reference a session before persistence",
                        ),
                    );
                }
                return Ok(None);
            },
        };
        if self.session(session_id).is_none() {
            return Err(
                join4(
                    "inbound message event ",
                    event.id.as_str(),
                    " references unknown session ",
                    session_id.as_str(),
                ),
            );
        }
        let enqueued_at: u64 = later(recorded_at_unix, self.session_tail_at_unix(session_id));
        match QueuedMessage::from_event(event, enqueued_at) {
            Ok(queued) => Ok(Some(queued)),
            Err(e) => Err(e),
        }
    }

    /// Checks an event that is in the ledger against what is recorded of it.
    fn check_duplicate(&self, event: &Event, entry: &Option<QueuedMessage>) -> (r: Result<
        (),
        String,
    >)
        ensures
            crate::fault::reports(
                r,
                self@.duplicate_fault(
                    event@,
                    match entry {
                        Some(queued) => Some(queued@),
                        None => None,
                    },
                ),
            ),
    {
        let existing = match self.inbound_event(&event.id) {
            Some(existing) => existing,
            None => return Ok(()),
        };
        if existing.received_at_unix != event.received_at_unix {
            return Err(
                join3("conflicting inbound event ", event.id.as_str(), " received_at_unix"),
            );
        }
        match (self.message_record_for_event(&event.id), entry) {
            (Some(recorded), Some(queued)) => {
                if recorded.has_same_identity(queued) {
                    Ok(())
                } else {
                    Err(crate::text::join2("conflicting queued message event ", event.id.as_str()))
                }
            },
            (Some(_), None) => Err(
                join3(
                    "duplicate inbound event ",
                    event.id.as_str(),
                    " conflicts with a queued message record",
                ),
            ),
            (None, Some(_)) => Err(
                join3(
                    "duplicate inbound message event ",
                    event.id.as_str(),
                    " has no queued message record",
                ),
            ),
            (None, None) => Ok(()),
        }
    }

    /// Enters an event in the ledger, and its message in the queue.
    pub fn record_inbound_event(&mut self, event: &Event) -> (r: Result<
        InboundEventRecordStatus,
        String,
    >)
        ensures
            exists|now: u64|
                gives_record_status(
                    r,
                    old(self)@,
                    final(self)@,
                    #[trigger] old(self)@.recorded(event@, now),
                ),
    {
        self.record_inbound_event_at(event, unix_seconds_now())
    }

    /// Enters an event in the ledger at `recorded_at_unix`, and its message in the
    /// queue.
    pub fn record_inbound_event_at(&mut self, event: &Event, recorded_at_unix: u64) -> (r: Result<
        InboundEventRecordStatus,
        String,
    >)
        ensures
            gives_record_status(
                r,
                old(self)@,
                final(self)@,
                old(self)@.recorded(event@, recorded_at_unix),
            ),
    {
        let ghost before = self@;
        let entry = match self.queued_message_for_event(event, recorded_at_unix) {
            Ok(entry) => entry,
            Err(e) => return Err(e),
        };
        match self.check_duplicate(event, &entry) {
            Ok(()) => {},
            Err(e) => return Err(e),
        }
        if self.has_inbound_event(&event.id) {
            return Ok(InboundEventRecordStatus::Duplicate);
        }
        let record = InboundEventRecord::from_event(event, recorded_at_unix);
        let recorded_at: u64 = record.recorded_at_unix;
        self.inbound_events.push(record);
        assert(self@.inbound_events =~= before.inbound_events.push(record@));
        if let Some(queued) = entry {
            self.touch_at(queued.enqueued_at_unix);
            let ghost queue = self@.queued_messages;
            self.queued_messages.push(queued);
            assert(self@.queued_messages =~= queue.push(queued@));
        }
        self.touch_at(recorded_at);
        Ok(InboundEventRecordStatus::Recorded)
    }

    /// The sessions of the active runs.
    fn active_sessions(&self) -> (r: Vec<SessionId>)
        ensures
            crate::keyed::views(r@) == busy_sessions(self@.runs),
    {
        let ghost runs = self@.runs;
        let mut sessions: Vec<SessionId> = Vec::new();
        assert(crate::keyed::views(sessions@) =~= Seq::empty());
        let mut i: usize = 0;
        while i < self.runs.len()
            invariant
                i <= self.runs@.len(),
                runs == self@.runs,
                crate::keyed::views(sessions@) == busy_sessions(runs.take(i as int)),
            decreases self.runs@.len() - i,
        {
            proof {
                assert(runs.take(i + 1).drop_last() =~= runs.take(i as int));
                assert(runs.take(i + 1).last() == runs[i as int]);
            }
            if !self.runs[i].is_terminal() {
                let ghost before = sessions@;
                sessions.push(self.runs[i].session_id.clone());
                assert(crate::keyed::views(sessions@) =~= crate::keyed::views(before).push(
                    runs[i as int].session_id,
                ));
            }
            i = i + 1;
        }
        assert(runs.take(runs.len() as int) =~= runs);
        sessions
    }

    /// Takes messages out of the queue.
    fn release_messages(&mut self, taken: &Vec<QueuedMessage>)
        ensures
            final(self)@ == (StateView {
                queued_messages: released(
                    old(self)@.queued_messages,
                    crate::keyed::views(taken@),
                ),
                ..old(self)@
            }),
    {
        let ghost queue = self@.queued_messages;
        let mut kept: Vec<QueuedMessage> = Vec::new();
        assert(crate::keyed::views(kept@) =~= Seq::empty());
        let mut i: usize = 0;
        while i < self.queued_messages.len()
            invariant
                i <= self.queued_messages@.len(),
                queue == self@.queued_messages,
                crate::keyed::views(kept@) == released(
                    queue.take(i as int),
                    crate::keyed::views(taken@),
                ),
            decreases self.queued_messages@.len() - i,
        {
            proof {
                assert(queue.take(i + 1).drop_last() =~= queue.take(i as int));
                assert(queue.take(i + 1).last() == queue[i as int]);
            }
            if find_record(taken, &self.queued_messages[i].event_id.text).is_none() {
                let ghost before = kept@;
                kept.push(self.queued_messages[i].clone());
                assert(crate::keyed::views(kept@) =~= crate::keyed::views(before).push(
                    queue[i as int],
                ));
            }
            i = i + 1;
        }
        assert(queue.take(queue.len() as int) =~= queue);
        self.queued_messages = kept;
    }

    /// Starts a run on the first batch of waiting messages that is due and whose
    /// session has no active run.
    pub fn claim_message_batch(
        &mut self,
        run_id: RunId,
        policy: &MessageQueuePolicy,
        now_unix: u64,
    ) -> (r: Result<MessageBatchClaimOutcome, String>)
        ensures
            exists|clock: u64|
                gives_claim(
                    r,
                    old(self)@,
                    final(self)@,
                    #[trigger] old(self)@.batch_claimed(run_id@, *policy, now_unix, clock),
                ),
    {
        self.claim_message_batch_at(run_id, policy, now_unix, unix_seconds_now())
    }

    /// As [`RuntimeState::claim_message_batch`], with `clock` as the current time.
    pub fn claim_message_batch_at(
        &mut self,
        run_id: RunId,
        policy: &MessageQueuePolicy,
        now_unix: u64,
        clock: u64,
    ) -> (r: Result<MessageBatchClaimOutcome, String>)
        ensures
            gives_claim(
                r,
                old(self)@,
                final(self)@,
                old(self)@.batch_claimed(run_id@, *policy, now_unix, clock),
            ),
    {
        let busy = self.active_sessions();
        let batch = match policy.poll_where_free(&self.queued_messages, now_unix, &busy) {
            MessageQueuePoll::Ready(batch) => batch,
            MessageQueuePoll::Waiting { next_ready_at_unix } => {
                return Ok(MessageBatchClaimOutcome::Waiting { next_ready_at_unix });
            },
        };
        let run = RunRecord::new(run_id.clone(), batch.session_id.clone(), now_unix);
        let input = match RunInputRecord::from_batch(run_id, &batch, now_unix) {
            Ok(input) => input,
            Err(e) => return Err(e),
        };
        match self.add_run_at(run.clone(), clock) {
            Ok(()) => {},
            Err(e) => return Err(e),
        }
        self.release_messages(&input.messages);
        let ghost inputs = self@.run_inputs;
        self.run_inputs.push(input.clone());
        assert(self@.run_inputs =~= inputs.push(input@));
        self.touch_at(now_unix);
        Ok(MessageBatchClaimOutcome::Claimed { run, input })
    }
}

} // verus!

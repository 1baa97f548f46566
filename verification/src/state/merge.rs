//! Merging a snapshot with the state that is stored, so that what others have
//! made durable in the meantime is kept.
use vstd::prelude::*;

use super::model::{ClaimedMessage, RuntimeState};
use super::session_run::{later, later_of};
use super::view::{claims, ClaimedView, StateView};
use crate::event::{EventRecordView, InboundEventRecord};
use crate::keyed::{find_key, find_record, has_key, lookup, Keyed, Record};
use crate::outbox::{DeliveryView, OutboundDeliveryRecord};
use crate::queue::{QueuedMessage, QueuedView, RunInputRecord, RunInputView};
use crate::run::{RunRecord, RunView};
use crate::session::{Session, SessionId, SessionView};
use crate::text::join2;

verus! {

/// The latest of `base` and some times.
pub open spec fn latest(times: Seq<u64>, base: u64) -> u64
    decreases times.len(),
{
    if times.len() == 0 {
        base
    } else {
        later_of(latest(times.drop_last(), base), times.last())
    }
}

/// The stored records, followed by the candidates that are not among them.
pub open spec fn merged<T: Keyed>(stored: Seq<T>, candidates: Seq<T>) -> Seq<T>
    decreases candidates.len(),
{
    if candidates.len() == 0 {
        stored
    } else {
        let before = merged(stored, candidates.drop_last());
        if has_key(stored, candidates.last().key()) {
            before
        } else {
            before.push(candidates.last())
        }
    }
}

/// A candidate that is stored under its key with another content.
pub open spec fn conflict<T: Keyed>(stored: Seq<T>, candidate: T, what: Seq<char>) -> Option<
    Seq<char>,
> {
    match lookup(stored, candidate.key()) {
        Some(record) => if record == candidate {
            None
        } else {
            Some(what + candidate.key())
        },
        None => None,
    }
}

/// The first candidate that is stored with another content.
pub open spec fn conflicts<T: Keyed>(stored: Seq<T>, candidates: Seq<T>, what: Seq<char>) -> Option<
    Seq<char>,
> {
    crate::fault::first_fault(candidates.len(), |i: int| conflict(stored, candidates[i], what))
}

/// The stored runs, each at the later of its stages, followed by the candidates
/// that are not among them, or the run whose two records contradict each other.
pub open spec fn merged_runs(stored: Seq<RunView>, candidates: Seq<RunView>) -> Result<
    Seq<RunView>,
    Seq<char>,
>
    decreases candidates.len(),
{
    if candidates.len() == 0 {
        Ok(stored)
    } else {
        match merged_runs(stored, candidates.drop_last()) {
            Err(e) => Err(e),
            Ok(before) => {
                let run = candidates.last();
                match find_key(before, run.id) {
                    None => Ok(before.push(run)),
                    Some(i) => if before[i] == run || before[i].descends_from(run) {
                        Ok(before)
                    } else if run.descends_from(before[i]) {
                        Ok(before.update(i, run))
                    } else {
                        Err("conflicting run record "@ + run.id)
                    },
                }
            },
        }
    }
}

/// The queue time of the last entry of a session.
pub open spec fn last_queued(queue: Seq<QueuedView>, session_id: Seq<char>) -> Option<u64>
    decreases queue.len(),
{
    if queue.len() == 0 {
        None
    } else if queue.last().session_id == session_id {
        Some(queue.last().enqueued_at_unix)
    } else {
        last_queued(queue.drop_last(), session_id)
    }
}

/// The queue time of the last message that was taken for a session.
pub open spec fn last_claimed(taken: Seq<ClaimedView>, session_id: Seq<char>) -> Option<u64>
    decreases taken.len(),
{
    if taken.len() == 0 {
        None
    } else if taken.last().session_id == session_id {
        Some(taken.last().message.enqueued_at_unix)
    } else {
        last_claimed(taken.drop_last(), session_id)
    }
}

/// A candidate for the end of `queue`, queued no earlier than the session's last
/// message, which stands in the queue or was taken.
pub open spec fn behind_tail(
    taken: Seq<ClaimedView>,
    queue: Seq<QueuedView>,
    candidate: QueuedView,
) -> QueuedView {
    match last_queued(queue, candidate.session_id) {
        Some(t) => candidate.rebased(t),
        None => match last_claimed(taken, candidate.session_id) {
            Some(t) => candidate.rebased(t),
            None => candidate,
        },
    }
}

impl StateView {
    /// How the event at `i` contradicts what `stored` records of it.
    pub open spec fn shared_event_fault(self, stored: StateView, i: int) -> Option<Seq<char>> {
        let event = self.inbound_events[i];
        match lookup(stored.inbound_events, event.id) {
            None => None,
            Some(record) => if record != event {
                Some("conflicting inbound event record "@ + event.id)
            } else {
                match (stored.message_record(event.id), self.message_record(event.id)) {
                    (Some(a), Some(b)) => if a.same_identity(b) {
                        None
                    } else {
                        Some("conflicting inbound event queue identity "@ + event.id)
                    },
                    (None, None) => None,
                    _ => Some("conflicting inbound event queue identity "@ + event.id),
                }
            },
        }
    }

    /// The first event that contradicts what `stored` records of it.
    pub open spec fn shared_events_fault(self, stored: StateView) -> Option<Seq<char>> {
        crate::fault::first_fault(
            self.inbound_events.len(),
            |i: int| self.shared_event_fault(stored, i),
        )
    }

    /// This state with the stored ledger in front of its own new entries.
    pub open spec fn events_preserved(self, stored: StateView) -> Result<StateView, Seq<char>> {
        match conflicts(
            stored.inbound_events,
            self.inbound_events,
            "conflicting inbound event record "@,
        ) {
            Some(e) => Err(e),
            None => {
                let events = merged(stored.inbound_events, self.inbound_events);
                Ok(
                    StateView { inbound_events: events, ..self }.touched(
                        latest(
                            Seq::new(events.len(), |i: int| events[i].recorded_at_unix),
                            self.updated_at_unix,
                        ),
                    ),
                )
            },
        }
    }

    /// This state with every stored run kept, each at the later of its stages.
    pub open spec fn runs_preserved(self, stored: StateView) -> Result<StateView, Seq<char>> {
        match merged_runs(stored.runs, self.runs) {
            Err(e) => Err(e),
            Ok(runs) => Ok(
                StateView { runs, ..self }.touched(
                    latest(
                        Seq::new(runs.len(), |i: int| runs[i].updated_at_unix),
                        self.updated_at_unix,
                    ),
                ),
            ),
        }
    }

    /// This state with every stored run input kept.
    pub open spec fn run_inputs_preserved(self, stored: StateView) -> Result<
        StateView,
        Seq<char>,
    > {
        match conflicts(stored.run_inputs, self.run_inputs, "conflicting run input record "@) {
            Some(e) => Err(e),
            None => {
                let inputs = merged(stored.run_inputs, self.run_inputs);
                Ok(
                    StateView { run_inputs: inputs, ..self }.touched(
                        latest(
                            Seq::new(inputs.len(), |i: int| inputs[i].claimed_at_unix),
                            self.updated_at_unix,
                        ),
                    ),
                )
            },
        }
    }

    /// This state with every stored delivery kept.
    pub open spec fn deliveries_preserved(self, stored: StateView) -> Result<
        StateView,
        Seq<char>,
    > {
        match conflicts(
            stored.outbound_deliveries,
            self.outbound_deliveries,
            "conflicting outbound delivery "@,
        ) {
            Some(e) => Err(e),
            None => {
                let deliveries = merged(stored.outbound_deliveries, self.outbound_deliveries);
                Ok(
                    StateView { outbound_deliveries: deliveries, ..self }.touched(
                        latest(
                            Seq::new(deliveries.len(), |i: int| deliveries[i].updated_at_unix),
                            self.updated_at_unix,
                        ),
                    ),
                )
            },
        }
    }

    /// A queue entry contradicts the message that a run has taken for its event.
    pub open spec fn claim_conflict(self, queued: QueuedView) -> Option<Seq<char>> {
        match self.claimed_message(queued.event_id) {
            Some(claimed) => if claimed.same_identity(queued) {
                None
            } else {
                Some("conflicting claimed message event "@ + queued.event_id)
            },
            None => None,
        }
    }

    /// The entries of `queue` that no run has taken.
    pub open spec fn still_queued(self, queue: Seq<QueuedView>) -> Seq<QueuedView>
        decreases queue.len(),
    {
        if queue.len() == 0 {
            Seq::empty()
        } else if self.claimed_message(queue.last().event_id) is Some {
            self.still_queued(queue.drop_last())
        } else {
            self.still_queued(queue.drop_last()).push(queue.last())
        }
    }

    /// A queue entry contradicts a taken message, or a stored queue entry.
    pub open spec fn queued_conflict(self, stored: StateView, queued: QueuedView) -> Option<
        Seq<char>,
    > {
        if self.claimed_message(queued.event_id) is Some {
            self.claim_conflict(queued)
        } else {
            match lookup(stored.queued_messages, queued.event_id) {
                Some(other) => if other.same_identity(queued) {
                    None
                } else {
                    Some("conflicting queued message event "@ + queued.event_id)
                },
                None => None,
            }
        }
    }

    /// `front`, followed by the candidates that no run has taken and that are not
    /// stored in the queue, each behind the last message of its session.
    pub open spec fn queue_extended(
        self,
        stored: StateView,
        front: Seq<QueuedView>,
        candidates: Seq<QueuedView>,
    ) -> Seq<QueuedView>
        decreases candidates.len(),
    {
        if candidates.len() == 0 {
            front
        } else {
            let before = self.queue_extended(stored, front, candidates.drop_last());
            let queued = candidates.last();
            if self.claimed_message(queued.event_id) is Some || has_key(
                stored.queued_messages,
                queued.event_id,
            ) {
                before
            } else {
                before.push(behind_tail(claims(self.run_inputs), before, queued))
            }
        }
    }

    /// Why the queues contradict each other, if they do.
    pub open spec fn queues_fault(self, stored: StateView) -> Option<Seq<char>> {
        crate::fault::first_of(
            crate::fault::first_fault(
                stored.queued_messages.len(),
                |i: int| self.claim_conflict(stored.queued_messages[i]),
            ),
            crate::fault::first_fault(
                self.queued_messages.len(),
                |i: int| self.queued_conflict(stored, self.queued_messages[i]),
            ),
        )
    }

    /// The stored queue without what was taken, followed by this state's own new
    /// entries.
    pub open spec fn queue_merged(self, stored: StateView) -> Seq<QueuedView> {
        self.queue_extended(
            stored,
            self.still_queued(stored.queued_messages),
            self.queued_messages,
        )
    }

    /// This state with every stored queue entry kept, or taken by a run.
    pub open spec fn queue_preserved(self, stored: StateView) -> Result<StateView, Seq<char>> {
        match self.queues_fault(stored) {
            Some(e) => Err(e),
            None => {
                let queue = self.queue_merged(stored);
                Ok(
                    StateView { queued_messages: queue, ..self }.touched(
                        latest(
                            Seq::new(queue.len(), |i: int| queue[i].enqueued_at_unix),
                            self.updated_at_unix,
                        ),
                    ),
                )
            },
        }
    }
}

/// A record that can be stored: it can be copied and compared as a whole.
pub trait Stored: Record where <Self as View>::V: Keyed {
    fn copied(&self) -> (r: Self)
        ensures
            r@ == self@,
    ;

    fn equals(&self, other: &Self) -> (r: bool)
        ensures
            r == (self@ == other@),
    ;

    /// When the record was last written to.
    spec fn stamp(view: <Self as View>::V) -> u64;

    fn stamp_at_unix(&self) -> (r: u64)
        ensures
            r == Self::stamp(self@),
    ;
}

impl Stored for Session {
    fn copied(&self) -> (r: Self) {
        self.clone()
    }

    fn equals(&self, other: &Self) -> (r: bool) {
        self.same(other)
    }

    open spec fn stamp(view: SessionView) -> u64 {
        view.updated_at_unix
    }

    fn stamp_at_unix(&self) -> (r: u64) {
        self.updated_at_unix
    }
}

impl Stored for InboundEventRecord {
    fn copied(&self) -> (r: Self) {
        self.clone()
    }

    fn equals(&self, other: &Self) -> (r: bool) {
        self.same(other)
    }

    open spec fn stamp(view: EventRecordView) -> u64 {
        view.recorded_at_unix
    }

    fn stamp_at_unix(&self) -> (r: u64) {
        self.recorded_at_unix
    }
}

impl Stored for RunRecord {
    fn copied(&self) -> (r: Self) {
        self.clone()
    }

    fn equals(&self, other: &Self) -> (r: bool) {
        self.same(other)
    }

    open spec fn stamp(view: RunView) -> u64 {
        view.updated_at_unix
    }

    fn stamp_at_unix(&self) -> (r: u64) {
        self.updated_at_unix
    }
}

impl Stored for RunInputRecord {
    fn copied(&self) -> (r: Self) {
        self.clone()
    }

    fn equals(&self, other: &Self) -> (r: bool) {
        self.same(other)
    }

    open spec fn stamp(view: RunInputView) -> u64 {
        view.claimed_at_unix
    }

    fn stamp_at_unix(&self) -> (r: u64) {
        self.claimed_at_unix
    }
}

impl Stored for QueuedMessage {
    fn copied(&self) -> (r: Self) {
        self.clone()
    }

    fn equals(&self, other: &Self) -> (r: bool) {
        self.same(other)
    }

    open spec fn stamp(view: QueuedView) -> u64 {
        view.enqueued_at_unix
    }

    fn stamp_at_unix(&self) -> (r: u64) {
        self.enqueued_at_unix
    }
}

impl Stored for OutboundDeliveryRecord {
    fn copied(&self) -> (r: Self) {
        self.clone()
    }

    fn equals(&self, other: &Self) -> (r: bool) {
        self.same(other)
    }

    open spec fn stamp(view: DeliveryView) -> u64 {
        view.updated_at_unix
    }

    fn stamp_at_unix(&self) -> (r: u64) {
        self.updated_at_unix
    }
}

/// The stamps of some records.
pub open spec fn stamps<T: Stored>(items: Seq<T::V>) -> Seq<u64> where <T as View>::V: Keyed {
    Seq::new(items.len(), |i: int| T::stamp(items[i]))
}

/// The latest of `base` and the stamps of some records.
pub(crate) fn latest_stamp<T: Stored>(items: &Vec<T>, base: u64) -> (r: u64) where <T as View>::V: Keyed
    ensures
        r == latest(stamps::<T>(crate::keyed::views(items@)), base),
{
    let ghost times = stamps::<T>(crate::keyed::views(items@));
    let mut r: u64 = base;
    let mut i: usize = 0;
    while i < items.len()
        invariant
            i <= items@.len(),
            times == stamps::<T>(crate::keyed::views(items@)),
            r == latest(times.take(i as int), base),
        decreases items@.len() - i,
    {
        proof {
            assert(times.take(i + 1).drop_last() =~= times.take(i as int));
            assert(times.take(i + 1).last() == T::stamp(items@[i as int]@));
        }
        r = later(r, items[i].stamp_at_unix());
        i = i + 1;
    }
    assert(times.take(times.len() as int) =~= times);
    r
}

/// Merges candidates into stored records.
fn merge_records<T: Stored>(stored: &Vec<T>, candidates: &Vec<T>, what: &str) -> (r: Result<
    Vec<T>,
    String,
>) where <T as View>::V: Keyed
    ensures
        match r {
            Ok(records) => {
                &&& conflicts(
                    crate::keyed::views(stored@),
                    crate::keyed::views(candidates@),
                    what@,
                ) is None
                &&& crate::keyed::views(records@) == merged(
                    crate::keyed::views(stored@),
                    crate::keyed::views(candidates@),
                )
            },
            Err(e) => conflicts(
                crate::keyed::views(stored@),
                crate::keyed::views(candidates@),
                what@,
            ) == Some(e@),
        },
{
    let ghost stored_views = crate::keyed::views(stored@);
    let ghost new_views = crate::keyed::views(candidates@);
    let ghost fault_at = |i: int| conflict(stored_views, new_views[i], what@);
    let mut records: Vec<T> = Vec::new();
    let mut k: usize = 0;
    while k < stored.len()
        invariant
            k <= stored@.len(),
            stored_views == crate::keyed::views(stored@),
            crate::keyed::views(records@) == stored_views.take(k as int),
        decreases stored@.len() - k,
    {
        let ghost before = records@;
        records.push(stored[k].copied());
        assert(crate::keyed::views(records@) =~= crate::keyed::views(before).push(
            stored_views[k as int],
        ));
        assert(stored_views.take(k + 1) =~= stored_views.take(k as int).push(
            stored_views[k as int],
        ));
        k = k + 1;
    }
    assert(stored_views.take(stored_views.len() as int) =~= stored_views);
    assert(crate::keyed::views(records@) =~= stored_views);
    assert(merged(stored_views, new_views.take(0)) =~= stored_views);
    let mut i: usize = 0;
    while i < candidates.len()
        invariant
            i <= candidates@.len(),
            stored_views == crate::keyed::views(stored@),
            new_views == crate::keyed::views(candidates@),
            fault_at == (|i: int| conflict(stored_views, new_views[i], what@)),
            forall|j: int| 0 <= j < i ==> (#[trigger] fault_at(j)) is None,
            crate::keyed::views(records@) == merged(stored_views, new_views.take(i as int)),
        decreases candidates@.len() - i,
    {
        proof {
            assert(new_views.take(i + 1).drop_last() =~= new_views.take(i as int));
            assert(new_views.take(i + 1).last() == new_views[i as int]);
        }
        match find_record(stored, candidates[i].key_text()) {
            Some(k) => {
                if !stored[k].equals(&candidates[i]) {
                    let e = join2(what, candidates[i].key_text().as_str());
                    proof {
                        assert(fault_at(i as int) == Some(e@));
                        crate::fault::lemma_first_fault(new_views.len(), fault_at, i as int);
                    }
                    return Err(e);
                }
            },
            None => {
                let ghost before = records@;
                records.push(candidates[i].copied());
                assert(crate::keyed::views(records@) =~= crate::keyed::views(before).push(
                    new_views[i as int],
                ));
            },
        }
        assert(fault_at(i as int) is None);
        i = i + 1;
    }
    proof {
        crate::fault::lemma_no_fault(new_views.len(), fault_at);
        assert(new_views.take(new_views.len() as int) =~= new_views);
    }
    Ok(records)
}

/// Merges the runs of a snapshot into the stored runs.
fn merge_runs(stored: &Vec<RunRecord>, candidates: &Vec<RunRecord>) -> (r: Result<
    Vec<RunRecord>,
    String,
>)
    ensures
        match r {
            Ok(runs) => merged_runs(
                crate::keyed::views(stored@),
                crate::keyed::views(candidates@),
            ) == Ok::<Seq<RunView>, Seq<char>>(crate::keyed::views(runs@)),
            Err(e) => merged_runs(crate::keyed::views(stored@), crate::keyed::views(candidates@))
                == Err::<Seq<RunView>, Seq<char>>(e@),
        },
{
    let ghost stored_views = crate::keyed::views(stored@);
    let ghost new_views = crate::keyed::views(candidates@);
    let mut runs = stored.clone();
    assert(crate::keyed::views(runs@) =~= stored_views);
    let mut i: usize = 0;
    while i < candidates.len()
        invariant
            i <= candidates@.len(),
            stored_views == crate::keyed::views(stored@),
            new_views == crate::keyed::views(candidates@),
            merged_runs(stored_views, new_views.take(i as int)) == Ok::<Seq<RunView>, Seq<char>>(
                crate::keyed::views(runs@),
            ),
        decreases candidates@.len() - i,
    {
        proof {
            assert(new_views.take(i + 1).drop_last() =~= new_views.take(i as int));
            assert(new_views.take(i + 1).last() == new_views[i as int]);
        }
        let run = &candidates[i];
        let ghost before = runs@;
        match find_record(&runs, &run.id.text) {
            Some(k) => {
                if runs[k].same(run) || runs[k].is_descendant_of(run) {
                } else if run.is_descendant_of(&runs[k]) {
                    runs[k] = run.clone();
                    assert(crate::keyed::views(runs@) =~= crate::keyed::views(before).update(
                        k as int,
                        new_views[i as int],
                    ));
                } else {
                    let e = join2("conflicting run record ", run.id.as_str());
                    proof {
                        lemma_run_conflict_stands(stored_views, new_views, i + 1);
                    }
                    return Err(e);
                }
            },
            None => {
                runs.push(run.clone());
                assert(crate::keyed::views(runs@) =~= crate::keyed::views(before).push(
                    new_views[i as int],
                ));
            },
        }
        i = i + 1;
    }
    assert(new_views.take(new_views.len() as int) =~= new_views);
    Ok(runs)
}

/// A conflict among the first candidates is that of all.
proof fn lemma_run_conflict_stands(stored: Seq<RunView>, candidates: Seq<RunView>, n: int)
    requires
        0 <= n <= candidates.len(),
        merged_runs(stored, candidates.take(n)) is Err,
    ensures
        merged_runs(stored, candidates) == merged_runs(stored, candidates.take(n)),
    decreases candidates.len(),
{
    if n < candidates.len() {
        assert(candidates.drop_last().take(n) =~= candidates.take(n));
        lemma_run_conflict_stands(stored, candidates.drop_last(), n);
    } else {
        assert(candidates.take(n) =~= candidates);
    }
}

/// The queue time of the last entry of a session.
fn last_queued_at(queue: &Vec<QueuedMessage>, session_id: &SessionId) -> (r: Option<u64>)
    ensures
        r == last_queued(crate::keyed::views(queue@), session_id@),
{
    let ghost entries = crate::keyed::views(queue@);
    let mut i: usize = queue.len();
    assert(entries.take(entries.len() as int) =~= entries);
    while i > 0
        invariant
            i <= queue@.len(),
            entries == crate::keyed::views(queue@),
            last_queued(entries, session_id@) == last_queued(entries.take(i as int), session_id@),
        decreases i,
    {
        proof {
            assert(entries.take(i as int).drop_last() =~= entries.take(i - 1));
            assert(entries.take(i as int).last() == entries[i - 1]);
        }
        i = i - 1;
        if queue[i].session_id.same(session_id) {
            return Some(queue[i].enqueued_at_unix);
        }
    }
    None
}

/// The queue time of the last message that was taken for a session.
fn last_claimed_at(taken: &Vec<ClaimedMessage<'_>>, session_id: &SessionId) -> (r: Option<u64>)
    ensures
        r == last_claimed(crate::keyed::views(taken@), session_id@),
{
    let ghost entries = crate::keyed::views(taken@);
    let mut i: usize = taken.len();
    assert(entries.take(entries.len() as int) =~= entries);
    while i > 0
        invariant
            i <= taken@.len(),
            entries == crate::keyed::views(taken@),
            last_claimed(entries, session_id@) == last_claimed(
                entries.take(i as int),
                session_id@,
            ),
        decreases i,
    {
        proof {
            assert(entries.take(i as int).drop_last() =~= entries.take(i - 1));
            assert(entries.take(i as int).last() == entries[i - 1]);
        }
        i = i - 1;
        if taken[i].session_id.same(session_id) {
            return Some(taken[i].message.enqueued_at_unix);
        }
    }
    None
}

impl RuntimeState {
    /// Checks that the events of this state that are stored too are recorded there
    /// alike, with the same message.
    pub fn validate_shared_inbound_event_identity(&self, existing: &RuntimeState) -> (r: Result<
        (),
        String,
    >)
        ensures
            crate::fault::reports(r, self@.shared_events_fault(existing@)),
    {
        let ghost fault_at = |i: int| self@.shared_event_fault(existing@, i);
        let mut i: usize = 0;
        while i < self.inbound_events.len()
            invariant
                i <= self.inbound_events@.len(),
                fault_at == (|i: int| self@.shared_event_fault(existing@, i)),
                forall|j: int| 0 <= j < i ==> (#[trigger] fault_at(j)) is None,
            decreases self.inbound_events@.len() - i,
        {
            match self.check_shared_event(existing, i) {
                Ok(()) => {
                    assert(fault_at(i as int) is None);
                },
                Err(e) => {
                    proof {
                        assert(fault_at(i as int) == Some(e@));
                        crate::fault::lemma_first_fault(
                            self@.inbound_events.len(),
                            fault_at,
                            i as int,
                        );
                    }
                    return Err(e);
                },
            }
            i = i + 1;
        }
        proof {
            crate::fault::lemma_no_fault(self@.inbound_events.len(), fault_at);
        }
        Ok(())
    }

    fn check_shared_event(&self, existing: &RuntimeState, i: usize) -> (r: Result<(), String>)
        requires
            i < self.inbound_events@.len(),
        ensures
            crate::fault::reports(r, self@.shared_event_fault(existing@, i as int)),
    {
        let event = &self.inbound_events[i];
        let record = match existing.inbound_event(&event.id) {
            Some(record) => record,
            None => return Ok(()),
        };
        if !record.same(event) {
            return Err(join2("conflicting inbound event record ", event.id.as_str()));
        }
        let alike = match (
            existing.message_record_for_event(&event.id),
            self.message_record_for_event(&event.id),
        ) {
            (Some(a), Some(b)) => a.has_same_identity(b),
            (None, None) => true,
            _ => false,
        };
        if !alike {
            return Err(join2("conflicting inbound event queue identity ", event.id.as_str()));
        }
        Ok(())
    }

    /// Puts the stored ledger in front of this state's own new entries.
    pub fn preserve_inbound_events_from(&mut self, existing: &RuntimeState) -> (r: Result<
        (),
        String,
    >)
        ensures
            crate::fault::applies(
                r,
                old(self)@,
                final(self)@,
                old(self)@.events_preserved(existing@),
            ),
    {
        let records = match merge_records(
            &existing.inbound_events,
            &self.inbound_events,
            "conflicting inbound event record ",
        ) {
            Ok(records) => records,
            Err(e) => return Err(e),
        };
        let latest_at: u64 = latest_stamp(&records, self.updated_at_unix);
        self.inbound_events = records;
        proof {
            let events = self@.inbound_events;
            assert(stamps::<InboundEventRecord>(events) =~= Seq::new(
                events.len(),
                |i: int| events[i].recorded_at_unix,
            ));
        }
        self.touch_at(latest_at);
        Ok(())
    }

    /// Keeps every stored run, each at the later of its stages.
    pub fn preserve_runs_from(&mut self, existing: &RuntimeState) -> (r: Result<(), String>)
        ensures
            crate::fault::applies(
                r,
                old(self)@,
                final(self)@,
                old(self)@.runs_preserved(existing@),
            ),
    {
        let runs = match merge_runs(&existing.runs, &self.runs) {
            Ok(runs) => runs,
            Err(e) => return Err(e),
        };
        let latest_at: u64 = latest_stamp(&runs, self.updated_at_unix);
        self.runs = runs;
        proof {
            let runs = self@.runs;
            assert(stamps::<RunRecord>(runs) =~= Seq::new(
                runs.len(),
                |i: int| runs[i].updated_at_unix,
            ));
        }
        self.touch_at(latest_at);
        Ok(())
    }

    /// Keeps every stored run input.
    pub fn preserve_run_inputs_from(&mut self, existing: &RuntimeState) -> (r: Result<(), String>)
        ensures
            crate::fault::applies(
                r,
                old(self)@,
                final(self)@,
                old(self)@.run_inputs_preserved(existing@),
            ),
    {
        let inputs = match merge_records(
            &existing.run_inputs,
            &self.run_inputs,
            "conflicting run input record ",
        ) {
            Ok(inputs) => inputs,
            Err(e) => return Err(e),
        };
        let latest_at: u64 = latest_stamp(&inputs, self.updated_at_unix);
        self.run_inputs = inputs;
        proof {
            let inputs = self@.run_inputs;
            assert(stamps::<RunInputRecord>(inputs) =~= Seq::new(
                inputs.len(),
                |i: int| inputs[i].claimed_at_unix,
            ));
        }
        self.touch_at(latest_at);
        Ok(())
    }

    /// Keeps every stored delivery.
    pub fn preserve_outbound_deliveries_from(&mut self, existing: &RuntimeState) -> (r: Result<
        (),
        String,
    >)
        ensures
            crate::fault::applies(
                r,
                old(self)@,
                final(self)@,
                old(self)@.deliveries_preserved(existing@),
            ),
    {
        let deliveries = match merge_records(
            &existing.outbound_deliveries,
            &self.outbound_deliveries,
            "conflicting outbound delivery ",
        ) {
            Ok(deliveries) => deliveries,
            Err(e) => return Err(e),
        };
        let latest_at: u64 = latest_stamp(&deliveries, self.updated_at_unix);
        self.outbound_deliveries = deliveries;
        proof {
            let deliveries = self@.outbound_deliveries;
            assert(stamps::<OutboundDeliveryRecord>(deliveries) =~= Seq::new(
                deliveries.len(),
                |i: int| deliveries[i].updated_at_unix,
            ));
        }
        self.touch_at(latest_at);
        Ok(())
    }

    /// The stored queue entries that no run has taken.
    fn keep_stored_queue(&self, existing: &RuntimeState) -> (r: Result<Vec<QueuedMessage>, String>)
        ensures
            ({
                let fault = crate::fault::first_fault(
                    existing@.queued_messages.len(),
                    |i: int| self@.claim_conflict(existing@.queued_messages[i]),
                );
                match r {
                    Ok(kept) => fault is None && crate::keyed::views(kept@) == self@.still_queued(
                        existing@.queued_messages,
                    ),
                    Err(e) => fault == Some(e@),
                }
            }),
    {
        let ghost queue = existing@.queued_messages;
        let ghost fault_at = |i: int| self@.claim_conflict(existing@.queued_messages[i]);
        let mut kept: Vec<QueuedMessage> = Vec::new();
        assert(crate::keyed::views(kept@) =~= self@.still_queued(queue.take(0)));
        let mut i: usize = 0;
        while i < existing.queued_messages.len()
            invariant
                i <= existing.queued_messages@.len(),
                queue == existing@.queued_messages,
                fault_at == (|i: int| self@.claim_conflict(existing@.queued_messages[i])),
                forall|j: int| 0 <= j < i ==> (#[trigger] fault_at(j)) is None,
                crate::keyed::views(kept@) == self@.still_queued(queue.take(i as int)),
            decreases existing.queued_messages@.len() - i,
        {
            proof {
                assert(queue.take(i + 1).drop_last() =~= queue.take(i as int));
                assert(queue.take(i + 1).last() == queue[i as int]);
            }
            let queued = &existing.queued_messages[i];
            match self.claimed_message_for_event(&queued.event_id) {
                Some(claimed) => {
                    if !claimed.has_same_identity(queued) {
                        let e = join2(
                            "conflicting claimed message event ",
                            queued.event_id.as_str(),
                        );
                        proof {
                            assert(fault_at(i as int) == Some(e@));
                            crate::fault::lemma_first_fault(queue.len(), fault_at, i as int);
                        }
                        return Err(e);
                    }
                },
                None => {
                    let ghost before = kept@;
                    kept.push(queued.clone());
                    assert(crate::keyed::views(kept@) =~= crate::keyed::views(before).push(
                        queue[i as int],
                    ));
                },
            }
            assert(fault_at(i as int) is None);
            i = i + 1;
        }
        proof {
            crate::fault::lemma_no_fault(queue.len(), fault_at);
            assert(queue.take(queue.len() as int) =~= queue);
        }
        Ok(kept)
    }

    /// Adds this state's own new queue entries behind `front`.
    fn extend_queue(&self, existing: &RuntimeState, front: Vec<QueuedMessage>) -> (r: Result<
        Vec<QueuedMessage>,
        String,
    >)
        ensures
            ({
                let fault = crate::fault::first_fault(
                    self@.queued_messages.len(),
                    |i: int| self@.queued_conflict(existing@, self@.queued_messages[i]),
                );
                match r {
                    Ok(queue) => fault is None && crate::keyed::views(queue@)
                        == self@.queue_extended(
                        existing@,
                        crate::keyed::views(front@),
                        self@.queued_messages,
                    ),
                    Err(e) => fault == Some(e@),
                }
            }),
    {
        let ghost candidates = self@.queued_messages;
        let ghost start = crate::keyed::views(front@);
        let ghost fault_at = |i: int| self@.queued_conflict(existing@, self@.queued_messages[i]);
        let taken = self.claimed_messages();
        let mut queue = front;
        assert(self@.queue_extended(existing@, start, candidates.take(0)) =~= start);
        let mut i: usize = 0;
        while i < self.queued_messages.len()
            invariant
                i <= self.queued_messages@.len(),
                candidates == self@.queued_messages,
                crate::keyed::views(taken@) == claims(self@.run_inputs),
                fault_at == (|i: int|
                    self@.queued_conflict(existing@, self@.queued_messages[i])),
                forall|j: int| 0 <= j < i ==> (#[trigger] fault_at(j)) is None,
                crate::keyed::views(queue@) == self@.queue_extended(
                    existing@,
                    start,
                    candidates.take(i as int),
                ),
            decreases self.queued_messages@.len() - i,
        {
            proof {
                assert(candidates.take(i + 1).drop_last() =~= candidates.take(i as int));
                assert(candidates.take(i + 1).last() == candidates[i as int]);
            }
            let queued = &self.queued_messages[i];
            match self.claimed_message_for_event(&queued.event_id) {
                Some(claimed) => {
                    if !claimed.has_same_identity(queued) {
                        let e = join2(
                            "conflicting claimed message event ",
                            queued.event_id.as_str(),
                        );
                        proof {
                            assert(fault_at(i as int) == Some(e@));
                            crate::fault::lemma_first_fault(candidates.len(), fault_at, i as int);
                        }
                        return Err(e);
                    }
                },
                None => {
                    match find_record(&existing.queued_messages, &queued.event_id.text) {
                        Some(k) => {
                            if !existing.queued_messages[k].has_same_identity(queued) {
                                let e = join2(
                                    "conflicting queued message event ",
                                    queued.event_id.as_str(),
                                );
                                proof {
                                    assert(fault_at(i as int) == Some(e@));
                                    crate::fault::lemma_first_fault(
                                        candidates.len(),
                                        fault_at,
                                        i as int,
                                    );
                                }
                                return Err(e);
                            }
                        },
                        None => {
                            let ghost before = queue@;
                            let mut added = queued.clone();
                            match last_queued_at(&queue, &queued.session_id) {
                                Some(t) => added.rebase_enqueued_at_unix(t),
                                None => {
                                    if let Some(t) = last_claimed_at(&taken, &queued.session_id) {
                                        added.rebase_enqueued_at_unix(t);
                                    }
                                },
                            }
                            let ghost placed = added@;
                            queue.push(added);
                            assert(crate::keyed::views(queue@) =~= crate::keyed::views(
                                before,
                            ).push(placed));
                        },
                    }
                },
            }
            assert(fault_at(i as int) is None);
            i = i + 1;
        }
        proof {
            crate::fault::lemma_no_fault(candidates.len(), fault_at);
            assert(candidates.take(candidates.len() as int) =~= candidates);
        }
        Ok(queue)
    }

    /// Keeps every stored queue entry that no run has taken, in front of this
    /// state's own new entries.
    pub fn preserve_queued_messages_from(&mut self, existing: &RuntimeState) -> (r: Result<
        (),
        String,
    >)
        ensures
            crate::fault::applies(
                r,
                old(self)@,
                final(self)@,
                old(self)@.queue_preserved(existing@),
            ),
    {
        let kept = match self.keep_stored_queue(existing) {
            Ok(kept) => kept,
            Err(e) => return Err(e),
        };
        let queue = match self.extend_queue(existing, kept) {
            Ok(queue) => queue,
            Err(e) => return Err(e),
        };
        let latest_at: u64 = latest_stamp(&queue, self.updated_at_unix);
        self.queued_messages = queue;
        proof {
            let queue = self@.queued_messages;
            assert(stamps::<QueuedMessage>(queue) =~= Seq::new(
                queue.len(),
                |i: int| queue[i].enqueued_at_unix,
            ));
        }
        self.touch_at(latest_at);
        Ok(())
    }
}

} // verus!

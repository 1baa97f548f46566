//! When a snapshot can be merged with what is stored, and what time the merged
//! state has.
use vstd::prelude::*;

use super::merge_contents_laws::{lemma_claimed, lemma_merged_is, lemma_merged_runs_are};
use super::merge_laws::lemma_merged_runs;
use crate::fault::lemma_no_fault;
use crate::keyed::{
    distinct_keys, find_key, has_key, lemma_filter_origin, lemma_find_key, lemma_find_own_key,
    lookup, Keyed,
};
use crate::message::MessageView;
use crate::queue::{QueuedView, RunInputView};
use crate::run::RunView;
use crate::state::inbound_laws::{lemma_message_record, lemma_recorded_messages_are_sound};
use crate::state::merge::{conflict, conflicts, merged, merged_runs};
use crate::state::persisted::lemma_latest;
use crate::state::validity::lemma_claims_before;
use crate::state::view::{claims, StateView};

verus! {

/// A message stands in the queue or in a run input under an event id, with these
/// contents.
pub open spec fn holds_message(
    s: StateView,
    event_id: Seq<char>,
    session_id: Seq<char>,
    message: MessageView,
    received_at_unix: u64,
) -> bool {
    ||| exists|i: int|
        {
            &&& 0 <= i < s.queued_messages.len()
            &&& (#[trigger] s.queued_messages[i]).event_id == event_id
            &&& s.queued_messages[i].session_id == session_id
            &&& s.queued_messages[i].message == message
            &&& s.queued_messages[i].received_at_unix == received_at_unix
        }
    ||| exists|k: int, j: int|
        {
            &&& 0 <= k < s.run_inputs.len()
            &&& 0 <= j < s.run_inputs[k].messages.len()
            &&& (#[trigger] s.run_inputs[k].messages[j]).event_id == event_id
            &&& s.run_inputs[k].messages[j].session_id == session_id
            &&& s.run_inputs[k].messages[j].message == message
            &&& s.run_inputs[k].messages[j].received_at_unix == received_at_unix
        }
}

/// A valid state holds, under an event id, the message that it records for it.
proof fn lemma_holds(
    s: StateView,
    event_id: Seq<char>,
    session_id: Seq<char>,
    message: MessageView,
    received_at_unix: u64,
)
    requires
        s.valid(),
    ensures
        holds_message(s, event_id, session_id, message, received_at_unix) <==> (s.message_record(
            event_id,
        ) matches Some(q) && q.session_id == session_id && q.message == message
            && q.received_at_unix == received_at_unix),
{
    lemma_message_record(s, event_id);
    if let Some(q) = s.message_record(event_id) {
        if exists|i: int|
            0 <= i < s.queued_messages.len() && (#[trigger] s.queued_messages[i]).event_id
                == event_id {
            let i = choose|i: int|
                0 <= i < s.queued_messages.len() && (#[trigger] s.queued_messages[i]).event_id
                    == event_id;
            assert(s.queued_messages[i] == q);
        } else {
            let (k, j) = choose|k: int, j: int|
                0 <= k < s.run_inputs.len() && 0 <= j < s.run_inputs[k].messages.len() && (
                #[trigger] s.run_inputs[k].messages[j]).event_id == event_id;
            assert(s.run_inputs[k].messages[j] == q);
        }
    }
}

/// Nothing conflicts exactly where what both sides have under one key is equal.
proof fn lemma_no_conflict<T: Keyed>(stored: Seq<T>, candidates: Seq<T>, what: Seq<char>)
    requires
        distinct_keys(stored),
    ensures
        conflicts(stored, candidates, what) is None <==> forall|i: int, j: int|
            0 <= i < stored.len() && 0 <= j < candidates.len() && (#[trigger] stored[i]).key() == (
            #[trigger] candidates[j]).key() ==> stored[i] == candidates[j],
{
    broadcast use lemma_find_key;

    let fault_at = |i: int| conflict(stored, candidates[i], what);
    lemma_no_fault(candidates.len(), fault_at);
    if conflicts(stored, candidates, what) is None {
        assert forall|i: int, j: int|
            0 <= i < stored.len() && 0 <= j < candidates.len() && (#[trigger] stored[i]).key() == (
            #[trigger] candidates[j]).key() implies stored[i] == candidates[j] by {
            assert(fault_at(j) is None);
            lemma_find_own_key(stored, i);
        }
    } else {
        let j = choose|j: int| 0 <= j < candidates.len() && (#[trigger] fault_at(j)) is Some;
        let i = find_key(stored, candidates[j].key())->Some_0;
        assert(stored[i].key() == candidates[j].key());
        assert(stored[i] != candidates[j]);
    }
}

/// Runs can be merged exactly where, of two records of one run, each is the other
/// or one is a later stage of the other.
proof fn lemma_runs_accepted(stored: Seq<RunView>, candidates: Seq<RunView>)
    requires
        distinct_keys(stored),
        distinct_keys(candidates),
        forall|i: int, j: int|
            0 <= i < stored.len() && 0 <= j < candidates.len() && (#[trigger] stored[i]).id == (
            #[trigger] candidates[j]).id ==> stored[i] == candidates[j]
                || stored[i].descends_from(candidates[j]) || candidates[j].descends_from(stored[i]),
    ensures
        merged_runs(stored, candidates) is Ok,
    decreases candidates.len(),
{
    if candidates.len() > 0 {
        let front = candidates.drop_last();
        let m = candidates.len() - 1;
        let run = candidates[m];
        let n = stored.len() as int;
        assert forall|i: int, j: int|
            0 <= i < stored.len() && 0 <= j < front.len() && (#[trigger] stored[i]).id == (
            #[trigger] front[j]).id implies stored[i] == front[j] || stored[i].descends_from(
            front[j],
        ) || front[j].descends_from(stored[i]) by {
            assert(front[j] == candidates[j]);
        }
        assert(distinct_keys(front)) by {
            assert forall|i: int, j: int| 0 <= i < j < front.len() implies (
            #[trigger] front[i]).key() != (#[trigger] front[j]).key() by {
                assert(candidates[i].key() != candidates[j].key());
            }
        }
        lemma_runs_accepted(stored, front);
        let before = merged_runs(stored, front)->Ok_0;
        lemma_merged_runs_are(stored, front, before);
        lemma_find_key(before, run.id);
        if let Some(k) = find_key(before, run.id) {
            if k >= n {
                let new = |c: RunView|
                    forall|i: int| 0 <= i < stored.len() ==> (#[trigger] stored[i]).id != c.id;
                assert(before.skip(n)[k - n] == before[k]);
                lemma_filter_origin(front, new, k - n);
                let j = front.index_of(before[k]);
                assert(candidates[j].key() != candidates[m].key());
            } else if before[k] != stored[k] {
                let j = front.index_of(before[k]);
                assert(candidates[j].key() != candidates[m].key());
            } else {
                assert(stored[k].id == candidates[m].id);
            }
        }
    }
}

/// Runs that were merged did not contradict each other.
proof fn lemma_merged_runs_agree(stored: Seq<RunView>, candidates: Seq<RunView>)
    requires
        distinct_keys(stored),
        distinct_keys(candidates),
        merged_runs(stored, candidates) is Ok,
    ensures
        forall|i: int, j: int|
            0 <= i < stored.len() && 0 <= j < candidates.len() && (#[trigger] stored[i]).id == (
            #[trigger] candidates[j]).id ==> stored[i] == candidates[j]
                || stored[i].descends_from(candidates[j]) || candidates[j].descends_from(stored[i]),
{
    let runs = merged_runs(stored, candidates)->Ok_0;
    lemma_merged_runs(stored, candidates);
    lemma_merged_runs_are(stored, candidates, runs);
    assert forall|i: int, j: int|
        0 <= i < stored.len() && 0 <= j < candidates.len() && (#[trigger] stored[i]).id == (
        #[trigger] candidates[j]).id implies stored[i] == candidates[j] || stored[i].descends_from(
        candidates[j],
    ) || candidates[j].descends_from(stored[i]) by {
        assert(runs[i].id == stored[i].id);
        lemma_find_own_key(runs, i);
        assert(lookup(runs, candidates[j].id) == Some(runs[i]));
    }
}

/// A snapshot agrees with the stored ledger exactly where each event that both record is
/// recorded alike, and both hold the same message for it or none.
pub proof fn law_shared_events(s: StateView, stored: StateView)
    requires
        s.valid(),
        stored.valid(),
    ensures
        s.shared_events_fault(stored) is None <==> forall|i: int, p: int|
            0 <= i < s.inbound_events.len() && 0 <= p < stored.inbound_events.len() && (
            #[trigger] s.inbound_events[i]).id == (#[trigger] stored.inbound_events[p]).id
                ==> s.inbound_events[i] == stored.inbound_events[p] && same_message(
                s,
                stored,
                s.inbound_events[i].id,
            ),
{
    broadcast use lemma_find_key;

    let fault_at = |i: int| s.shared_event_fault(stored, i);
    lemma_no_fault(s.inbound_events.len(), fault_at);
    if s.shared_events_fault(stored) is None {
        assert forall|i: int, p: int|
            0 <= i < s.inbound_events.len() && 0 <= p < stored.inbound_events.len() && (
            #[trigger] s.inbound_events[i]).id == (
            #[trigger] stored.inbound_events[p]).id implies s.inbound_events[i]
            == stored.inbound_events[p] && same_message(s, stored, s.inbound_events[i].id) by {
            assert(fault_at(i) is None);
            lemma_find_own_key(stored.inbound_events, p);
            lemma_same_message(s, stored, s.inbound_events[i].id);
        }
    } else {
        let i = choose|i: int|
            0 <= i < s.inbound_events.len() && (#[trigger] fault_at(i)) is Some;
        let p = find_key(stored.inbound_events, s.inbound_events[i].id)->Some_0;
        assert(stored.inbound_events[p].key() == s.inbound_events[i].id);
        assert(s.inbound_events[i].id == stored.inbound_events[p].id);
        lemma_same_message(s, stored, s.inbound_events[i].id);
    }
}

/// Both states hold the same message under an event id, or none.
pub open spec fn same_message(s: StateView, stored: StateView, event_id: Seq<char>) -> bool {
    forall|session_id: Seq<char>, message: MessageView, received_at_unix: u64|
        #![trigger holds_message(s, event_id, session_id, message, received_at_unix)]
        holds_message(s, event_id, session_id, message, received_at_unix) <==> holds_message(
            stored,
            event_id,
            session_id,
            message,
            received_at_unix,
        )
}

proof fn lemma_same_message(s: StateView, stored: StateView, event_id: Seq<char>)
    requires
        s.valid(),
        stored.valid(),
    ensures
        same_message(s, stored, event_id) <==> match (
            s.message_record(event_id),
            stored.message_record(event_id),
        ) {
            (Some(a), Some(b)) => a.same_identity(b),
            (None, None) => true,
            _ => false,
        },
{
    lemma_message_record(s, event_id);
    lemma_message_record(stored, event_id);
    assert forall|session_id: Seq<char>, message: MessageView, received_at_unix: u64|
        #![trigger holds_message(s, event_id, session_id, message, received_at_unix)]
        (holds_message(s, event_id, session_id, message, received_at_unix) <==> (s.message_record(
            event_id,
        ) matches Some(q) && q.session_id == session_id && q.message == message
            && q.received_at_unix == received_at_unix)) && (holds_message(
            stored,
            event_id,
            session_id,
            message,
            received_at_unix,
        ) <==> (stored.message_record(event_id) matches Some(q) && q.session_id == session_id
            && q.message == message && q.received_at_unix == received_at_unix)) by {
        lemma_holds(s, event_id, session_id, message, received_at_unix);
        lemma_holds(stored, event_id, session_id, message, received_at_unix);
    }
    if same_message(s, stored, event_id) {
        if let Some(a) = s.message_record(event_id) {
            assert(holds_message(s, event_id, a.session_id, a.message, a.received_at_unix));
        } else if let Some(b) = stored.message_record(event_id) {
            assert(!holds_message(s, event_id, b.session_id, b.message, b.received_at_unix));
        }
    }
}

/// Where the ledgers agree, two messages under one event id have one identity.
proof fn lemma_one_identity(
    s: StateView,
    stored: StateView,
    event_id: Seq<char>,
    a: QueuedView,
    b: QueuedView,
)
    requires
        s.valid(),
        stored.valid(),
        s.shared_events_fault(stored) is None,
        s.message_record(event_id) == Some(a),
        stored.message_record(event_id) == Some(b),
    ensures
        a.same_identity(b),
{
    broadcast use lemma_find_key;

    lemma_recorded_messages_are_sound(s, event_id);
    lemma_recorded_messages_are_sound(stored, event_id);
    lemma_message_record(s, event_id);
    lemma_message_record(stored, event_id);
    let i = find_key(s.inbound_events, event_id)->Some_0;
    let fault_at = |i: int| s.shared_event_fault(stored, i);
    lemma_no_fault(s.inbound_events.len(), fault_at);
    assert(fault_at(i) is None);
    assert(s.inbound_events[i].key() == event_id);
}

/// A message that the merged inputs hold is one that the snapshot holds or one
/// that is stored.
proof fn lemma_claimed_on_one_side(
    c: StateView,
    s: StateView,
    stored: StateView,
    event_id: Seq<char>,
)
    requires
        s.valid(),
        stored.valid(),
        c.run_inputs == merged(stored.run_inputs, s.run_inputs),
    ensures
        c.claimed_message(event_id) matches Some(q) ==> {
            ||| stored.claimed_message(event_id) is Some && stored.message_record(event_id)
                == Some(q) && !has_key(stored.queued_messages, event_id)
            ||| s.claimed_message(event_id) is Some && s.message_record(event_id) == Some(q)
                && !has_key(s.queued_messages, event_id)
        },
{
    broadcast use lemma_find_key;

    lemma_claimed(c, event_id);
    if let Some(q) = c.claimed_message(event_id) {
        let (k, j) = choose|k: int, j: int|
            0 <= k < c.run_inputs.len() && 0 <= j < c.run_inputs[k].messages.len() && (
            #[trigger] c.run_inputs[k].messages[j]).event_id == event_id
                && c.run_inputs[k].messages[j] == q;
        let new = |c: RunInputView|
            forall|i: int|
                0 <= i < stored.run_inputs.len() ==> (#[trigger] stored.run_inputs[i]).key()
                    != c.key();
        lemma_merged_is(stored.run_inputs, s.run_inputs);
        let n = stored.run_inputs.len() as int;
        if k < n {
            lemma_own_claim(stored, k, j);
        } else {
            lemma_filter_origin(s.run_inputs, new, k - n);
            let l = s.run_inputs.index_of(c.run_inputs[k]);
            lemma_own_claim(s, l, j);
        }
    }
}

/// In a valid state a taken message is the one under its event id, and it is not
/// queued.
proof fn lemma_own_claim(s: StateView, k: int, j: int)
    requires
        s.valid(),
        0 <= k < s.run_inputs.len(),
        0 <= j < s.run_inputs[k].messages.len(),
    ensures
        ({
            let q = s.run_inputs[k].messages[j];
            &&& s.claimed_message(q.event_id) == Some(q)
            &&& s.message_record(q.event_id) == Some(q)
            &&& !has_key(s.queued_messages, q.event_id)
        }),
{
    let taken = claims(s.run_inputs);
    lemma_claims_before(s.run_inputs, k, j);
    let n = claims(s.run_inputs.take(k)).len() + j;
    assert(!has_key(s.queued_messages, taken[n as int].message.event_id));
    lemma_find_own_key(taken, n as int);
}

/// Where the ledgers agree, so do the queues.
pub proof fn lemma_queues_agree(c: StateView, s: StateView, stored: StateView)
    requires
        s.valid(),
        stored.valid(),
        s.shared_events_fault(stored) is None,
        c.run_inputs == merged(stored.run_inputs, s.run_inputs),
        c.queued_messages == s.queued_messages,
    ensures
        c.queues_fault(stored) is None,
{
    broadcast use lemma_find_key;

    let stored_fault_at = |i: int| c.claim_conflict(stored.queued_messages[i]);
    assert forall|i: int| 0 <= i < stored.queued_messages.len() implies (
    #[trigger] stored_fault_at(i)) is None by {
        let queued = stored.queued_messages[i];
        lemma_claimed_on_one_side(c, s, stored, queued.event_id);
        lemma_message_record(stored, queued.event_id);
        if let Some(q) = c.claimed_message(queued.event_id) {
            assert(stored.queued_messages[i].key() == queued.event_id);
            lemma_one_identity(s, stored, queued.event_id, q, queued);
        }
    }
    lemma_no_fault(stored.queued_messages.len(), stored_fault_at);
    let own_fault_at = |i: int| c.queued_conflict(stored, c.queued_messages[i]);
    assert forall|i: int| 0 <= i < c.queued_messages.len() implies (
    #[trigger] own_fault_at(i)) is None by {
        let queued = s.queued_messages[i];
        lemma_claimed_on_one_side(c, s, stored, queued.event_id);
        lemma_message_record(s, queued.event_id);
        lemma_message_record(stored, queued.event_id);
        match c.claimed_message(queued.event_id) {
            Some(q) => {
                assert(s.queued_messages[i].key() == queued.event_id);
                lemma_one_identity(s, stored, queued.event_id, queued, q);
            },
            None => {
                if let Some(p) = find_key(stored.queued_messages, queued.event_id) {
                    let other = stored.queued_messages[p];
                    assert(other.event_id == queued.event_id);
                    lemma_one_identity(s, stored, queued.event_id, queued, other);
                }
            },
        }
    }
    lemma_no_fault(c.queued_messages.len(), own_fault_at);
}

/// Two valid states can be merged exactly where they do not contradict each other:
/// an event that is in both ledgers has the same record in both, and both states
/// hold the same message for it or none; of a run that both have, the records are
/// equal, or one is a later stage of the other; and run inputs and deliveries that
/// both have are equal.
pub proof fn law_merging_needs_agreement(s: StateView, stored: StateView)
    requires
        s.valid(),
        stored.valid(),
    ensures
        s.merged_with(stored) is Ok <==> {
            &&& forall|i: int, p: int|
                0 <= i < s.inbound_events.len() && 0 <= p < stored.inbound_events.len() && (
                #[trigger] s.inbound_events[i]).id == (#[trigger] stored.inbound_events[p]).id
                    ==> s.inbound_events[i] == stored.inbound_events[p] && same_message(
                    s,
                    stored,
                    s.inbound_events[i].id,
                )
            &&& forall|i: int, j: int|
                0 <= i < stored.runs.len() && 0 <= j < s.runs.len() && (
                #[trigger] stored.runs[i]).id == (#[trigger] s.runs[j]).id ==> stored.runs[i]
                    == s.runs[j] || stored.runs[i].descends_from(s.runs[j])
                    || s.runs[j].descends_from(stored.runs[i])
            &&& forall|i: int, j: int|
                0 <= i < stored.run_inputs.len() && 0 <= j < s.run_inputs.len() && (
                #[trigger] stored.run_inputs[i]).run_id == (#[trigger] s.run_inputs[j]).run_id
                    ==> stored.run_inputs[i] == s.run_inputs[j]
            &&& forall|i: int, j: int|
                0 <= i < stored.outbound_deliveries.len() && 0 <= j < s.outbound_deliveries.len()
                    && (#[trigger] stored.outbound_deliveries[i]).id == (
                #[trigger] s.outbound_deliveries[j]).id ==> stored.outbound_deliveries[i]
                    == s.outbound_deliveries[j]
        },
{
    law_shared_events(s, stored);
    lemma_no_conflict(stored.run_inputs, s.run_inputs, "conflicting run input record "@);
    lemma_no_conflict(stored.inbound_events, s.inbound_events, "conflicting inbound event record "@);
    lemma_no_conflict(
        stored.outbound_deliveries,
        s.outbound_deliveries,
        "conflicting outbound delivery "@,
    );
    lemma_keys_are_ids(s, stored);
    if merged_runs(stored.runs, s.runs) is Ok {
        lemma_merged_runs_agree(stored.runs, s.runs);
    }
    if forall|i: int, j: int|
        0 <= i < stored.runs.len() && 0 <= j < s.runs.len() && (#[trigger] stored.runs[i]).id == (
        #[trigger] s.runs[j]).id ==> stored.runs[i] == s.runs[j] || stored.runs[i].descends_from(
            s.runs[j],
        ) || s.runs[j].descends_from(stored.runs[i]) {
        lemma_runs_accepted(stored.runs, s.runs);
    }
    if s.shared_events_fault(stored) is None && merged_runs(stored.runs, s.runs) is Ok && conflicts(
        stored.run_inputs,
        s.run_inputs,
        "conflicting run input record "@,
    ) is None && conflicts(
        stored.inbound_events,
        s.inbound_events,
        "conflicting inbound event record "@,
    ) is None {
        let a = s.runs_preserved(stored)->Ok_0;
        let b = a.run_inputs_preserved(stored)->Ok_0;
        let c = b.events_preserved(stored)->Ok_0;
        lemma_queues_agree(c, s, stored);
    }
}

/// The keys by which records are compared are their ids.
proof fn lemma_keys_are_ids(s: StateView, stored: StateView)
    ensures
        forall|i: int| #[trigger] s.run_inputs[i].key() == s.run_inputs[i].run_id,
        forall|i: int| #[trigger] stored.run_inputs[i].key() == stored.run_inputs[i].run_id,
        forall|i: int| #[trigger] s.inbound_events[i].key() == s.inbound_events[i].id,
        forall|i: int| #[trigger] stored.inbound_events[i].key() == stored.inbound_events[i].id,
        forall|i: int| #[trigger] s.outbound_deliveries[i].key() == s.outbound_deliveries[i].id,
        forall|i: int|
            #[trigger] stored.outbound_deliveries[i].key() == stored.outbound_deliveries[i].id,
{
}

/// A merged state was last updated when the snapshot was, or when the latest of its
/// runs, run inputs, events, queue entries and deliveries was written, whichever is
/// later.
pub proof fn law_merged_time(s: StateView, stored: StateView, t: StateView)
    requires
        s.merged_with(stored) == Ok::<StateView, Seq<char>>(t),
    ensures
        s.updated_at_unix <= t.updated_at_unix,
        forall|i: int|
            0 <= i < t.runs.len() ==> (#[trigger] t.runs[i]).updated_at_unix <= t.updated_at_unix,
        forall|i: int|
            0 <= i < t.run_inputs.len() ==> (#[trigger] t.run_inputs[i]).claimed_at_unix
                <= t.updated_at_unix,
        forall|i: int|
            0 <= i < t.inbound_events.len() ==> (#[trigger] t.inbound_events[i]).recorded_at_unix
                <= t.updated_at_unix,
        forall|i: int|
            0 <= i < t.queued_messages.len() ==> (#[trigger] t.queued_messages[i]).enqueued_at_unix
                <= t.updated_at_unix,
        forall|i: int|
            0 <= i < t.outbound_deliveries.len() ==> (
            #[trigger] t.outbound_deliveries[i]).updated_at_unix <= t.updated_at_unix,
        ({
            ||| t.updated_at_unix == s.updated_at_unix
            ||| exists|i: int|
                0 <= i < t.runs.len() && (#[trigger] t.runs[i]).updated_at_unix == t.updated_at_unix
            ||| exists|i: int|
                0 <= i < t.run_inputs.len() && (#[trigger] t.run_inputs[i]).claimed_at_unix
                    == t.updated_at_unix
            ||| exists|i: int|
                0 <= i < t.inbound_events.len() && (#[trigger] t.inbound_events[i]).recorded_at_unix
                    == t.updated_at_unix
            ||| exists|i: int|
                0 <= i < t.queued_messages.len() && (
                #[trigger] t.queued_messages[i]).enqueued_at_unix == t.updated_at_unix
            ||| exists|i: int|
                0 <= i < t.outbound_deliveries.len() && (
                #[trigger] t.outbound_deliveries[i]).updated_at_unix == t.updated_at_unix
        }),
{
    let a = s.runs_preserved(stored)->Ok_0;
    let b = a.run_inputs_preserved(stored)->Ok_0;
    let c = b.events_preserved(stored)->Ok_0;
    let d = c.queue_preserved(stored)->Ok_0;
    let runs = Seq::new(t.runs.len(), |i: int| t.runs[i].updated_at_unix);
    let inputs = Seq::new(t.run_inputs.len(), |i: int| t.run_inputs[i].claimed_at_unix);
    let events = Seq::new(t.inbound_events.len(), |i: int| t.inbound_events[i].recorded_at_unix);
    let queue = Seq::new(t.queued_messages.len(), |i: int| t.queued_messages[i].enqueued_at_unix);
    let deliveries = Seq::new(
        t.outbound_deliveries.len(),
        |i: int| t.outbound_deliveries[i].updated_at_unix,
    );
    lemma_latest(runs, s.updated_at_unix);
    lemma_latest(inputs, a.updated_at_unix);
    lemma_latest(events, b.updated_at_unix);
    lemma_latest(queue, c.updated_at_unix);
    lemma_latest(deliveries, d.updated_at_unix);
    assert(forall|i: int| 0 <= i < runs.len() ==> runs[i] == (
    #[trigger] t.runs[i]).updated_at_unix);
    assert(forall|i: int| 0 <= i < inputs.len() ==> inputs[i] == (
    #[trigger] t.run_inputs[i]).claimed_at_unix);
    assert(forall|i: int| 0 <= i < events.len() ==> events[i] == (
    #[trigger] t.inbound_events[i]).recorded_at_unix);
    assert(forall|i: int| 0 <= i < queue.len() ==> queue[i] == (
    #[trigger] t.queued_messages[i]).enqueued_at_unix);
    assert(forall|i: int| 0 <= i < deliveries.len() ==> deliveries[i] == (
    #[trigger] t.outbound_deliveries[i]).updated_at_unix);
    let time = t.updated_at_unix;
    if time != d.updated_at_unix {
        let i = deliveries.index_of(time);
        assert(t.outbound_deliveries[i].updated_at_unix == time);
    } else if time != c.updated_at_unix {
        let i = queue.index_of(time);
        assert(t.queued_messages[i].enqueued_at_unix == time);
    } else if time != b.updated_at_unix {
        let i = events.index_of(time);
        assert(t.inbound_events[i].recorded_at_unix == time);
    } else if time != a.updated_at_unix {
        let i = inputs.index_of(time);
        assert(t.run_inputs[i].claimed_at_unix == time);
    } else if time != s.updated_at_unix {
        let i = runs.index_of(time);
        assert(t.runs[i].updated_at_unix == time);
    }
}

} // verus!

//! What recording an event does, in terms of the ledger and the queue before and
//! after.
use vstd::prelude::*;

use super::inbound::{latest_claimed, latest_queued};
use super::validity::{lemma_claim_origin, lemma_claims_before};
use super::view::{claims, ClaimedView, StateView};
use crate::event::{EventKindView, EventRecordView, EventView};
use crate::keyed::{find_key, has_key, lemma_find_key, lemma_find_key_is, Keyed};
use crate::message::MessageView;
use crate::queue::QueuedView;

verus! {

/// The latest queue time of what was taken for a session is one of those times.
proof fn lemma_latest_claimed_is_one(taken: Seq<ClaimedView>, session_id: Seq<char>, base: u64)
    ensures
        base <= latest_claimed(taken, session_id, base),
        forall|i: int|
            0 <= i < taken.len() && (#[trigger] taken[i]).session_id == session_id
                ==> taken[i].message.enqueued_at_unix <= latest_claimed(taken, session_id, base),
        latest_claimed(taken, session_id, base) == base || exists|i: int|
            0 <= i < taken.len() && (#[trigger] taken[i]).session_id == session_id
                && taken[i].message.enqueued_at_unix == latest_claimed(taken, session_id, base),
    decreases taken.len(),
{
    if taken.len() > 0 {
        let front = taken.drop_last();
        lemma_latest_claimed_is_one(front, session_id, base);
        assert(forall|i: int| 0 <= i < front.len() ==> #[trigger] taken[i] == front[i]);
        let before = latest_claimed(front, session_id, base);
        let after = latest_claimed(taken, session_id, base);
        if after == before {
            if before != base {
                let i = choose|i: int|
                    0 <= i < front.len() && (#[trigger] front[i]).session_id == session_id
                        && front[i].message.enqueued_at_unix == before;
                assert(taken[i].session_id == session_id);
            }
        } else {
            assert(taken[taken.len() - 1].session_id == session_id);
        }
    }
}

/// The latest queue time of a session's entries is one of those times.
proof fn lemma_latest_queued_is_one(queue: Seq<QueuedView>, session_id: Seq<char>, base: u64)
    ensures
        base <= latest_queued(queue, session_id, base),
        forall|i: int|
            0 <= i < queue.len() && (#[trigger] queue[i]).session_id == session_id
                ==> queue[i].enqueued_at_unix <= latest_queued(queue, session_id, base),
        latest_queued(queue, session_id, base) == base || exists|i: int|
            0 <= i < queue.len() && (#[trigger] queue[i]).session_id == session_id
                && queue[i].enqueued_at_unix == latest_queued(queue, session_id, base),
    decreases queue.len(),
{
    if queue.len() > 0 {
        let front = queue.drop_last();
        lemma_latest_queued_is_one(front, session_id, base);
        assert(forall|i: int| 0 <= i < front.len() ==> #[trigger] queue[i] == front[i]);
        let before = latest_queued(front, session_id, base);
        let after = latest_queued(queue, session_id, base);
        if after == before {
            if before != base {
                let i = choose|i: int|
                    0 <= i < front.len() && (#[trigger] front[i]).session_id == session_id
                        && front[i].enqueued_at_unix == before;
                assert(queue[i].session_id == session_id);
            }
        } else {
            assert(queue[queue.len() - 1].session_id == session_id);
        }
    }
}

/// The tail of a session is the latest queue time among its messages, and the
/// beginning of time where it has none.
proof fn lemma_session_tail_is_one(s: StateView, session_id: Seq<char>)
    ensures
        ({
            let tail = s.session_tail(session_id);
            &&& forall|i: int|
                0 <= i < s.queued_messages.len() && (#[trigger] s.queued_messages[i]).session_id
                    == session_id ==> s.queued_messages[i].enqueued_at_unix <= tail
            &&& forall|k: int, j: int|
                0 <= k < s.run_inputs.len() && 0 <= j < s.run_inputs[k].messages.len()
                    && s.run_inputs[k].session_id == session_id ==> (
                #[trigger] s.run_inputs[k].messages[j]).enqueued_at_unix <= tail
            &&& tail == 0 || (exists|i: int|
                0 <= i < s.queued_messages.len() && (#[trigger] s.queued_messages[i]).session_id
                    == session_id && s.queued_messages[i].enqueued_at_unix == tail) || (exists|
                k: int,
                j: int,
            |
                0 <= k < s.run_inputs.len() && 0 <= j < s.run_inputs[k].messages.len()
                    && s.run_inputs[k].session_id == session_id && (
                #[trigger] s.run_inputs[k].messages[j]).enqueued_at_unix == tail)
        }),
{
    let taken = claims(s.run_inputs);
    let base = latest_claimed(taken, session_id, 0);
    let tail = s.session_tail(session_id);
    lemma_latest_claimed_is_one(taken, session_id, 0);
    lemma_latest_queued_is_one(s.queued_messages, session_id, base);
    assert forall|k: int, j: int|
        0 <= k < s.run_inputs.len() && 0 <= j < s.run_inputs[k].messages.len()
            && s.run_inputs[k].session_id == session_id implies (
    #[trigger] s.run_inputs[k].messages[j]).enqueued_at_unix <= tail by {
        lemma_claims_before(s.run_inputs, k, j);
        let n = claims(s.run_inputs.take(k)).len() + j;
        assert(taken[n as int].session_id == session_id);
    }
    if tail == base && base != 0 {
        let n = choose|n: int|
            0 <= n < taken.len() && (#[trigger] taken[n]).session_id == session_id
                && taken[n].message.enqueued_at_unix == base;
        let (k, j) = lemma_claim_origin(s.run_inputs, n);
        assert(s.run_inputs[k].messages[j].enqueued_at_unix == tail);
    }
}

/// A new event that is a user's message from a platform, bound to a known
/// session, is recorded, whatever runs the session has. The queue grows by one
/// entry at its end, with the event's id, session, message and receive time. The
/// entry is queued as early as possible: not before the given time, nor before
/// the message was received, nor before any other message of the session, queued
/// or taken, was queued. The ledger grows by one record at its end, and nothing
/// else changes but the time of the last update.
pub proof fn law_new_messages_are_queued_at_the_end(
    s: StateView,
    event: EventView,
    message: MessageView,
    session_id: Seq<char>,
    at: u64,
)
    requires
        event.source is Platform,
        event.kind == (EventKindView::MessageReceived { message }),
        message.author is User,
        message.session_id == Some(session_id),
        exists|i: int| 0 <= i < s.sessions.len() && (#[trigger] s.sessions[i]).id == session_id,
        forall|i: int|
            0 <= i < s.inbound_events.len() ==> (#[trigger] s.inbound_events[i]).id != event.id,
    ensures
        s.recorded(event, at) matches Ok((t, status)) && status is Recorded && ({
            let entry = t.queued_messages.last();
            &&& t.queued_messages == s.queued_messages.push(entry)
            &&& entry.event_id == event.id
            &&& entry.session_id == session_id
            &&& entry.message == message
            &&& entry.received_at_unix == event.received_at_unix
            &&& entry.enqueued_at_unix >= at
            &&& entry.enqueued_at_unix >= event.received_at_unix
            &&& forall|i: int|
                0 <= i < s.queued_messages.len() && (#[trigger] s.queued_messages[i]).session_id
                    == session_id ==> s.queued_messages[i].enqueued_at_unix
                    <= entry.enqueued_at_unix
            &&& forall|k: int, j: int|
                0 <= k < s.run_inputs.len() && 0 <= j < s.run_inputs[k].messages.len()
                    && s.run_inputs[k].session_id == session_id ==> (
                #[trigger] s.run_inputs[k].messages[j]).enqueued_at_unix <= entry.enqueued_at_unix
            &&& entry.enqueued_at_unix == at || entry.enqueued_at_unix == event.received_at_unix
                || (exists|i: int|
                0 <= i < s.queued_messages.len() && (#[trigger] s.queued_messages[i]).session_id
                    == session_id && s.queued_messages[i].enqueued_at_unix
                    == entry.enqueued_at_unix) || (exists|k: int, j: int|
                0 <= k < s.run_inputs.len() && 0 <= j < s.run_inputs[k].messages.len()
                    && s.run_inputs[k].session_id == session_id && (
                #[trigger] s.run_inputs[k].messages[j]).enqueued_at_unix == entry.enqueued_at_unix)
            &&& t.inbound_events == s.inbound_events.push(
                EventRecordView {
                    id: event.id,
                    received_at_unix: event.received_at_unix,
                    recorded_at_unix: if event.received_at_unix <= at {
                        at
                    } else {
                        event.received_at_unix
                    },
                },
            )
            &&& t.sessions == s.sessions
            &&& t.runs == s.runs
            &&& t.run_inputs == s.run_inputs
            &&& t.outbound_deliveries == s.outbound_deliveries
            &&& t.updated_at_unix == if s.updated_at_unix <= entry.enqueued_at_unix {
                entry.enqueued_at_unix
            } else {
                s.updated_at_unix
            }
        }),
{
    broadcast use lemma_find_key;

    let known = choose|i: int|
        0 <= i < s.sessions.len() && (#[trigger] s.sessions[i]).id == session_id;
    assert(s.sessions[known].key() == session_id);
    assert(has_key(s.sessions, session_id));
    if let Some(i) = find_key(s.inbound_events, event.id) {
        assert(s.inbound_events[i].id == event.id);
    }
    lemma_session_tail_is_one(s, session_id);
    let t = s.recorded(event, at)->Ok_0.0;
    let entry = t.queued_messages.last();
    let tail = s.session_tail(session_id);
    assert(t.queued_messages =~= s.queued_messages.push(entry));
    if entry.enqueued_at_unix != at && entry.enqueued_at_unix != event.received_at_unix {
        assert(entry.enqueued_at_unix == tail);
    }
}

/// A new event that is a notice of the runtime, or a message that is bound to no
/// session, is recorded in the ledger, and leaves everything else as it was but
/// the time of the last update.
pub proof fn law_other_events_only_enter_the_ledger(s: StateView, event: EventView, at: u64)
    requires
        s.valid(),
        event.kind is RuntimeNotice || (event.kind matches EventKindView::MessageReceived {
            message,
        } && message.session_id is None),
        forall|i: int|
            0 <= i < s.inbound_events.len() ==> (#[trigger] s.inbound_events[i]).id != event.id,
    ensures
        s.recorded(event, at) matches Ok((t, status)) && status is Recorded && ({
            let recorded_at: u64 = if event.received_at_unix <= at {
                at
            } else {
                event.received_at_unix
            };
            t == (StateView {
                inbound_events: s.inbound_events.push(
                    EventRecordView {
                        id: event.id,
                        received_at_unix: event.received_at_unix,
                        recorded_at_unix: recorded_at,
                    },
                ),
                updated_at_unix: if s.updated_at_unix <= recorded_at {
                    recorded_at
                } else {
                    s.updated_at_unix
                },
                ..s
            })
        }),
{
    broadcast use lemma_find_key;

    if let Some(i) = find_key(s.inbound_events, event.id) {
        assert(s.inbound_events[i].id == event.id);
    }
    lemma_messages_have_records(s, event.id);
}

/// In a valid state a message that is queued or taken has a record in the ledger.
proof fn lemma_messages_have_records(s: StateView, event_id: Seq<char>)
    requires
        s.valid(),
    ensures
        s.message_record(event_id) is Some ==> has_key(s.inbound_events, event_id),
{
    broadcast use lemma_find_key;

    if let Some(i) = find_key(s.queued_messages, event_id) {
        assert(s.backed(s.queued_messages[i]));
    } else if let Some(n) = find_key(claims(s.run_inputs), event_id) {
        assert(s.backed(claims(s.run_inputs)[n].message));
    }
}

/// The message of an event is the one that carries its id, in the queue or in a
/// run's input; in a valid state there is only one.
pub proof fn lemma_message_record(s: StateView, event_id: Seq<char>)
    requires
        s.valid(),
    ensures
        s.message_record(event_id) matches Some(q) ==> q.event_id == event_id,
        forall|i: int|
            0 <= i < s.queued_messages.len() && (#[trigger] s.queued_messages[i]).event_id
                == event_id ==> s.message_record(event_id) == Some(s.queued_messages[i]),
        forall|k: int, j: int|
            0 <= k < s.run_inputs.len() && 0 <= j < s.run_inputs[k].messages.len() && (
            #[trigger] s.run_inputs[k].messages[j]).event_id == event_id ==> s.message_record(
                event_id,
            ) == Some(s.run_inputs[k].messages[j]),
        s.message_record(event_id) is Some ==> (exists|i: int|
            0 <= i < s.queued_messages.len() && (#[trigger] s.queued_messages[i]).event_id
                == event_id) || (exists|k: int, j: int|
            0 <= k < s.run_inputs.len() && 0 <= j < s.run_inputs[k].messages.len() && (
            #[trigger] s.run_inputs[k].messages[j]).event_id == event_id),
{
    broadcast use lemma_find_key;

    let taken = claims(s.run_inputs);
    let queue = s.queued_messages;
    assert forall|i: int|
        0 <= i < queue.len() && (#[trigger] queue[i]).event_id
            == event_id implies s.message_record(event_id) == Some(queue[i]) by {
        assert forall|j: int| 0 <= j < i implies (#[trigger] queue[j]).key() != event_id by {
            assert(s.position(queue[j].event_id) < s.position(queue[i].event_id));
        }
        lemma_find_key_is(queue, event_id, i);
    }
    assert forall|k: int, j: int|
        0 <= k < s.run_inputs.len() && 0 <= j < s.run_inputs[k].messages.len() && (
        #[trigger] s.run_inputs[k].messages[j]).event_id
            == event_id implies s.message_record(event_id) == Some(
        s.run_inputs[k].messages[j],
    ) by {
        lemma_claims_before(s.run_inputs, k, j);
        let n = claims(s.run_inputs.take(k)).len() + j;
        assert(taken[n as int].message.event_id == event_id);
        assert(!has_key(queue, taken[n as int].message.event_id));
        crate::keyed::lemma_find_own_key(taken, n as int);
    }
    if let Some(i) = find_key(queue, event_id) {
        assert(queue[i].key() == event_id);
    } else if let Some(n) = find_key(taken, event_id) {
        let (k, j) = lemma_claim_origin(s.run_inputs, n);
        assert(s.run_inputs[k].messages[j].event_id == event_id);
    }
}

/// An event that is not in the ledger is refused only where it is a message bound
/// to a session, and the session is not known, or the message is not a user's
/// from a platform.
pub proof fn law_new_events_are_refused_only_for_their_message(
    s: StateView,
    event: EventView,
    at: u64,
)
    requires
        s.valid(),
        forall|i: int|
            0 <= i < s.inbound_events.len() ==> (#[trigger] s.inbound_events[i]).id != event.id,
    ensures
        s.recorded(event, at) is Err <==> (event.kind matches EventKindView::MessageReceived {
            message,
        } && (message.session_id matches Some(session_id) && (event.source !is Platform
            || message.author !is User || forall|i: int|
            0 <= i < s.sessions.len() ==> (#[trigger] s.sessions[i]).id != session_id))),
{
    broadcast use lemma_find_key;

    if let Some(i) = find_key(s.inbound_events, event.id) {
        assert(s.inbound_events[i].id == event.id);
    }
    lemma_messages_have_records(s, event.id);
    if let EventKindView::MessageReceived { message } = event.kind {
        if let Some(session_id) = message.session_id {
            lemma_session_known(s, session_id);
        }
    }
}

pub proof fn lemma_session_known(s: StateView, session_id: Seq<char>)
    ensures
        has_key(s.sessions, session_id) <==> exists|i: int|
            0 <= i < s.sessions.len() && (#[trigger] s.sessions[i]).id == session_id,
{
    lemma_find_key(s.sessions, session_id);
    if has_key(s.sessions, session_id) {
        let i = find_key(s.sessions, session_id)->Some_0;
        assert(s.sessions[i].id == session_id);
    } else {
        assert forall|i: int| 0 <= i < s.sessions.len() implies (#[trigger] s.sessions[i]).id
            != session_id by {
            assert(s.sessions[i].key() != session_id);
        }
    }
}

/// An event that is in the ledger is accepted as a duplicate, without any change,
/// exactly where it says what was recorded: it has the receive time of the ledger
/// record, and it is either a user's message from a platform, bound to a known
/// session, that is queued or taken under the event's id with the same session
/// and text, or an event without a bound message where none is queued or taken
/// under its id. Otherwise it is refused.
pub proof fn law_known_events_must_say_the_same(s: StateView, event: EventView, at: u64, p: int)
    requires
        s.valid(),
        0 <= p < s.inbound_events.len(),
        s.inbound_events[p].id == event.id,
    ensures
        s.recorded(event, at) matches Ok((t, status)) ==> t == s && status is Duplicate,
        s.recorded(event, at) is Ok <==> {
            &&& s.inbound_events[p].received_at_unix == event.received_at_unix
            &&& if event.kind is MessageReceived
                && event.kind->MessageReceived_message.session_id is Some {
                let message = event.kind->MessageReceived_message;
                &&& event.source is Platform
                &&& message.author is User
                &&& exists|i: int|
                    0 <= i < s.sessions.len() && Some((#[trigger] s.sessions[i]).id)
                        == message.session_id
                &&& (exists|i: int|
                    0 <= i < s.queued_messages.len() && (#[trigger] s.queued_messages[i]).event_id
                        == event.id && s.queued_messages[i].message == message) || (exists|
                    k: int,
                    j: int,
                |
                    0 <= k < s.run_inputs.len() && 0 <= j < s.run_inputs[k].messages.len() && (
                    #[trigger] s.run_inputs[k].messages[j]).event_id == event.id
                        && s.run_inputs[k].messages[j].message == message)
            } else {
                &&& forall|i: int|
                    0 <= i < s.queued_messages.len() ==> (#[trigger] s.queued_messages[i]).event_id
                        != event.id
                &&& forall|k: int, j: int|
                    0 <= k < s.run_inputs.len() && 0 <= j < s.run_inputs[k].messages.len() ==> (
                    #[trigger] s.run_inputs[k].messages[j]).event_id != event.id
            }
        },
{
    broadcast use lemma_find_key;

    assert(s.inbound_events[p].key() == event.id);
    crate::keyed::lemma_find_own_key(s.inbound_events, p);
    lemma_message_record(s, event.id);
    if let Some(q) = s.message_record(event.id) {
        lemma_recorded_messages_are_sound(s, event.id);
    }
    if let EventKindView::MessageReceived { message } = event.kind {
        if let Some(session_id) = message.session_id {
            lemma_session_known(s, session_id);
            if has_key(s.sessions, session_id) {
                let i = choose|i: int|
                    0 <= i < s.sessions.len() && (#[trigger] s.sessions[i]).id == session_id;
                assert(Some(s.sessions[i].id) == message.session_id);
            }
        }
    }
}

/// In a valid state the message of an event has its session and the receive time
/// of the ledger.
pub proof fn lemma_recorded_messages_are_sound(s: StateView, event_id: Seq<char>)
    requires
        s.valid(),
    ensures
        s.message_record(event_id) matches Some(q) ==> q.flaw() is None && s.backed(q),
{
    broadcast use lemma_find_key;

    if let Some(i) = find_key(s.queued_messages, event_id) {
        assert(s.backed(s.queued_messages[i]));
    } else if let Some(n) = find_key(claims(s.run_inputs), event_id) {
        assert(s.backed(claims(s.run_inputs)[n].message));
        let (k, j) = lemma_claim_origin(s.run_inputs, n);
        assert(s.run_inputs[k].flaw() is None);
        s.run_inputs[k].law_sound_inputs();
        assert(s.run_inputs[k].message_flaw(s.run_inputs[k].messages[j]) is None);
    }
}

} // verus!

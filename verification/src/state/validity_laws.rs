//! What validity asks of a state, record by record, and that it asks no more.
use vstd::prelude::*;

use super::validity::{
    lemma_claim_origin, lemma_claims_before, lemma_claims_prefix, lemma_claims_step,
};
use super::view::{claims, StateView};
use crate::keyed::{
    distinct_keys, find_key, has_key, lemma_find_key, lemma_find_own_key, lookup, Keyed,
};
use crate::queue::{QueuedView, RunInputView};

verus! {

// ------------------------------------------------------- valid states

/// In a valid state sessions, runs, events, deliveries and run inputs are each
/// sound and have ids of their own, none is newer than the state, and what refers
/// to a session or a run refers to one that is there. A session has at most one
/// run that is not completed, failed or cancelled, and a run input has the session
/// of its run and was taken when the run was created.
pub proof fn law_valid_records(s: StateView)
    requires
        s.valid(),
    ensures
        forall|i: int, j: int|
            0 <= i < j < s.sessions.len() ==> (#[trigger] s.sessions[i]).id != (
            #[trigger] s.sessions[j]).id,
        forall|i: int|
            0 <= i < s.sessions.len() ==> (#[trigger] s.sessions[i]).flaw() is None
                && s.sessions[i].updated_at_unix <= s.updated_at_unix,
        forall|i: int, j: int|
            0 <= i < j < s.runs.len() ==> (#[trigger] s.runs[i]).id != (#[trigger] s.runs[j]).id,
        forall|i: int|
            0 <= i < s.runs.len() ==> (#[trigger] s.runs[i]).flaw() is None
                && s.runs[i].updated_at_unix <= s.updated_at_unix && exists|p: int|
                0 <= p < s.sessions.len() && (#[trigger] s.sessions[p]).id == s.runs[i].session_id,
        forall|i: int, j: int|
            0 <= i < j < s.runs.len() && (#[trigger] s.runs[i]).session_id == (
            #[trigger] s.runs[j]).session_id ==> s.runs[i].status is Completed
                || s.runs[i].status is Failed || s.runs[i].status is Cancelled || s.runs[j].status
                is Completed || s.runs[j].status is Failed || s.runs[j].status is Cancelled,
        forall|i: int, j: int|
            0 <= i < j < s.inbound_events.len() ==> (#[trigger] s.inbound_events[i]).id != (
            #[trigger] s.inbound_events[j]).id,
        forall|i: int|
            0 <= i < s.inbound_events.len() ==> (#[trigger] s.inbound_events[i]).received_at_unix
                <= s.inbound_events[i].recorded_at_unix && s.inbound_events[i].recorded_at_unix
                <= s.updated_at_unix,
        forall|i: int, j: int|
            0 <= i < j < s.outbound_deliveries.len() ==> (#[trigger] s.outbound_deliveries[i]).id
                != (#[trigger] s.outbound_deliveries[j]).id,
        forall|i: int|
            0 <= i < s.outbound_deliveries.len() ==> (#[trigger] s.outbound_deliveries[i]).flaw()
                is None && s.outbound_deliveries[i].updated_at_unix <= s.updated_at_unix && exists|
                p: int,
            |
                0 <= p < s.sessions.len() && (#[trigger] s.sessions[p]).id
                    == s.outbound_deliveries[i].session_id,
        forall|i: int, j: int|
            0 <= i < j < s.run_inputs.len() ==> (#[trigger] s.run_inputs[i]).run_id != (
            #[trigger] s.run_inputs[j]).run_id,
        forall|k: int|
            0 <= k < s.run_inputs.len() ==> (#[trigger] s.run_inputs[k]).flaw() is None
                && s.run_inputs[k].claimed_at_unix <= s.updated_at_unix && exists|r: int|
                {
                    &&& 0 <= r < s.runs.len()
                    &&& (#[trigger] s.runs[r]).id == s.run_inputs[k].run_id
                    &&& s.runs[r].session_id == s.run_inputs[k].session_id
                    &&& s.runs[r].created_at_unix == s.run_inputs[k].claimed_at_unix
                },
{
    broadcast use lemma_find_key;

    assert forall|i: int, j: int| 0 <= i < j < s.sessions.len() implies (
    #[trigger] s.sessions[i]).id != (#[trigger] s.sessions[j]).id by {
        assert(s.sessions[i].key() != s.sessions[j].key());
    }
    assert forall|i: int, j: int| 0 <= i < j < s.runs.len() implies (#[trigger] s.runs[i]).id != (
    #[trigger] s.runs[j]).id by {
        assert(s.runs[i].key() != s.runs[j].key());
    }
    assert forall|i: int, j: int| 0 <= i < j < s.inbound_events.len() implies (
    #[trigger] s.inbound_events[i]).id != (#[trigger] s.inbound_events[j]).id by {
        assert(s.inbound_events[i].key() != s.inbound_events[j].key());
    }
    assert forall|i: int, j: int| 0 <= i < j < s.outbound_deliveries.len() implies (
    #[trigger] s.outbound_deliveries[i]).id != (#[trigger] s.outbound_deliveries[j]).id by {
        assert(s.outbound_deliveries[i].key() != s.outbound_deliveries[j].key());
    }
    assert forall|i: int, j: int| 0 <= i < j < s.run_inputs.len() implies (
    #[trigger] s.run_inputs[i]).run_id != (#[trigger] s.run_inputs[j]).run_id by {
        assert(s.run_inputs[i].key() != s.run_inputs[j].key());
    }
    assert forall|i: int| 0 <= i < s.runs.len() implies exists|p: int|
        0 <= p < s.sessions.len() && (#[trigger] s.sessions[p]).id == (
        #[trigger] s.runs[i]).session_id by {
        let p = find_key(s.sessions, s.runs[i].session_id)->Some_0;
        assert(s.sessions[p].id == s.runs[i].session_id);
    }
    assert forall|i: int| 0 <= i < s.outbound_deliveries.len() implies exists|p: int|
        0 <= p < s.sessions.len() && (#[trigger] s.sessions[p]).id == (
        #[trigger] s.outbound_deliveries[i]).session_id by {
        let p = find_key(s.sessions, s.outbound_deliveries[i].session_id)->Some_0;
        assert(s.sessions[p].id == s.outbound_deliveries[i].session_id);
    }
    assert forall|k: int| 0 <= k < s.run_inputs.len() implies exists|r: int|
        {
            &&& 0 <= r < s.runs.len()
            &&& (#[trigger] s.runs[r]).id == (#[trigger] s.run_inputs[k]).run_id
            &&& s.runs[r].session_id == s.run_inputs[k].session_id
            &&& s.runs[r].created_at_unix == s.run_inputs[k].claimed_at_unix
        } by {
        let r = find_key(s.runs, s.run_inputs[k].run_id)->Some_0;
        assert(s.runs[r].id == s.run_inputs[k].run_id);
    }
}

/// A message agrees with the ledger: its event is there, with the receive time of
/// the message, and was recorded no later than the message was queued.
proof fn lemma_backed(s: StateView, m: QueuedView)
    requires
        distinct_keys(s.inbound_events),
    ensures
        s.backed(m) <==> exists|p: int|
            {
                &&& 0 <= p < s.inbound_events.len()
                &&& (#[trigger] s.inbound_events[p]).id == m.event_id
                &&& s.inbound_events[p].received_at_unix == m.received_at_unix
                &&& s.inbound_events[p].recorded_at_unix <= m.enqueued_at_unix
            },
{
    broadcast use lemma_find_key;

    if s.backed(m) {
        let p = s.position(m.event_id);
        assert(s.inbound_events[p].id == m.event_id);
    }
    assert forall|p: int|
        0 <= p < s.inbound_events.len() && (#[trigger] s.inbound_events[p]).id
            == m.event_id implies s.position(m.event_id) == p && has_key(
        s.inbound_events,
        m.event_id,
    ) by {
        lemma_find_own_key(s.inbound_events, p);
    }
}

/// In a valid state every queue entry is sound, agrees with the ledger, belongs to
/// a session that is there, and is not newer than the state. The entries stand in
/// the order of the ledger, and those of a session in order of time.
pub proof fn law_valid_queue(s: StateView)
    requires
        s.valid(),
    ensures
        forall|i: int|
            0 <= i < s.queued_messages.len() ==> (#[trigger] s.queued_messages[i]).flaw() is None
                && s.queued_messages[i].enqueued_at_unix <= s.updated_at_unix,
        forall|i: int|
            0 <= i < s.queued_messages.len() ==> exists|p: int|
                0 <= p < s.sessions.len() && (#[trigger] s.sessions[p]).id == (
                #[trigger] s.queued_messages[i]).session_id,
        forall|i: int|
            0 <= i < s.queued_messages.len() ==> exists|p: int|
                {
                    &&& 0 <= p < s.inbound_events.len()
                    &&& (#[trigger] s.inbound_events[p]).id == (
                    #[trigger] s.queued_messages[i]).event_id
                    &&& s.inbound_events[p].received_at_unix
                        == s.queued_messages[i].received_at_unix
                    &&& s.inbound_events[p].recorded_at_unix
                        <= s.queued_messages[i].enqueued_at_unix
                },
        forall|i: int, j: int, p: int, q: int|
            0 <= i < j < s.queued_messages.len() && 0 <= p < s.inbound_events.len() && 0 <= q
                < s.inbound_events.len() && (#[trigger] s.inbound_events[p]).id == (
            #[trigger] s.queued_messages[i]).event_id && (#[trigger] s.inbound_events[q]).id == (
            #[trigger] s.queued_messages[j]).event_id ==> p < q,
        forall|i: int, j: int|
            0 <= i < j < s.queued_messages.len() && (#[trigger] s.queued_messages[i]).session_id
                == (#[trigger] s.queued_messages[j]).session_id
                ==> s.queued_messages[i].enqueued_at_unix <= s.queued_messages[j].enqueued_at_unix,
{
    broadcast use lemma_find_key;

    assert forall|i: int| 0 <= i < s.queued_messages.len() implies exists|p: int|
        0 <= p < s.sessions.len() && (#[trigger] s.sessions[p]).id == (
        #[trigger] s.queued_messages[i]).session_id by {
        assert(has_key(s.sessions, s.queued_messages[i].session_id));
        let p = find_key(s.sessions, s.queued_messages[i].session_id)->Some_0;
        assert(s.sessions[p].id == s.queued_messages[i].session_id);
    }
    assert forall|i: int| 0 <= i < s.queued_messages.len() implies exists|p: int|
        {
            &&& 0 <= p < s.inbound_events.len()
            &&& (#[trigger] s.inbound_events[p]).id == (#[trigger] s.queued_messages[i]).event_id
            &&& s.inbound_events[p].received_at_unix == s.queued_messages[i].received_at_unix
            &&& s.inbound_events[p].recorded_at_unix <= s.queued_messages[i].enqueued_at_unix
        } by {
        assert(s.backed(s.queued_messages[i]));
        lemma_backed(s, s.queued_messages[i]);
    }
    assert forall|i: int, j: int, p: int, q: int|
        0 <= i < j < s.queued_messages.len() && 0 <= p < s.inbound_events.len() && 0 <= q
            < s.inbound_events.len() && (#[trigger] s.inbound_events[p]).id == (
        #[trigger] s.queued_messages[i]).event_id && (#[trigger] s.inbound_events[q]).id == (
        #[trigger] s.queued_messages[j]).event_id implies p < q by {
        lemma_find_own_key(s.inbound_events, p);
        lemma_find_own_key(s.inbound_events, q);
        assert(s.position(s.queued_messages[i].event_id) < s.position(
            s.queued_messages[j].event_id,
        ));
    }
}

/// Messages of an earlier input come before those of a later one.
pub proof fn lemma_claims_in_order(inputs: Seq<RunInputView>, k: int, j: int, l: int)
    requires
        0 <= k < l < inputs.len(),
        0 <= j < inputs[k].messages.len(),
    ensures
        claims(inputs.take(k)).len() + j < claims(inputs.take(l)).len(),
{
    lemma_claims_step(inputs, k);
    lemma_claims_prefix(inputs.take(l), k + 1);
    assert(inputs.take(l).take(k + 1) =~= inputs.take(k + 1));
}

/// In a valid state every message of a run input agrees with the ledger and is no
/// longer queued. No message is in two places of the inputs. For a session, the
/// messages were taken in the order of the ledger and of time, and the queue holds
/// only what comes after them.
pub proof fn law_valid_claims(s: StateView)
    requires
        s.valid(),
    ensures
        forall|k: int, j: int|
            0 <= k < s.run_inputs.len() && 0 <= j < s.run_inputs[k].messages.len() ==> exists|
                p: int,
            |
                {
                    &&& 0 <= p < s.inbound_events.len()
                    &&& (#[trigger] s.inbound_events[p]).id == (
                    #[trigger] s.run_inputs[k].messages[j]).event_id
                    &&& s.inbound_events[p].received_at_unix
                        == s.run_inputs[k].messages[j].received_at_unix
                    &&& s.inbound_events[p].recorded_at_unix
                        <= s.run_inputs[k].messages[j].enqueued_at_unix
                },
        forall|k: int, j: int, i: int|
            0 <= k < s.run_inputs.len() && 0 <= j < s.run_inputs[k].messages.len() && 0 <= i
                < s.queued_messages.len() ==> (#[trigger] s.run_inputs[k].messages[j]).event_id != (
            #[trigger] s.queued_messages[i]).event_id,
        forall|k: int, j: int, l: int, m: int|
            0 <= k < s.run_inputs.len() && 0 <= j < s.run_inputs[k].messages.len() && 0 <= l
                < s.run_inputs.len() && 0 <= m < s.run_inputs[l].messages.len() && (k < l || (k == l
                && j < m)) ==> (#[trigger] s.run_inputs[k].messages[j]).event_id != (
            #[trigger] s.run_inputs[l].messages[m]).event_id && (s.run_inputs[k].session_id
                == s.run_inputs[l].session_id ==> s.run_inputs[k].messages[j].enqueued_at_unix
                <= s.run_inputs[l].messages[m].enqueued_at_unix),
        forall|k: int, j: int, l: int, m: int, p: int, q: int|
            0 <= k < s.run_inputs.len() && 0 <= j < s.run_inputs[k].messages.len() && 0 <= l
                < s.run_inputs.len() && 0 <= m < s.run_inputs[l].messages.len() && (k < l || (k == l
                && j < m)) && s.run_inputs[k].session_id == s.run_inputs[l].session_id && 0 <= p
                < s.inbound_events.len() && 0 <= q < s.inbound_events.len() && (
            #[trigger] s.inbound_events[p]).id == (#[trigger] s.run_inputs[k].messages[j]).event_id
                && (#[trigger] s.inbound_events[q]).id == (
            #[trigger] s.run_inputs[l].messages[m]).event_id ==> p < q,
        forall|k: int, j: int, i: int|
            0 <= k < s.run_inputs.len() && 0 <= j < s.run_inputs[k].messages.len() && 0 <= i
                < s.queued_messages.len() && s.run_inputs[k].session_id == (
            #[trigger] s.queued_messages[i]).session_id ==> (
            #[trigger] s.run_inputs[k].messages[j]).enqueued_at_unix
                <= s.queued_messages[i].enqueued_at_unix,
        forall|k: int, j: int, i: int, p: int, q: int|
            0 <= k < s.run_inputs.len() && 0 <= j < s.run_inputs[k].messages.len() && 0 <= i
                < s.queued_messages.len() && s.run_inputs[k].session_id
                == s.queued_messages[i].session_id && 0 <= p < s.inbound_events.len() && 0 <= q
                < s.inbound_events.len() && (#[trigger] s.inbound_events[p]).id == (
            #[trigger] s.run_inputs[k].messages[j]).event_id && (#[trigger] s.inbound_events[q]).id
                == (#[trigger] s.queued_messages[i]).event_id ==> p < q,
{
    let taken = claims(s.run_inputs);
    assert forall|k: int, j: int|
        0 <= k < s.run_inputs.len() && 0 <= j < s.run_inputs[k].messages.len() implies exists|
        p: int,
    |
        {
            &&& 0 <= p < s.inbound_events.len()
            &&& (#[trigger] s.inbound_events[p]).id == (
            #[trigger] s.run_inputs[k].messages[j]).event_id
            &&& s.inbound_events[p].received_at_unix == s.run_inputs[k].messages[j].received_at_unix
            &&& s.inbound_events[p].recorded_at_unix <= s.run_inputs[k].messages[j].enqueued_at_unix
        } by {
        lemma_claims_before(s.run_inputs, k, j);
        let n = claims(s.run_inputs.take(k)).len() + j;
        assert(s.backed(taken[n as int].message));
        lemma_backed(s, s.run_inputs[k].messages[j]);
    }
    assert forall|k: int, j: int, i: int|
        0 <= k < s.run_inputs.len() && 0 <= j < s.run_inputs[k].messages.len() && 0 <= i
            < s.queued_messages.len() implies (#[trigger] s.run_inputs[k].messages[j]).event_id != (
    #[trigger] s.queued_messages[i]).event_id by {
        lemma_claims_before(s.run_inputs, k, j);
        let n = claims(s.run_inputs.take(k)).len() + j;
        assert(!has_key(s.queued_messages, taken[n as int].message.event_id));
        lemma_find_key(s.queued_messages, s.run_inputs[k].messages[j].event_id);
        assert(s.queued_messages[i].key() != s.run_inputs[k].messages[j].event_id);
    }
    assert forall|k: int, j: int, l: int, m: int|
        0 <= k < s.run_inputs.len() && 0 <= j < s.run_inputs[k].messages.len() && 0 <= l
            < s.run_inputs.len() && 0 <= m < s.run_inputs[l].messages.len() && (k < l || (k == l
            && j < m)) implies (#[trigger] s.run_inputs[k].messages[j]).event_id != (
    #[trigger] s.run_inputs[l].messages[m]).event_id && (s.run_inputs[k].session_id
        == s.run_inputs[l].session_id ==> s.run_inputs[k].messages[j].enqueued_at_unix
        <= s.run_inputs[l].messages[m].enqueued_at_unix) by {
        lemma_pair(s, k, j, l, m);
    }
    assert forall|k: int, j: int, l: int, m: int, p: int, q: int|
        0 <= k < s.run_inputs.len() && 0 <= j < s.run_inputs[k].messages.len() && 0 <= l
            < s.run_inputs.len() && 0 <= m < s.run_inputs[l].messages.len() && (k < l || (k == l
            && j < m)) && s.run_inputs[k].session_id == s.run_inputs[l].session_id && 0 <= p
            < s.inbound_events.len() && 0 <= q < s.inbound_events.len() && (
        #[trigger] s.inbound_events[p]).id == (#[trigger] s.run_inputs[k].messages[j]).event_id && (
        #[trigger] s.inbound_events[q]).id == (
        #[trigger] s.run_inputs[l].messages[m]).event_id implies p < q by {
        lemma_pair(s, k, j, l, m);
        lemma_find_own_key(s.inbound_events, p);
        lemma_find_own_key(s.inbound_events, q);
    }
    assert forall|k: int, j: int, i: int|
        0 <= k < s.run_inputs.len() && 0 <= j < s.run_inputs[k].messages.len() && 0 <= i
            < s.queued_messages.len() && s.run_inputs[k].session_id == (
        #[trigger] s.queued_messages[i]).session_id implies (
    #[trigger] s.run_inputs[k].messages[j]).enqueued_at_unix
        <= s.queued_messages[i].enqueued_at_unix by {
        lemma_claims_before(s.run_inputs, k, j);
        let n = claims(s.run_inputs.take(k)).len() + j;
        assert(taken[n as int].session_id == s.queued_messages[i].session_id);
    }
    assert forall|k: int, j: int, i: int, p: int, q: int|
        0 <= k < s.run_inputs.len() && 0 <= j < s.run_inputs[k].messages.len() && 0 <= i
            < s.queued_messages.len() && s.run_inputs[k].session_id
            == s.queued_messages[i].session_id && 0 <= p < s.inbound_events.len() && 0 <= q
            < s.inbound_events.len() && (#[trigger] s.inbound_events[p]).id == (
        #[trigger] s.run_inputs[k].messages[j]).event_id && (#[trigger] s.inbound_events[q]).id == (
        #[trigger] s.queued_messages[i]).event_id implies p < q by {
        lemma_claims_before(s.run_inputs, k, j);
        let n = claims(s.run_inputs.take(k)).len() + j;
        assert(taken[n as int].session_id == s.queued_messages[i].session_id);
        lemma_find_own_key(s.inbound_events, p);
        lemma_find_own_key(s.inbound_events, q);
    }
}

/// Two taken messages of a valid state, the first before the second.
proof fn lemma_pair(s: StateView, k: int, j: int, l: int, m: int)
    requires
        s.valid(),
        0 <= k < s.run_inputs.len(),
        0 <= j < s.run_inputs[k].messages.len(),
        0 <= l < s.run_inputs.len(),
        0 <= m < s.run_inputs[l].messages.len(),
        k < l || (k == l && j < m),
    ensures
        ({
            let a = s.run_inputs[k].messages[j];
            let b = s.run_inputs[l].messages[m];
            &&& a.event_id != b.event_id
            &&& s.run_inputs[k].session_id == s.run_inputs[l].session_id ==> a.enqueued_at_unix
                <= b.enqueued_at_unix && s.position(a.event_id) < s.position(b.event_id)
        }),
{
    let taken = claims(s.run_inputs);
    lemma_claims_before(s.run_inputs, k, j);
    lemma_claims_before(s.run_inputs, l, m);
    if k < l {
        lemma_claims_in_order(s.run_inputs, k, j, l);
    }
    let a = claims(s.run_inputs.take(k)).len() + j;
    let b = claims(s.run_inputs.take(l)).len() + m;
    assert(taken[a as int].key() != taken[b as int].key());
}

// --------------------------------------------------- nothing more is asked

/// A state whose records, queue and run inputs keep to what holds of every valid
/// state is valid: nothing more is asked of it.
pub proof fn law_nothing_more_is_asked(s: StateView)
    requires
        forall|i: int, j: int|
            0 <= i < j < s.sessions.len() ==> (#[trigger] s.sessions[i]).id != (
            #[trigger] s.sessions[j]).id,
        forall|i: int|
            0 <= i < s.sessions.len() ==> (#[trigger] s.sessions[i]).flaw() is None
                && s.sessions[i].updated_at_unix <= s.updated_at_unix,
        forall|i: int, j: int|
            0 <= i < j < s.runs.len() ==> (#[trigger] s.runs[i]).id != (#[trigger] s.runs[j]).id,
        forall|i: int|
            0 <= i < s.runs.len() ==> (#[trigger] s.runs[i]).flaw() is None
                && s.runs[i].updated_at_unix <= s.updated_at_unix && exists|p: int|
                0 <= p < s.sessions.len() && (#[trigger] s.sessions[p]).id == s.runs[i].session_id,
        forall|i: int, j: int|
            0 <= i < j < s.runs.len() && (#[trigger] s.runs[i]).session_id == (
            #[trigger] s.runs[j]).session_id ==> s.runs[i].status is Completed
                || s.runs[i].status is Failed || s.runs[i].status is Cancelled || s.runs[j].status
                is Completed || s.runs[j].status is Failed || s.runs[j].status is Cancelled,
        forall|i: int, j: int|
            0 <= i < j < s.inbound_events.len() ==> (#[trigger] s.inbound_events[i]).id != (
            #[trigger] s.inbound_events[j]).id,
        forall|i: int|
            0 <= i < s.inbound_events.len() ==> (#[trigger] s.inbound_events[i]).received_at_unix
                <= s.inbound_events[i].recorded_at_unix && s.inbound_events[i].recorded_at_unix
                <= s.updated_at_unix,
        forall|i: int, j: int|
            0 <= i < j < s.outbound_deliveries.len() ==> (#[trigger] s.outbound_deliveries[i]).id
                != (#[trigger] s.outbound_deliveries[j]).id,
        forall|i: int|
            0 <= i < s.outbound_deliveries.len() ==> (#[trigger] s.outbound_deliveries[i]).flaw()
                is None && s.outbound_deliveries[i].updated_at_unix <= s.updated_at_unix && exists|
                p: int,
            |
                0 <= p < s.sessions.len() && (#[trigger] s.sessions[p]).id
                    == s.outbound_deliveries[i].session_id,
        forall|i: int, j: int|
            0 <= i < j < s.run_inputs.len() ==> (#[trigger] s.run_inputs[i]).run_id != (
            #[trigger] s.run_inputs[j]).run_id,
        forall|k: int|
            0 <= k < s.run_inputs.len() ==> (#[trigger] s.run_inputs[k]).flaw() is None
                && s.run_inputs[k].claimed_at_unix <= s.updated_at_unix && exists|r: int|
                {
                    &&& 0 <= r < s.runs.len()
                    &&& (#[trigger] s.runs[r]).id == s.run_inputs[k].run_id
                    &&& s.runs[r].session_id == s.run_inputs[k].session_id
                    &&& s.runs[r].created_at_unix == s.run_inputs[k].claimed_at_unix
                },
        forall|i: int|
            0 <= i < s.queued_messages.len() ==> (#[trigger] s.queued_messages[i]).flaw() is None
                && s.queued_messages[i].enqueued_at_unix <= s.updated_at_unix,
        forall|i: int|
            0 <= i < s.queued_messages.len() ==> exists|p: int|
                0 <= p < s.sessions.len() && (#[trigger] s.sessions[p]).id == (
                #[trigger] s.queued_messages[i]).session_id,
        forall|i: int|
            0 <= i < s.queued_messages.len() ==> exists|p: int|
                {
                    &&& 0 <= p < s.inbound_events.len()
                    &&& (#[trigger] s.inbound_events[p]).id == (
                    #[trigger] s.queued_messages[i]).event_id
                    &&& s.inbound_events[p].received_at_unix
                        == s.queued_messages[i].received_at_unix
                    &&& s.inbound_events[p].recorded_at_unix
                        <= s.queued_messages[i].enqueued_at_unix
                },
        forall|i: int, j: int, p: int, q: int|
            0 <= i < j < s.queued_messages.len() && 0 <= p < s.inbound_events.len() && 0 <= q
                < s.inbound_events.len() && (#[trigger] s.inbound_events[p]).id == (
            #[trigger] s.queued_messages[i]).event_id && (#[trigger] s.inbound_events[q]).id == (
            #[trigger] s.queued_messages[j]).event_id ==> p < q,
        forall|i: int, j: int|
            0 <= i < j < s.queued_messages.len() && (#[trigger] s.queued_messages[i]).session_id
                == (#[trigger] s.queued_messages[j]).session_id
                ==> s.queued_messages[i].enqueued_at_unix <= s.queued_messages[j].enqueued_at_unix,
        forall|k: int, j: int|
            0 <= k < s.run_inputs.len() && 0 <= j < s.run_inputs[k].messages.len() ==> exists|
                p: int,
            |
                {
                    &&& 0 <= p < s.inbound_events.len()
                    &&& (#[trigger] s.inbound_events[p]).id == (
                    #[trigger] s.run_inputs[k].messages[j]).event_id
                    &&& s.inbound_events[p].received_at_unix
                        == s.run_inputs[k].messages[j].received_at_unix
                    &&& s.inbound_events[p].recorded_at_unix
                        <= s.run_inputs[k].messages[j].enqueued_at_unix
                },
        forall|k: int, j: int, i: int|
            0 <= k < s.run_inputs.len() && 0 <= j < s.run_inputs[k].messages.len() && 0 <= i
                < s.queued_messages.len() ==> (#[trigger] s.run_inputs[k].messages[j]).event_id != (
            #[trigger] s.queued_messages[i]).event_id,
        forall|k: int, j: int, l: int, m: int|
            0 <= k < s.run_inputs.len() && 0 <= j < s.run_inputs[k].messages.len() && 0 <= l
                < s.run_inputs.len() && 0 <= m < s.run_inputs[l].messages.len() && (k < l || (k == l
                && j < m)) ==> (#[trigger] s.run_inputs[k].messages[j]).event_id != (
            #[trigger] s.run_inputs[l].messages[m]).event_id && (s.run_inputs[k].session_id
                == s.run_inputs[l].session_id ==> s.run_inputs[k].messages[j].enqueued_at_unix
                <= s.run_inputs[l].messages[m].enqueued_at_unix),
        forall|k: int, j: int, l: int, m: int, p: int, q: int|
            0 <= k < s.run_inputs.len() && 0 <= j < s.run_inputs[k].messages.len() && 0 <= l
                < s.run_inputs.len() && 0 <= m < s.run_inputs[l].messages.len() && (k < l || (k == l
                && j < m)) && s.run_inputs[k].session_id == s.run_inputs[l].session_id && 0 <= p
                < s.inbound_events.len() && 0 <= q < s.inbound_events.len() && (
            #[trigger] s.inbound_events[p]).id == (#[trigger] s.run_inputs[k].messages[j]).event_id
                && (#[trigger] s.inbound_events[q]).id == (
            #[trigger] s.run_inputs[l].messages[m]).event_id ==> p < q,
        forall|k: int, j: int, i: int|
            0 <= k < s.run_inputs.len() && 0 <= j < s.run_inputs[k].messages.len() && 0 <= i
                < s.queued_messages.len() && s.run_inputs[k].session_id == (
            #[trigger] s.queued_messages[i]).session_id ==> (
            #[trigger] s.run_inputs[k].messages[j]).enqueued_at_unix
                <= s.queued_messages[i].enqueued_at_unix,
        forall|k: int, j: int, i: int, p: int, q: int|
            0 <= k < s.run_inputs.len() && 0 <= j < s.run_inputs[k].messages.len() && 0 <= i
                < s.queued_messages.len() && s.run_inputs[k].session_id
                == s.queued_messages[i].session_id && 0 <= p < s.inbound_events.len() && 0 <= q
                < s.inbound_events.len() && (#[trigger] s.inbound_events[p]).id == (
            #[trigger] s.run_inputs[k].messages[j]).event_id && (#[trigger] s.inbound_events[q]).id
                == (#[trigger] s.queued_messages[i]).event_id ==> p < q,
    ensures
        s.valid(),
{
    let taken = claims(s.run_inputs);
    assert(distinct_keys(s.inbound_events));
    assert(distinct_keys(s.runs));
    assert(s.sessions_sound());
    assert(s.events_sound());
    assert(s.runs_sound()) by {
        assert forall|i: int| 0 <= i < s.runs.len() implies has_key(
            s.sessions,
            (#[trigger] s.runs[i]).session_id,
        ) by {
            super::inbound_laws::lemma_session_known(s, s.runs[i].session_id);
        }
    }
    assert(s.deliveries_sound()) by {
        assert forall|i: int| 0 <= i < s.outbound_deliveries.len() implies has_key(
            s.sessions,
            (#[trigger] s.outbound_deliveries[i]).session_id,
        ) by {
            super::inbound_laws::lemma_session_known(s, s.outbound_deliveries[i].session_id);
        }
    }
    assert(s.inputs_sound()) by {
        assert forall|k: int| 0 <= k < s.run_inputs.len() implies match lookup(
            s.runs,
            (#[trigger] s.run_inputs[k]).run_id,
        ) {
            Some(run) => run.session_id == s.run_inputs[k].session_id && run.created_at_unix
                == s.run_inputs[k].claimed_at_unix,
            None => false,
        } by {
            let r = choose|r: int|
                {
                    &&& 0 <= r < s.runs.len()
                    &&& (#[trigger] s.runs[r]).id == s.run_inputs[k].run_id
                    &&& s.runs[r].session_id == s.run_inputs[k].session_id
                    &&& s.runs[r].created_at_unix == s.run_inputs[k].claimed_at_unix
                };
            lemma_find_own_key(s.runs, r);
        }
    }
    assert(s.queue_sound()) by {
        assert forall|i: int| 0 <= i < s.queued_messages.len() implies s.backed(
            #[trigger] s.queued_messages[i],
        ) && has_key(s.sessions, s.queued_messages[i].session_id) by {
            lemma_backed(s, s.queued_messages[i]);
            super::inbound_laws::lemma_session_known(s, s.queued_messages[i].session_id);
        }
        assert forall|i: int, j: int| 0 <= i < j < s.queued_messages.len() implies s.position(
            (#[trigger] s.queued_messages[i]).event_id,
        ) < s.position((#[trigger] s.queued_messages[j]).event_id) by {
            lemma_ledger_place(s, s.queued_messages[i]);
            lemma_ledger_place(s, s.queued_messages[j]);
        }
    }
    assert forall|n: int| 0 <= n < taken.len() implies s.backed((#[trigger] taken[n]).message)
        && !has_key(s.queued_messages, taken[n].message.event_id) by {
        let (k, j) = lemma_claim_origin(s.run_inputs, n);
        let m = s.run_inputs[k].messages[j];
        lemma_backed(s, m);
        lemma_find_key(s.queued_messages, m.event_id);
        if let Some(i) = find_key(s.queued_messages, m.event_id) {
            assert(s.queued_messages[i].event_id == s.run_inputs[k].messages[j].event_id);
        }
    }
    assert forall|a: int, b: int| 0 <= a < b < taken.len() implies (#[trigger] taken[a]).key() != (
    #[trigger] taken[b]).key() && (taken[a].session_id == taken[b].session_id
        ==> taken[a].message.enqueued_at_unix <= taken[b].message.enqueued_at_unix && s.position(
        taken[a].message.event_id,
    ) < s.position(taken[b].message.event_id)) by {
        let (k, j) = lemma_claim_origin(s.run_inputs, a);
        let (l, m) = lemma_claim_origin(s.run_inputs, b);
        if l < k {
            lemma_claims_in_order(s.run_inputs, l, m, k);
        }
        let first = s.run_inputs[k].messages[j];
        let second = s.run_inputs[l].messages[m];
        assert(s.backed(taken[a].message) && s.backed(taken[b].message));
        lemma_ledger_place(s, first);
        lemma_ledger_place(s, second);
        assert(first.event_id != second.event_id);
        assert(s.inbound_events[s.position(first.event_id)].id == first.event_id);
        assert(s.inbound_events[s.position(second.event_id)].id == second.event_id);
    }
    assert(s.claims_sound());
    assert(s.handover_sound()) by {
        assert forall|n: int, i: int|
            0 <= n < taken.len() && 0 <= i < s.queued_messages.len() && (
            #[trigger] taken[n]).session_id == (
            #[trigger] s.queued_messages[i]).session_id implies taken[n].message.enqueued_at_unix
            <= s.queued_messages[i].enqueued_at_unix && s.position(taken[n].message.event_id)
            < s.position(s.queued_messages[i].event_id) by {
            let (k, j) = lemma_claim_origin(s.run_inputs, n);
            let m = s.run_inputs[k].messages[j];
            assert(s.backed(taken[n].message));
            lemma_ledger_place(s, m);
            lemma_ledger_place(s, s.queued_messages[i]);
            assert(s.inbound_events[s.position(m.event_id)].id == m.event_id);
            assert(s.inbound_events[s.position(s.queued_messages[i].event_id)].id
                == s.queued_messages[i].event_id);
        }
    }
}

/// The place in the ledger of a message that agrees with it.
proof fn lemma_ledger_place(s: StateView, m: QueuedView)
    requires
        s.backed(m),
    ensures
        0 <= s.position(m.event_id) < s.inbound_events.len(),
        s.inbound_events[s.position(m.event_id)].id == m.event_id,
{
    lemma_find_key(s.inbound_events, m.event_id);
}

} // verus!

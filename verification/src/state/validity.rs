//! A state is valid exactly where nothing is wrong with it.
use vstd::prelude::*;

use super::view::{active_run, claims, claims_before, claims_of, ClaimedView, StateView};
use crate::fault::lemma_no_fault;
use crate::keyed::{distinct_keys, find_key, has_key, lemma_find_key, Keyed};
use crate::queue::RunInputView;
use crate::run::RunView;

verus! {

/// Keys are distinct exactly where no item repeats the key of an earlier one.
pub proof fn lemma_distinct_keys<T: Keyed>(items: Seq<T>)
    ensures
        distinct_keys(items) <==> forall|i: int|
            0 <= i < items.len() ==> !has_key(items.take(i), (#[trigger] items[i]).key()),
{
    broadcast use lemma_find_key;

    if distinct_keys(items) {
        assert forall|i: int| 0 <= i < items.len() implies !has_key(
            items.take(i),
            (#[trigger] items[i]).key(),
        ) by {
            let front = items.take(i);
            if let Some(j) = find_key(front, items[i].key()) {
                assert(front[j] == items[j]);
            }
        }
    }
    if forall|i: int|
        0 <= i < items.len() ==> !has_key(items.take(i), (#[trigger] items[i]).key()) {
        assert forall|i: int, j: int| 0 <= i < j < items.len() implies (
        #[trigger] items[i]).key() != (#[trigger] items[j]).key() by {
            let front = items.take(j);
            assert(front[i] == items[i]);
            assert(!has_key(front, items[j].key()));
        }
    }
}

/// `active_run` gives the first active run of the session, if there is one.
pub broadcast proof fn lemma_active_run(runs: Seq<RunView>, session_id: Seq<char>)
    ensures
        match #[trigger] active_run(runs, session_id) {
            Some(i) => {
                &&& 0 <= i < runs.len()
                &&& runs[i].active()
                &&& runs[i].session_id == session_id
                &&& forall|j: int|
                    0 <= j < i ==> !((#[trigger] runs[j]).active() && runs[j].session_id
                        == session_id)
            },
            None => forall|j: int|
                0 <= j < runs.len() ==> !((#[trigger] runs[j]).active() && runs[j].session_id
                    == session_id),
        },
    decreases runs.len(),
{
    if runs.len() > 0 {
        let front = runs.drop_last();
        lemma_active_run(front, session_id);
        assert(forall|j: int| 0 <= j < front.len() ==> front[j] == runs[j]);
        match active_run(front, session_id) {
            Some(i) => {},
            None => {
                assert forall|j: int| 0 <= j < runs.len() - 1 implies !((
                #[trigger] runs[j]).active() && runs[j].session_id == session_id) by {
                    assert(front[j] == runs[j]);
                }
            },
        }
    }
}

/// The first active run of a session is what `active_run` gives.
pub proof fn lemma_active_run_is(runs: Seq<RunView>, session_id: Seq<char>, i: int)
    requires
        0 <= i < runs.len(),
        runs[i].active(),
        runs[i].session_id == session_id,
        forall|j: int|
            0 <= j < i ==> !((#[trigger] runs[j]).active() && runs[j].session_id == session_id),
    ensures
        active_run(runs, session_id) == Some(i),
{
    lemma_active_run(runs, session_id);
    match active_run(runs, session_id) {
        Some(k) => {
            if k < i {
                assert(runs[k].active());
            } else if i < k {
                assert(runs[i].active());
            }
        },
        None => {
            assert(runs[i].active());
        },
    }
}

/// What the first `k` inputs took is a front part of what all took.
pub proof fn lemma_claims_prefix(inputs: Seq<RunInputView>, k: int)
    requires
        0 <= k <= inputs.len(),
    ensures
        claims(inputs.take(k)).len() <= claims(inputs).len(),
        claims(inputs.take(k)) =~= claims(inputs).take(claims(inputs.take(k)).len() as int),
    decreases inputs.len(),
{
    if k == inputs.len() {
        assert(inputs.take(k) =~= inputs);
    } else {
        lemma_claims_prefix(inputs.drop_last(), k);
        assert(inputs.drop_last().take(k) =~= inputs.take(k));
    }
}

/// Taking one more input adds its messages.
pub proof fn lemma_claims_step(inputs: Seq<RunInputView>, k: int)
    requires
        0 <= k < inputs.len(),
    ensures
        claims(inputs.take(k + 1)) == claims(inputs.take(k)) + claims_of(inputs[k]),
{
    assert(inputs.take(k + 1).drop_last() =~= inputs.take(k));
    assert(inputs.take(k + 1).last() == inputs[k]);
}

/// The messages before message `j` of input `k` are a front part of all that were
/// taken, and that message comes next.
pub proof fn lemma_claims_before(inputs: Seq<RunInputView>, k: int, j: int)
    requires
        0 <= k < inputs.len(),
        0 <= j < inputs[k].messages.len(),
    ensures
        ({
            let n = claims(inputs.take(k)).len() + j;
            &&& n < claims(inputs).len()
            &&& claims_before(inputs, k, j) =~= claims(inputs).take(n as int)
            &&& claims(inputs)[n as int] == (ClaimedView {
                session_id: inputs[k].session_id,
                message: inputs[k].messages[j],
            })
        }),
{
    let all = claims(inputs);
    let head = claims(inputs.take(k));
    let head_next = claims(inputs.take(k + 1));
    lemma_claims_step(inputs, k);
    lemma_claims_prefix(inputs, k);
    lemma_claims_prefix(inputs, k + 1);
    let n = head.len() + j;
    assert(head_next[n as int] == all[n as int]);
    assert forall|i: int| 0 <= i < n implies claims_before(inputs, k, j)[i] == all[i] by {
        assert(head_next[i] == all[i]);
    }
}

/// Every taken message is message `j` of some input `k`.
pub proof fn lemma_claim_origin(inputs: Seq<RunInputView>, n: int) -> (at: (int, int))
    requires
        0 <= n < claims(inputs).len(),
    ensures
        0 <= at.0 < inputs.len(),
        0 <= at.1 < inputs[at.0].messages.len(),
        n == claims(inputs.take(at.0)).len() + at.1,
        claims(inputs)[n] == (ClaimedView {
            session_id: inputs[at.0].session_id,
            message: inputs[at.0].messages[at.1],
        }),
    decreases inputs.len(),
{
    let front = inputs.drop_last();
    if n < claims(front).len() {
        let at = lemma_claim_origin(front, n);
        assert(front.take(at.0) =~= inputs.take(at.0));
        at
    } else {
        assert(inputs.take(inputs.len() - 1) =~= front);
        (inputs.len() - 1, n - claims(front).len())
    }
}

proof fn lemma_sessions(s: StateView)
    ensures
        s.sessions_fault() is None <==> s.sessions_sound(),
{
    let fault_at = |i: int| s.session_fault(i);
    lemma_no_fault(s.sessions.len(), fault_at);
    lemma_distinct_keys(s.sessions);
    if s.sessions_fault() is None {
        assert forall|i: int| 0 <= i < s.sessions.len() implies {
            &&& (#[trigger] s.sessions[i]).flaw() is None
            &&& s.sessions[i].updated_at_unix <= s.updated_at_unix
            &&& !has_key(s.sessions.take(i), s.sessions[i].key())
        } by {
            assert(fault_at(i) is None);
        }
    }
}

proof fn lemma_runs(s: StateView)
    ensures
        s.runs_fault() is None <==> s.runs_sound(),
{
    broadcast use lemma_active_run;

    let fault_at = |i: int| s.run_fault(i);
    lemma_no_fault(s.runs.len(), fault_at);
    lemma_distinct_keys(s.runs);
    if s.runs_fault() is None {
        assert forall|i: int| 0 <= i < s.runs.len() implies {
            &&& (#[trigger] s.runs[i]).flaw() is None
            &&& s.runs[i].updated_at_unix <= s.updated_at_unix
            &&& has_key(s.sessions, s.runs[i].session_id)
            &&& !has_key(s.runs.take(i), s.runs[i].key())
        } by {
            assert(fault_at(i) is None);
        }
        assert forall|i: int, j: int|
            0 <= i < j < s.runs.len() && (#[trigger] s.runs[i]).active() && (
            #[trigger] s.runs[j]).active() implies s.runs[i].session_id
            != s.runs[j].session_id by {
            assert(fault_at(j) is None);
            assert(s.runs.take(j)[i] == s.runs[i]);
        }
    }
    if s.runs_sound() {
        assert forall|i: int| 0 <= i < s.runs.len() implies (#[trigger] fault_at(i)) is None by {
            assert(s.runs[i].flaw() is None);
            if s.runs[i].active() {
                match active_run(s.runs.take(i), s.runs[i].session_id) {
                    Some(j) => {
                        assert(s.runs.take(i)[j] == s.runs[j]);
                    },
                    None => {},
                }
            }
        }
    }
}

proof fn lemma_events(s: StateView)
    ensures
        s.events_fault() is None <==> s.events_sound(),
{
    let fault_at = |i: int| s.event_fault(i);
    lemma_no_fault(s.inbound_events.len(), fault_at);
    lemma_distinct_keys(s.inbound_events);
    if s.events_fault() is None {
        assert forall|i: int| 0 <= i < s.inbound_events.len() implies {
            &&& (#[trigger] s.inbound_events[i]).flaw() is None
            &&& s.inbound_events[i].recorded_at_unix <= s.updated_at_unix
            &&& !has_key(s.inbound_events.take(i), s.inbound_events[i].key())
        } by {
            assert(fault_at(i) is None);
        }
    }
}

proof fn lemma_deliveries(s: StateView)
    ensures
        s.deliveries_fault() is None <==> s.deliveries_sound(),
{
    let fault_at = |i: int| s.delivery_fault(i);
    lemma_no_fault(s.outbound_deliveries.len(), fault_at);
    lemma_distinct_keys(s.outbound_deliveries);
    if s.deliveries_fault() is None {
        assert forall|i: int| 0 <= i < s.outbound_deliveries.len() implies {
            &&& (#[trigger] s.outbound_deliveries[i]).flaw() is None
            &&& s.outbound_deliveries[i].updated_at_unix <= s.updated_at_unix
            &&& has_key(s.sessions, s.outbound_deliveries[i].session_id)
            &&& !has_key(s.outbound_deliveries.take(i), s.outbound_deliveries[i].key())
        } by {
            assert(fault_at(i) is None);
        }
    }
}

pub proof fn lemma_queue(s: StateView)
    ensures
        s.queue_fault() is None <==> s.queue_sound(),
{
    broadcast use lemma_find_key;

    let fault_at = |i: int| s.queued_fault(i);
    lemma_no_fault(s.queued_messages.len(), fault_at);
    if s.queue_fault() is None {
        assert forall|i: int| 0 <= i < s.queued_messages.len() implies {
            &&& (#[trigger] s.queued_messages[i]).flaw() is None
            &&& s.backed(s.queued_messages[i])
            &&& has_key(s.sessions, s.queued_messages[i].session_id)
            &&& s.queued_messages[i].enqueued_at_unix <= s.updated_at_unix
        } by {
            assert(fault_at(i) is None);
        }
        assert forall|i: int, j: int| 0 <= i < j < s.queued_messages.len() implies {
            &&& s.position((#[trigger] s.queued_messages[i]).event_id) < s.position(
                (#[trigger] s.queued_messages[j]).event_id,
            )
            &&& s.queued_messages[i].session_id == s.queued_messages[j].session_id
                ==> s.queued_messages[i].enqueued_at_unix <= s.queued_messages[j].enqueued_at_unix
        } by {
            assert(fault_at(j) is None);
            assert(!s.queue_overtakes(j, s.position(s.queued_messages[j].event_id)));
            assert(!s.queue_time_drops(j));
        }
    }
    if s.queue_sound() {
        assert forall|i: int| 0 <= i < s.queued_messages.len() implies (
        #[trigger] fault_at(i)) is None by {
            assert(s.queued_messages[i].flaw() is None);
            let front = s.queued_messages.take(i);
            if let Some(j) = find_key(front, s.queued_messages[i].event_id) {
                assert(front[j] == s.queued_messages[j]);
            }
        }
    }
}

/// What `claims_sound` asks of the taken message at `n`, given those before it.
spec fn claim_stands(s: StateView, n: int) -> bool {
    let taken = claims(s.run_inputs);
    let claim = taken[n];
    &&& s.backed(claim.message)
    &&& !has_key(s.queued_messages, claim.message.event_id)
    &&& !has_key(taken.take(n), claim.message.event_id)
    &&& !s.claim_time_drops(taken.take(n), claim.session_id, claim.message.enqueued_at_unix)
    &&& !s.claim_overtakes(
        taken.take(n),
        claim.session_id,
        s.position(claim.message.event_id),
    )
}

proof fn lemma_claims_stand(s: StateView)
    ensures
        s.claims_sound() <==> forall|n: int|
            0 <= n < claims(s.run_inputs).len() ==> #[trigger] claim_stands(s, n),
{
    let taken = claims(s.run_inputs);
    lemma_distinct_keys(taken);
    if s.claims_sound() {
        assert forall|n: int| 0 <= n < taken.len() implies #[trigger] claim_stands(s, n) by {
            assert(!has_key(taken.take(n), taken[n].key()));
            let front = taken.take(n);
            assert(forall|i: int| 0 <= i < n ==> front[i] == taken[i]);
        }
    }
    if forall|n: int| 0 <= n < taken.len() ==> #[trigger] claim_stands(s, n) {
        assert forall|n: int| 0 <= n < taken.len() implies {
            &&& s.backed((#[trigger] taken[n]).message)
            &&& !has_key(s.queued_messages, taken[n].message.event_id)
            &&& !has_key(taken.take(n), taken[n].key())
        } by {
            assert(claim_stands(s, n));
        }
        assert forall|i: int, j: int|
            0 <= i < j < taken.len() && (#[trigger] taken[i]).session_id == (
            #[trigger] taken[j]).session_id implies {
            &&& taken[i].message.enqueued_at_unix <= taken[j].message.enqueued_at_unix
            &&& s.position(taken[i].message.event_id) < s.position(taken[j].message.event_id)
        } by {
            assert(claim_stands(s, j));
            assert(taken.take(j)[i] == taken[i]);
        }
    }
}

proof fn lemma_inputs(s: StateView)
    ensures
        s.inputs_fault() is None <==> s.inputs_sound() && s.claims_sound(),
{
    let fault_at = |k: int| s.input_fault(k);
    lemma_no_fault(s.run_inputs.len(), fault_at);
    lemma_distinct_keys(s.run_inputs);
    lemma_claims_stand(s);
    assert forall|k: int, j: int|
        0 <= k < s.run_inputs.len() && 0 <= j < s.run_inputs[k].messages.len() implies ((
    #[trigger] s.claim_fault(k, j)) is None <==> claim_stands(
        s,
        claims(s.run_inputs.take(k)).len() + j,
    )) by {
        lemma_claims_before(s.run_inputs, k, j);
    }
    if s.inputs_fault() is None {
        assert forall|k: int| 0 <= k < s.run_inputs.len() implies {
            &&& (#[trigger] s.run_inputs[k]).flaw() is None
            &&& s.input_head_fault(k) is None
            &&& s.input_time_fault(k) is None
            &&& !has_key(s.run_inputs.take(k), s.run_inputs[k].key())
        } by {
            assert(fault_at(k) is None);
        }
        assert forall|n: int| 0 <= n < claims(s.run_inputs).len() implies #[trigger] claim_stands(
            s,
            n,
        ) by {
            let at = lemma_claim_origin(s.run_inputs, n);
            assert(fault_at(at.0) is None);
            let inner = |j: int| s.claim_fault(at.0, j);
            lemma_no_fault(s.run_inputs[at.0].messages.len(), inner);
            assert(inner(at.1) is None);
            assert(s.claim_fault(at.0, at.1) is None);
        }
    }
    if s.inputs_sound() && s.claims_sound() {
        assert forall|k: int| 0 <= k < s.run_inputs.len() implies (
        #[trigger] fault_at(k)) is None by {
            assert(s.run_inputs[k].flaw() is None);
            assert(!has_key(s.run_inputs.take(k), s.run_inputs[k].key()));
            let inner = |j: int| s.claim_fault(k, j);
            lemma_no_fault(s.run_inputs[k].messages.len(), inner);
            assert forall|j: int| 0 <= j < s.run_inputs[k].messages.len() implies (
            #[trigger] inner(j)) is None by {
                lemma_claims_before(s.run_inputs, k, j);
                assert(claim_stands(s, claims(s.run_inputs.take(k)).len() + j));
                assert(s.claim_fault(k, j) is None);
            }
        }
    }
}

proof fn lemma_handovers(s: StateView)
    ensures
        s.handovers_fault() is None <==> s.handover_sound(),
{
    let taken = claims(s.run_inputs);
    let fault_at = |i: int| s.handover_fault(i);
    lemma_no_fault(s.queued_messages.len(), fault_at);
    if s.handovers_fault() is None {
        assert forall|i: int, j: int|
            0 <= i < taken.len() && 0 <= j < s.queued_messages.len() && (
            #[trigger] taken[i]).session_id == (
            #[trigger] s.queued_messages[j]).session_id implies {
            &&& taken[i].message.enqueued_at_unix <= s.queued_messages[j].enqueued_at_unix
            &&& s.position(taken[i].message.event_id) < s.position(s.queued_messages[j].event_id)
        } by {
            assert(fault_at(j) is None);
        }
    }
    if s.handover_sound() {
        assert forall|j: int| 0 <= j < s.queued_messages.len() implies (
        #[trigger] fault_at(j)) is None by {
            let queued = s.queued_messages[j];
        }
    }
}

/// Nothing is wrong with a state exactly where it is valid.
pub proof fn law_fault_free_is_valid(s: StateView)
    ensures
        s.fault() is None <==> s.valid(),
{
    lemma_sessions(s);
    lemma_runs(s);
    lemma_events(s);
    lemma_deliveries(s);
    lemma_queue(s);
    lemma_inputs(s);
    lemma_handovers(s);
}

} // verus!

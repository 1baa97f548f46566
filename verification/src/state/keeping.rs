//! Every operation on a valid state leads to a valid state.
use vstd::prelude::*;

use super::completion::delivery_ids;
use super::recover::{deliveries_recovery_time, run_to_interrupt, runs_recovery_time};
use super::session_run::later_of;
use super::validity::lemma_active_run;
use super::view::StateView;
use crate::keyed::{
    find_key, has_key, lemma_find_key, lemma_find_key_push, lemma_find_key_update, lookup, Keyed,
};
use crate::outbox::DeliveryView;
use crate::queue::RunInputView;
use crate::run::RunView;
use crate::session::SessionView;

verus! {

/// The empty state is valid.
pub proof fn law_fresh_is_valid(now: u64)
    ensures
        StateView::fresh(now).valid(),
{
}

/// Adding or refreshing a sound session keeps a state valid, and the session is
/// known afterwards.
pub proof fn law_with_session_keeps_valid(s: StateView, session: SessionView, now: u64)
    requires
        s.valid(),
        session.flaw() is None,
    ensures
        s.with_session(session, now).valid(),
        has_key(s.with_session(session, now).sessions, session.id),
{
    broadcast use lemma_find_key;

    let t = s.with_session(session, now);
    match find_key(s.sessions, session.id) {
        Some(i) => {
            let refreshed = s.sessions[i].refreshed(session);
            assert forall|key: Seq<char>| #[trigger] has_key(t.sessions, key) == has_key(
                s.sessions,
                key,
            ) by {
                lemma_find_key_update(s.sessions, i, refreshed, key);
            }
            assert(forall|j: int|
                0 <= j < t.sessions.len() ==> (#[trigger] t.sessions[j]).id == s.sessions[j].id);
            assert(t.sessions_sound());
        },
        None => {
            assert forall|key: Seq<char>| has_key(s.sessions, key) implies #[trigger] has_key(
                t.sessions,
                key,
            ) by {
                lemma_find_key_push(s.sessions, session, key);
            }
            lemma_find_key_push(s.sessions, session, session.id);
            assert(t.sessions_sound());
        },
    }
}

/// Adding a sound run keeps a state valid.
pub proof fn law_with_run_keeps_valid(s: StateView, run: RunView, now: u64)
    requires
        s.valid(),
        run.flaw() is None,
    ensures
        s.with_run(run, now) matches Ok(t) ==> t.valid(),
{
    broadcast use lemma_find_key, lemma_active_run;

    if let Ok(t) = s.with_run(run, now) {
        assert forall|key: Seq<char>| has_key(s.runs, key) implies #[trigger] lookup(t.runs, key)
            == lookup(s.runs, key) by {
            lemma_find_key_push(s.runs, run, key);
        }
        assert(t.runs_sound());
        assert forall|k: int| 0 <= k < t.run_inputs.len() implies lookup(
            t.runs,
            (#[trigger] t.run_inputs[k]).run_id,
        ) == lookup(s.runs, s.run_inputs[k].run_id) by {
            assert(has_key(s.runs, s.run_inputs[k].run_id));
        }
        assert(t.inputs_sound());
    }
}

/// What a change of a run must keep for the state to stay valid.
pub open spec fn keeps_run(change: spec_fn(RunView) -> Result<RunView, Seq<char>>, at: u64) -> bool {
    forall|run: RunView|
        run.flaw() is None ==> ((#[trigger] change(run)) matches Ok(next) ==> {
            &&& next.flaw() is None
            &&& next.id == run.id
            &&& next.session_id == run.session_id
            &&& next.created_at_unix == run.created_at_unix
            &&& next.updated_at_unix <= at
            &&& next.active() ==> run.active()
        })
}

/// Replacing a run by a sound later record keeps a state valid.
proof fn lemma_run_replaced(s: StateView, i: int, run: RunView, t: StateView)
    requires
        s.valid(),
        0 <= i < s.runs.len(),
        run.flaw() is None,
        run.id == s.runs[i].id,
        run.session_id == s.runs[i].session_id,
        run.created_at_unix == s.runs[i].created_at_unix,
        run.active() ==> s.runs[i].active(),
        s.updated_at_unix <= t.updated_at_unix,
        run.updated_at_unix <= t.updated_at_unix,
        t == (StateView {
            runs: s.runs.update(i, run),
            updated_at_unix: t.updated_at_unix,
            ..s
        }),
    ensures
        t.valid(),
{
    broadcast use lemma_find_key;

    assert forall|key: Seq<char>| #[trigger] find_key(t.runs, key) == find_key(s.runs, key) by {
        lemma_find_key_update(s.runs, i, run, key);
    }
    assert(forall|j: int| 0 <= j < t.runs.len() ==> (#[trigger] t.runs[j]).id == s.runs[j].id);
    assert(t.runs_sound());
    assert forall|k: int| 0 <= k < t.run_inputs.len() implies {
        let a = lookup(t.runs, (#[trigger] t.run_inputs[k]).run_id)->Some_0;
        let b = lookup(s.runs, s.run_inputs[k].run_id)->Some_0;
        &&& lookup(t.runs, t.run_inputs[k].run_id) is Some
        &&& a.session_id == b.session_id
        &&& a.created_at_unix == b.created_at_unix
    } by {
        assert(lookup(s.runs, s.run_inputs[k].run_id) is Some);
        assert(find_key(t.runs, t.run_inputs[k].run_id) == find_key(
            s.runs,
            t.run_inputs[k].run_id,
        ));
    }
    assert(t.inputs_sound());
}

/// A change of a run that keeps the record sound keeps a state valid.
pub proof fn lemma_run_change_keeps_valid(
    s: StateView,
    id: Seq<char>,
    change: spec_fn(RunView) -> Result<RunView, Seq<char>>,
    at: u64,
    now: u64,
)
    requires
        s.valid(),
        keeps_run(change, at),
    ensures
        s.with_run_changed(id, change, at, now) matches Ok(t) ==> t.valid(),
{
    broadcast use lemma_find_key;

    if let Some(i) = find_key(s.runs, id) {
        if let Ok(run) = change(s.runs[i]) {
            assert(s.runs[i].flaw() is None);
            let t = s.with_run_changed(id, change, at, now)->Ok_0;
            lemma_run_replaced(s, i, run, t);
        }
    }
}

/// Starting, interrupting, completing, failing or cancelling a run keeps a state
/// valid.
pub proof fn law_run_steps_keep_valid(s: StateView, id: Seq<char>, at: u64, now: u64)
    requires
        s.valid(),
    ensures
        s.with_run_started(id, at, now) matches Ok(t) ==> t.valid(),
        s.with_run_interrupted(id, at, now) matches Ok(t) ==> t.valid(),
        s.with_run_completed(id, at, Seq::empty(), now) matches Ok(t) ==> t.valid(),
        s.with_run_failed(id, at, now) matches Ok(t) ==> t.valid(),
        s.with_run_cancelled(id, at, now) matches Ok(t) ==> t.valid(),
{
    lemma_run_change_keeps_valid(s, id, |run: RunView| run.started(at), at, now);
    lemma_run_change_keeps_valid(s, id, |run: RunView| run.interrupted(at), at, now);
    lemma_run_change_keeps_valid(s, id, |run: RunView| run.completed(at, Seq::empty()), at, now);
    lemma_run_change_keeps_valid(s, id, |run: RunView| run.failed(at), at, now);
    lemma_run_change_keeps_valid(s, id, |run: RunView| run.cancelled(at), at, now);
}

/// Queueing a delivery keeps a state valid.
pub proof fn law_enqueue_keeps_valid(s: StateView, delivery: DeliveryView, now: u64)
    requires
        s.valid(),
    ensures
        s.enqueued(delivery, now) matches Ok((t, _)) ==> t.valid(),
{
    broadcast use lemma_find_key;

    if let Ok((t, status)) = s.enqueued(delivery, now) {
        if status is Queued {
            assert(t.deliveries_sound());
        }
    }
}

/// Replacing a delivery by a sound later record keeps a state valid.
pub proof fn lemma_delivery_replaced(s: StateView, i: int, delivery: DeliveryView, t: StateView)
    requires
        s.valid(),
        0 <= i < s.outbound_deliveries.len(),
        delivery.flaw() is None,
        delivery.id == s.outbound_deliveries[i].id,
        delivery.session_id == s.outbound_deliveries[i].session_id,
        s.updated_at_unix <= t.updated_at_unix,
        delivery.updated_at_unix <= t.updated_at_unix,
        t == (StateView {
            outbound_deliveries: s.outbound_deliveries.update(i, delivery),
            updated_at_unix: t.updated_at_unix,
            ..s
        }),
    ensures
        t.valid(),
{
    assert(forall|j: int|
        0 <= j < t.outbound_deliveries.len() ==> (#[trigger] t.outbound_deliveries[j]).id
            == s.outbound_deliveries[j].id);
    assert(t.deliveries_sound());
}

/// Trying a delivery, noting what came of it, and settling an uncertain one all
/// keep a state valid.
pub proof fn law_delivery_steps_keep_valid(
    s: StateView,
    id: Seq<char>,
    at: u64,
    error: Seq<char>,
    now: u64,
)
    requires
        s.valid(),
    ensures
        s.with_next_attempt(at, now) matches Ok((t, _)) ==> t.valid(),
        s.with_delivered(id, at, now) matches Ok((t, _)) ==> t.valid(),
        s.with_failed(id, at, error, now) matches Ok((t, _)) ==> t.valid(),
        s.with_uncertain(id, at, error, now) matches Ok((t, _)) ==> t.valid(),
        s.with_resolved_delivered(id, at, now) matches Ok((t, _)) ==> t.valid(),
        s.with_resolved_failed(id, at, error, now) matches Ok((t, _)) ==> t.valid(),
{
    broadcast use lemma_find_key;

    super::outbound::lemma_first_claimable(s.outbound_deliveries);
    if let Some(i) = super::outbound::first_claimable(s.outbound_deliveries) {
        lemma_attempt_keeps_valid(s, i, at, now);
    }
    if let Some(i) = find_key(s.outbound_deliveries, id) {
        let delivery = s.outbound_deliveries[i];
        assert(delivery.flaw() is None);
        if let Ok(next) = delivery.delivered(at) {
            lemma_delivery_replaced(s, i, next, s.with_delivery_at(i, next, now));
        }
        if let Ok(next) = delivery.failed(at, error) {
            lemma_delivery_replaced(s, i, next, s.with_delivery_at(i, next, now));
        }
        if let Ok(next) = delivery.uncertain(at, error) {
            lemma_delivery_replaced(s, i, next, s.with_delivery_at(i, next, now));
        }
        if let Ok(next) = delivery.resolved_delivered(at) {
            lemma_delivery_replaced(s, i, next, s.with_delivery_at(i, next, now));
        }
        if let Ok(next) = delivery.resolved_failed(at, error) {
            lemma_delivery_replaced(s, i, next, s.with_delivery_at(i, next, now));
        }
    }
}

/// Trying any one delivery keeps a state valid.
pub proof fn lemma_attempt_keeps_valid(s: StateView, i: int, at: u64, now: u64)
    requires
        s.valid(),
        0 <= i < s.outbound_deliveries.len(),
    ensures
        s.with_attempt_at(i, at, now) matches Ok((t, _)) ==> t.valid(),
{
    let delivery = s.outbound_deliveries[i];
    assert(delivery.flaw() is None);
    if let Ok(next) = delivery.begun(at) {
        lemma_delivery_replaced(s, i, next, s.with_delivery_at(i, next, now));
    }
}

proof fn lemma_delivery_recovery_time(deliveries: Seq<DeliveryView>, at: u64, base: u64)
    ensures
        base <= deliveries_recovery_time(deliveries, at, base),
        forall|i: int|
            0 <= i < deliveries.len() && (#[trigger] deliveries[i]).status is Delivering
                ==> later_of(at, deliveries[i].updated_at_unix) <= deliveries_recovery_time(
                deliveries,
                at,
                base,
            ),
    decreases deliveries.len(),
{
    if deliveries.len() > 0 {
        let front = deliveries.drop_last();
        lemma_delivery_recovery_time(front, at, base);
        assert forall|i: int|
            0 <= i < deliveries.len() && (
            #[trigger] deliveries[i]).status is Delivering implies later_of(
            at,
            deliveries[i].updated_at_unix,
        ) <= deliveries_recovery_time(deliveries, at, base) by {
            if i < front.len() {
                assert(front[i] == deliveries[i]);
            }
        }
    }
}

/// Startup recovery of deliveries keeps a state valid.
pub proof fn law_delivery_recovery_keeps_valid(s: StateView, at: u64)
    requires
        s.valid(),
    ensures
        s.deliveries_reconciled(at).valid(),
{
    let t = s.deliveries_reconciled(at);
    lemma_delivery_recovery_time(s.outbound_deliveries, at, s.updated_at_unix);
    crate::outbox::lemma_diagnostic_is_not_blank();
    assert forall|i: int| 0 <= i < t.outbound_deliveries.len() implies {
        &&& (#[trigger] t.outbound_deliveries[i]).flaw() is None
        &&& t.outbound_deliveries[i].id == s.outbound_deliveries[i].id
        &&& t.outbound_deliveries[i].session_id == s.outbound_deliveries[i].session_id
        &&& t.outbound_deliveries[i].updated_at_unix <= t.updated_at_unix
    } by {
        assert(s.outbound_deliveries[i].flaw() is None);
    }
    assert(t.deliveries_sound());
}

proof fn lemma_run_recovery_time(runs: Seq<RunView>, inputs: Seq<RunInputView>, at: u64, base: u64)
    ensures
        base <= runs_recovery_time(runs, inputs, at, base),
        forall|i: int|
            0 <= i < runs.len() && run_to_interrupt(#[trigger] runs[i], inputs) ==> later_of(
                at,
                runs[i].updated_at_unix,
            ) <= runs_recovery_time(runs, inputs, at, base),
    decreases runs.len(),
{
    if runs.len() > 0 {
        let front = runs.drop_last();
        lemma_run_recovery_time(front, inputs, at, base);
        assert forall|i: int|
            0 <= i < runs.len() && run_to_interrupt(#[trigger] runs[i], inputs) implies later_of(
            at,
            runs[i].updated_at_unix,
        ) <= runs_recovery_time(runs, inputs, at, base) by {
            if i < front.len() {
                assert(front[i] == runs[i]);
            }
        }
    }
}

/// Startup recovery of runs keeps a state valid.
pub proof fn law_run_recovery_keeps_valid(s: StateView, at: u64)
    requires
        s.valid(),
    ensures
        s.runs_reconciled(at).valid(),
{
    broadcast use lemma_find_key;

    let t = s.runs_reconciled(at);
    lemma_run_recovery_time(s.runs, s.run_inputs, at, s.updated_at_unix);
    assert forall|i: int| 0 <= i < t.runs.len() implies {
        &&& (#[trigger] t.runs[i]).flaw() is None
        &&& t.runs[i].id == s.runs[i].id
        &&& t.runs[i].session_id == s.runs[i].session_id
        &&& t.runs[i].created_at_unix == s.runs[i].created_at_unix
        &&& t.runs[i].active() == s.runs[i].active()
        &&& t.runs[i].updated_at_unix <= t.updated_at_unix
    } by {
        assert(s.runs[i].flaw() is None);
    }
    assert(t.runs_sound());
    assert forall|k: int| 0 <= k < t.run_inputs.len() implies {
        let a = lookup(t.runs, (#[trigger] t.run_inputs[k]).run_id)->Some_0;
        let b = lookup(s.runs, s.run_inputs[k].run_id)->Some_0;
        &&& lookup(t.runs, t.run_inputs[k].run_id) is Some
        &&& a.session_id == b.session_id
        &&& a.created_at_unix == b.created_at_unix
    } by {
        let key = s.run_inputs[k].run_id;
        assert(lookup(s.runs, key) is Some);
        let i = find_key(s.runs, key)->Some_0;
        assert(t.runs[i].id == key);
        crate::keyed::lemma_find_key_is(t.runs, key, i);
    }
    assert(t.inputs_sound());
}

/// Queueing several deliveries keeps a state valid.
pub proof fn lemma_all_enqueued_keeps_valid(s: StateView, deliveries: Seq<DeliveryView>, now: u64)
    requires
        s.valid(),
    ensures
        s.all_enqueued(deliveries, now) matches Ok(t) ==> t.valid(),
    decreases deliveries.len(),
{
    if deliveries.len() > 0 {
        lemma_all_enqueued_keeps_valid(s, deliveries.drop_last(), now);
        if let Ok(before) = s.all_enqueued(deliveries.drop_last(), now) {
            law_enqueue_keeps_valid(before, deliveries.last(), now);
        }
    }
}

/// Completing a run with output under distinct ids keeps a state valid.
pub proof fn law_completion_keeps_valid(
    s: StateView,
    id: Seq<char>,
    deliveries: Seq<DeliveryView>,
    at: u64,
    now: u64,
)
    requires
        s.valid(),
        crate::keyed::distinct_keys(deliveries),
    ensures
        s.with_output(id, deliveries, at, now) matches Ok(t) ==> t.valid(),
{
    let ids = delivery_ids(deliveries);
    let change = |run: RunView| run.completed(at, ids);
    assert(forall|i: int, j: int|
        0 <= i < j < ids.len() ==> #[trigger] ids[i] != #[trigger] ids[j]) by {
        assert(forall|i: int| 0 <= i < ids.len() ==> ids[i] == deliveries[i].key());
    }
    assert(keeps_run(change, at));
    lemma_run_change_keeps_valid(s, id, change, at, now);
    if let Ok(completed) = s.with_run_completed(id, at, ids, now) {
        lemma_all_enqueued_keeps_valid(completed, deliveries, now);
    }
}

} // verus!

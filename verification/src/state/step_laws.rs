//! What adding sessions and runs, and moving runs and deliveries along, change in a
//! state, and that they change nothing else.
use vstd::prelude::*;

use super::completion::delivery_ids;
use super::inbound_laws::lemma_session_known;
use super::outbound::{first_claimable, lemma_first_claimable};
use super::validity::lemma_active_run;
use super::view::{active_run, StateView};
use crate::keyed::{
    distinct_keys, find_key, has_key, lemma_find_key, lemma_find_key_is, lookup, Keyed,
};
use crate::outbox::{DeliveryView, OutboundDeliveryStatus};
use crate::run::{RunStatus, RunView};
use crate::session::SessionView;

verus! {

// ---------------------------------------------------- sessions and runs

/// An empty state has nothing in it but its time.
pub proof fn law_empty_state(now: u64)
    ensures
        ({
            let s = StateView::fresh(now);
            &&& s.sessions.len() == 0
            &&& s.runs.len() == 0
            &&& s.run_inputs.len() == 0
            &&& s.inbound_events.len() == 0
            &&& s.queued_messages.len() == 0
            &&& s.outbound_deliveries.len() == 0
            &&& s.updated_at_unix == now
        }),
{
}

/// A session whose id is not known comes last. One whose id is known stays where it
/// is, with its scope and time of creation, and with the later of both times of
/// update. No other session changes, nor anything that is not a session but the
/// time of the last update.
pub proof fn law_adding_a_session(s: StateView, session: SessionView, now: u64)
    ensures
        ({
            let t = s.with_session(session, now);
            &&& t.runs == s.runs
            &&& t.run_inputs == s.run_inputs
            &&& t.inbound_events == s.inbound_events
            &&& t.queued_messages == s.queued_messages
            &&& t.outbound_deliveries == s.outbound_deliveries
            &&& (forall|i: int|
                0 <= i < s.sessions.len() ==> (#[trigger] s.sessions[i]).id != session.id) ==> {
                &&& t.sessions == s.sessions.push(session)
                &&& t.updated_at_unix >= s.updated_at_unix
                &&& t.updated_at_unix >= session.updated_at_unix
                &&& t.updated_at_unix >= now
                &&& t.updated_at_unix == s.updated_at_unix || t.updated_at_unix
                    == session.updated_at_unix || t.updated_at_unix == now
            }
            &&& forall|i: int|
                0 <= i < s.sessions.len() && (#[trigger] s.sessions[i]).id == session.id && (forall|
                    j: int,
                |
                    0 <= j < i ==> (#[trigger] s.sessions[j]).id != session.id) ==> {
                    let updated: u64 = if s.sessions[i].updated_at_unix <= session.updated_at_unix {
                        session.updated_at_unix
                    } else {
                        s.sessions[i].updated_at_unix
                    };
                    &&& t.sessions == s.sessions.update(
                        i,
                        SessionView { updated_at_unix: updated, ..s.sessions[i] },
                    )
                    &&& t.updated_at_unix >= s.updated_at_unix
                    &&& t.updated_at_unix >= updated
                    &&& t.updated_at_unix >= now
                    &&& t.updated_at_unix == s.updated_at_unix || t.updated_at_unix == updated
                        || t.updated_at_unix == now
                }
        }),
{
    lemma_find_key(s.sessions, session.id);
    match find_key(s.sessions, session.id) {
        Some(k) => {
            assert(s.sessions[k].id == session.id);
            assert forall|i: int|
                0 <= i < s.sessions.len() && (#[trigger] s.sessions[i]).id == session.id && (forall|
                    j: int,
                |
                    0 <= j < i ==> (#[trigger] s.sessions[j]).id != session.id) implies i == k by {
                if i < k {
                    assert(s.sessions[i].key() != session.id);
                }
            }
        },
        None => {
            assert forall|i: int| 0 <= i < s.sessions.len() implies (#[trigger] s.sessions[i]).id
                != session.id by {
                assert(s.sessions[i].key() != session.id);
            }
        },
    }
}

/// A run is added exactly where its session is there, no run has its id, and, unless
/// it is completed, failed or cancelled, every other run of the session is. It then
/// comes last, and nothing else changes but the time of the last update.
pub proof fn law_adding_a_run(s: StateView, run: RunView, now: u64)
    ensures
        s.with_run(run, now) is Ok <==> {
            &&& exists|i: int|
                0 <= i < s.sessions.len() && (#[trigger] s.sessions[i]).id == run.session_id
            &&& forall|i: int| 0 <= i < s.runs.len() ==> (#[trigger] s.runs[i]).id != run.id
            &&& run.status is Completed || run.status is Failed || run.status is Cancelled
                || forall|i: int|
                0 <= i < s.runs.len() && (#[trigger] s.runs[i]).session_id == run.session_id
                    ==> s.runs[i].status is Completed || s.runs[i].status is Failed
                    || s.runs[i].status is Cancelled
        },
        s.with_run(run, now) matches Ok(t) ==> {
            &&& t == (StateView {
                runs: s.runs.push(run),
                updated_at_unix: t.updated_at_unix,
                ..s
            })
            &&& t.updated_at_unix >= s.updated_at_unix
            &&& t.updated_at_unix >= run.updated_at_unix
            &&& t.updated_at_unix >= now
            &&& t.updated_at_unix == s.updated_at_unix || t.updated_at_unix == run.updated_at_unix
                || t.updated_at_unix == now
        },
{
    lemma_session_known(s, run.session_id);
    lemma_find_key(s.runs, run.id);
    lemma_active_run(s.runs, run.session_id);
    match find_key(s.runs, run.id) {
        Some(k) => {
            assert(s.runs[k].id == run.id);
        },
        None => {
            assert forall|i: int| 0 <= i < s.runs.len() implies (#[trigger] s.runs[i]).id
                != run.id by {
                assert(s.runs[i].key() != run.id);
            }
        },
    }
    match active_run(s.runs, run.session_id) {
        Some(k) => {
            assert(s.runs[k].session_id == run.session_id);
        },
        None => {
            assert forall|i: int|
                0 <= i < s.runs.len() && (#[trigger] s.runs[i]).session_id
                    == run.session_id implies s.runs[i].status is Completed || s.runs[i].status
                is Failed || s.runs[i].status is Cancelled by {
                assert(!s.runs[i].active());
            }
        },
    }
}

/// Where the first run under an id stands.
proof fn lemma_first_run(s: StateView, id: Seq<char>, i: int)
    requires
        0 <= i < s.runs.len(),
        s.runs[i].id == id,
        forall|j: int| 0 <= j < i ==> (#[trigger] s.runs[j]).id != id,
    ensures
        find_key(s.runs, id) == Some(i),
{
    assert forall|j: int| 0 <= j < i implies (#[trigger] s.runs[j]).key() != id by {}
    lemma_find_key_is(s.runs, id, i);
}

/// No step can be taken of a run that is not there.
pub proof fn law_unknown_runs_take_no_step(
    s: StateView,
    id: Seq<char>,
    at: u64,
    outputs: Seq<Seq<char>>,
    now: u64,
)
    requires
        forall|i: int| 0 <= i < s.runs.len() ==> (#[trigger] s.runs[i]).id != id,
    ensures
        s.with_run_started(id, at, now) is Err,
        s.with_run_interrupted(id, at, now) is Err,
        s.with_run_completed(id, at, outputs, now) is Err,
        s.with_run_failed(id, at, now) is Err,
        s.with_run_cancelled(id, at, now) is Err,
{
    lemma_find_key(s.runs, id);
    if let Some(k) = find_key(s.runs, id) {
        assert(s.runs[k].id == id);
    }
}

/// Starting, interrupting, completing, failing and cancelling the run under an id
/// succeed exactly from the statuses that allow them, at any time from the run's
/// last update on. They change the status, the times and the output of that run
/// alone; nothing else changes but the time of the last update.
pub proof fn law_run_steps_change_one_run(
    s: StateView,
    id: Seq<char>,
    i: int,
    at: u64,
    outputs: Seq<Seq<char>>,
    now: u64,
)
    requires
        0 <= i < s.runs.len(),
        s.runs[i].id == id,
        forall|j: int| 0 <= j < i ==> (#[trigger] s.runs[j]).id != id,
    ensures
        ({
            let run = s.runs[i];
            let late = run.updated_at_unix <= at;
            &&& s.with_run_started(id, at, now) is Ok <==> run.status is Pending && late
            &&& s.with_run_interrupted(id, at, now) is Ok <==> (run.status is Pending || run.status
                is Running) && late
            &&& s.with_run_completed(id, at, outputs, now) is Ok <==> run.status is Running && late
            &&& s.with_run_failed(id, at, now) is Ok <==> (run.status is Pending || run.status
                is Running || run.status is Interrupted) && late
            &&& s.with_run_cancelled(id, at, now) is Ok <==> (run.status is Pending || run.status
                is Running || run.status is Interrupted) && late
        }),
        s.with_run_started(id, at, now) matches Ok(t) ==> t == (StateView {
            runs: s.runs.update(
                i,
                RunView {
                    status: RunStatus::Running,
                    updated_at_unix: at,
                    started_at_unix: Some(at),
                    ..s.runs[i]
                },
            ),
            updated_at_unix: t.updated_at_unix,
            ..s
        }),
        s.with_run_interrupted(id, at, now) matches Ok(t) ==> t == (StateView {
            runs: s.runs.update(
                i,
                RunView { status: RunStatus::Interrupted, updated_at_unix: at, ..s.runs[i] },
            ),
            updated_at_unix: t.updated_at_unix,
            ..s
        }),
        s.with_run_completed(id, at, outputs, now) matches Ok(t) ==> t == (StateView {
            runs: s.runs.update(
                i,
                RunView {
                    status: RunStatus::Completed,
                    updated_at_unix: at,
                    finished_at_unix: Some(at),
                    output_delivery_ids: outputs,
                    ..s.runs[i]
                },
            ),
            updated_at_unix: t.updated_at_unix,
            ..s
        }),
        s.with_run_failed(id, at, now) matches Ok(t) ==> t == (StateView {
            runs: s.runs.update(
                i,
                RunView {
                    status: RunStatus::Failed,
                    updated_at_unix: at,
                    finished_at_unix: Some(at),
                    ..s.runs[i]
                },
            ),
            updated_at_unix: t.updated_at_unix,
            ..s
        }),
        s.with_run_cancelled(id, at, now) matches Ok(t) ==> t == (StateView {
            runs: s.runs.update(
                i,
                RunView {
                    status: RunStatus::Cancelled,
                    updated_at_unix: at,
                    finished_at_unix: Some(at),
                    ..s.runs[i]
                },
            ),
            updated_at_unix: t.updated_at_unix,
            ..s
        }),
        forall|t: StateView|
            {
                ||| s.with_run_started(id, at, now) == Ok::<StateView, Seq<char>>(t)
                ||| s.with_run_interrupted(id, at, now) == Ok::<StateView, Seq<char>>(t)
                ||| s.with_run_completed(id, at, outputs, now) == Ok::<StateView, Seq<char>>(t)
                ||| s.with_run_failed(id, at, now) == Ok::<StateView, Seq<char>>(t)
                ||| s.with_run_cancelled(id, at, now) == Ok::<StateView, Seq<char>>(t)
            } ==> {
                &&& (#[trigger] t.updated_at_unix) >= s.updated_at_unix
                &&& t.updated_at_unix >= at
                &&& t.updated_at_unix >= now
                &&& t.updated_at_unix == s.updated_at_unix || t.updated_at_unix == at
                    || t.updated_at_unix == now
            },
{
    lemma_first_run(s, id, i);
}

// ---------------------------------------------------------- deliveries

/// Where the first delivery under an id stands.
proof fn lemma_first_delivery(s: StateView, id: Seq<char>, i: int)
    requires
        0 <= i < s.outbound_deliveries.len(),
        s.outbound_deliveries[i].id == id,
        forall|j: int| 0 <= j < i ==> (#[trigger] s.outbound_deliveries[j]).id != id,
    ensures
        find_key(s.outbound_deliveries, id) == Some(i),
{
    assert forall|j: int| 0 <= j < i implies (#[trigger] s.outbound_deliveries[j]).key()
        != id by {}
    lemma_find_key_is(s.outbound_deliveries, id, i);
}

proof fn lemma_delivery_known(s: StateView, id: Seq<char>)
    ensures
        has_key(s.outbound_deliveries, id) <==> exists|i: int|
            0 <= i < s.outbound_deliveries.len() && (#[trigger] s.outbound_deliveries[i]).id == id,
        lookup(s.outbound_deliveries, id) matches Some(d) ==> exists|i: int|
            0 <= i < s.outbound_deliveries.len() && #[trigger] s.outbound_deliveries[i] == d && d.id
                == id,
{
    lemma_find_key(s.outbound_deliveries, id);
    match find_key(s.outbound_deliveries, id) {
        Some(i) => {
            assert(s.outbound_deliveries[i].id == id);
        },
        None => {
            assert forall|i: int| 0 <= i < s.outbound_deliveries.len() implies (
            #[trigger] s.outbound_deliveries[i]).id != id by {
                assert(s.outbound_deliveries[i].key() != id);
            }
        },
    }
}

/// A delivery is accepted for the outbox exactly where it is sound and pending, its
/// session is there, and every delivery under its id is equal to it. Where there is
/// none yet it comes last; otherwise nothing changes. Nothing else changes but the
/// time of the last update.
pub proof fn law_queueing_a_delivery(s: StateView, delivery: DeliveryView, now: u64)
    requires
        distinct_keys(s.outbound_deliveries),
    ensures
        s.enqueued(delivery, now) is Ok <==> {
            &&& delivery.flaw() is None
            &&& delivery.status is Pending
            &&& exists|i: int|
                0 <= i < s.sessions.len() && (#[trigger] s.sessions[i]).id == delivery.session_id
            &&& forall|i: int|
                0 <= i < s.outbound_deliveries.len() && (#[trigger] s.outbound_deliveries[i]).id
                    == delivery.id ==> s.outbound_deliveries[i] == delivery
        },
        s.enqueued(delivery, now) matches Ok((t, status)) ==> {
            if exists|i: int|
                0 <= i < s.outbound_deliveries.len() && (#[trigger] s.outbound_deliveries[i]).id
                    == delivery.id {
                t == s && status is Duplicate
            } else {
                &&& status is Queued
                &&& t == (StateView {
                    outbound_deliveries: s.outbound_deliveries.push(delivery),
                    updated_at_unix: t.updated_at_unix,
                    ..s
                })
                &&& t.updated_at_unix >= s.updated_at_unix
                &&& t.updated_at_unix >= delivery.updated_at_unix
                &&& t.updated_at_unix >= now
                &&& t.updated_at_unix == s.updated_at_unix || t.updated_at_unix
                    == delivery.updated_at_unix || t.updated_at_unix == now
            }
        },
{
    lemma_session_known(s, delivery.session_id);
    lemma_delivery_known(s, delivery.id);
    assert forall|i: int|
        0 <= i < s.outbound_deliveries.len() && (#[trigger] s.outbound_deliveries[i]).id
            == delivery.id implies lookup(s.outbound_deliveries, delivery.id) == Some(
        s.outbound_deliveries[i],
    ) by {
        crate::keyed::lemma_find_own_key(s.outbound_deliveries, i);
    }
}

/// The delivery that is tried next is the first one that is pending or failed. It is
/// then under way, with one attempt more and no error, and nothing else changes but
/// the time of the last update. Where there is none, nothing changes. The attempt is
/// refused exactly where that delivery was updated later, or its attempts can no
/// longer be counted.
pub proof fn law_trying_the_next_delivery(s: StateView, at: u64, now: u64)
    ensures
        s.with_next_attempt(at, now) matches Ok((t, None)) ==> t == s,
        (s.with_next_attempt(at, now) matches Ok((_, None))) <==> forall|i: int|
            0 <= i < s.outbound_deliveries.len() ==> (#[trigger] s.outbound_deliveries[i]).status
                !is Pending && s.outbound_deliveries[i].status !is Failed,
        forall|i: int|
            0 <= i < s.outbound_deliveries.len() && ((#[trigger] s.outbound_deliveries[i]).status
                is Pending || s.outbound_deliveries[i].status is Failed) && (forall|j: int|
                0 <= j < i ==> (#[trigger] s.outbound_deliveries[j]).status !is Pending
                    && s.outbound_deliveries[j].status !is Failed) ==> {
                let delivery = s.outbound_deliveries[i];
                &&& s.with_next_attempt(at, now) is Ok <==> delivery.updated_at_unix <= at
                    && delivery.delivery_attempts < u32::MAX
                &&& s.with_next_attempt(at, now) matches Ok((t, tried)) ==> {
                    let next = DeliveryView {
                        status: OutboundDeliveryStatus::Delivering,
                        delivery_attempts: (delivery.delivery_attempts + 1) as u32,
                        updated_at_unix: at,
                        last_error: None,
                        ..delivery
                    };
                    &&& tried == Some(next)
                    &&& t == (StateView {
                        outbound_deliveries: s.outbound_deliveries.update(i, next),
                        updated_at_unix: t.updated_at_unix,
                        ..s
                    })
                    &&& t.updated_at_unix >= s.updated_at_unix
                    &&& t.updated_at_unix >= at
                    &&& t.updated_at_unix >= now
                    &&& t.updated_at_unix == s.updated_at_unix || t.updated_at_unix == at
                        || t.updated_at_unix == now
                }
            },
{
    lemma_first_claimable(s.outbound_deliveries);
    let found = first_claimable(s.outbound_deliveries);
    match found {
        None => {
            assert forall|i: int| 0 <= i < s.outbound_deliveries.len() implies (
            #[trigger] s.outbound_deliveries[i]).status !is Pending
                && s.outbound_deliveries[i].status !is Failed by {
                assert(!s.outbound_deliveries[i].claimable());
            }
        },
        Some(k) => {
            assert(s.outbound_deliveries[k].claimable());
            assert forall|i: int|
                0 <= i < s.outbound_deliveries.len() && ((
                #[trigger] s.outbound_deliveries[i]).status is Pending
                    || s.outbound_deliveries[i].status is Failed) && (forall|j: int|
                    0 <= j < i ==> (#[trigger] s.outbound_deliveries[j]).status !is Pending
                        && s.outbound_deliveries[j].status !is Failed) implies i == k by {
                assert(s.outbound_deliveries[i].claimable());
                if k < i {
                    assert(s.outbound_deliveries[k].status !is Pending);
                }
            }
        },
    }
}

/// Nothing can be noted of a delivery that is not there.
pub proof fn law_unknown_deliveries_take_no_step(
    s: StateView,
    id: Seq<char>,
    at: u64,
    error: Seq<char>,
    now: u64,
)
    requires
        forall|i: int|
            0 <= i < s.outbound_deliveries.len() ==> (#[trigger] s.outbound_deliveries[i]).id != id,
    ensures
        s.with_delivered(id, at, now) is Err,
        s.with_failed(id, at, error, now) is Err,
        s.with_uncertain(id, at, error, now) is Err,
        s.with_resolved_delivered(id, at, now) is Err,
        s.with_resolved_failed(id, at, error, now) is Err,
{
    lemma_delivery_known(s, id);
}

/// Noting that the delivery under an id was accepted, failed or is uncertain
/// succeeds exactly while it is under way, and settling it exactly while it is
/// uncertain, at any time from its last update on, and with an error or reason, where
/// there is one, that is not blank. The delivery that is handed back is the one that
/// now stands in its place, with its new status, time and error. Nothing else changes
/// but the time of the last update.
pub proof fn law_delivery_steps_change_one_delivery(
    s: StateView,
    id: Seq<char>,
    i: int,
    at: u64,
    error: Seq<char>,
    now: u64,
)
    requires
        0 <= i < s.outbound_deliveries.len(),
        s.outbound_deliveries[i].id == id,
        forall|j: int| 0 <= j < i ==> (#[trigger] s.outbound_deliveries[j]).id != id,
    ensures
        ({
            let delivery = s.outbound_deliveries[i];
            let late = delivery.updated_at_unix <= at;
            let told = !crate::text::is_blank(error);
            &&& s.with_delivered(id, at, now) is Ok <==> delivery.status is Delivering && late
            &&& s.with_failed(id, at, error, now) is Ok <==> delivery.status is Delivering && late
                && told
            &&& s.with_uncertain(id, at, error, now) is Ok <==> delivery.status is Delivering
                && late && told
            &&& s.with_resolved_delivered(id, at, now) is Ok <==> delivery.status is Uncertain
                && late
            &&& s.with_resolved_failed(id, at, error, now) is Ok <==> delivery.status is Uncertain
                && late && told
            &&& s.with_delivered(id, at, now) matches Ok((_, next)) ==> next == (DeliveryView {
                status: OutboundDeliveryStatus::Delivered,
                updated_at_unix: at,
                delivered_at_unix: Some(at),
                ..delivery
            })
            &&& s.with_failed(id, at, error, now) matches Ok((_, next)) ==> next == (DeliveryView {
                status: OutboundDeliveryStatus::Failed,
                updated_at_unix: at,
                last_error: Some(error),
                ..delivery
            })
            &&& s.with_uncertain(id, at, error, now) matches Ok((_, next)) ==> next == (
            DeliveryView {
                status: OutboundDeliveryStatus::Uncertain,
                updated_at_unix: at,
                last_error: Some(error),
                ..delivery
            })
            &&& s.with_resolved_delivered(id, at, now) matches Ok((_, next)) ==> next == (
            DeliveryView {
                status: OutboundDeliveryStatus::Delivered,
                updated_at_unix: at,
                delivered_at_unix: Some(at),
                last_error: None,
                ..delivery
            })
            &&& s.with_resolved_failed(id, at, error, now) matches Ok((_, next)) ==> next == (
            DeliveryView {
                status: OutboundDeliveryStatus::Failed,
                updated_at_unix: at,
                last_error: Some(error),
                ..delivery
            })
        }),
        forall|t: StateView, next: DeliveryView|
            #![trigger s.outbound_deliveries.update(i, next), t.updated_at_unix]
            {
                ||| s.with_delivered(id, at, now) == Ok::<(StateView, DeliveryView), Seq<char>>(
                    (t, next),
                )
                ||| s.with_failed(id, at, error, now) == Ok::<(StateView, DeliveryView), Seq<char>>(
                    (t, next),
                )
                ||| s.with_uncertain(id, at, error, now) == Ok::<
                    (StateView, DeliveryView),
                    Seq<char>,
                >((t, next))
                ||| s.with_resolved_delivered(id, at, now) == Ok::<
                    (StateView, DeliveryView),
                    Seq<char>,
                >((t, next))
                ||| s.with_resolved_failed(id, at, error, now) == Ok::<
                    (StateView, DeliveryView),
                    Seq<char>,
                >((t, next))
            } ==> {
                &&& t == (StateView {
                    outbound_deliveries: s.outbound_deliveries.update(i, next),
                    updated_at_unix: t.updated_at_unix,
                    ..s
                })
                &&& t.updated_at_unix >= s.updated_at_unix
                &&& t.updated_at_unix >= at
                &&& t.updated_at_unix >= now
                &&& t.updated_at_unix == s.updated_at_unix || t.updated_at_unix == at
                    || t.updated_at_unix == now
            },
{
    lemma_first_delivery(s, id, i);
}

// ---------------------------------------------------------- completion

/// Queueing deliveries one after the other.
proof fn lemma_all_enqueued(s: StateView, deliveries: Seq<DeliveryView>, now: u64)
    requires
        distinct_keys(s.outbound_deliveries),
        distinct_keys(deliveries),
    ensures
        s.all_enqueued(deliveries, now) is Ok <==> forall|d: int|
            0 <= d < deliveries.len() ==> {
                &&& (#[trigger] deliveries[d]).flaw() is None
                &&& deliveries[d].status is Pending
                &&& exists|i: int|
                    0 <= i < s.sessions.len() && (#[trigger] s.sessions[i]).id
                        == deliveries[d].session_id
                &&& forall|i: int|
                    0 <= i < s.outbound_deliveries.len() && (#[trigger] s.outbound_deliveries[i]).id
                        == deliveries[d].id ==> s.outbound_deliveries[i] == deliveries[d]
            },
        s.all_enqueued(deliveries, now) matches Ok(t) ==> {
            &&& distinct_keys(t.outbound_deliveries)
            &&& t.outbound_deliveries == s.outbound_deliveries + deliveries.filter(
                |d: DeliveryView|
                    forall|i: int|
                        0 <= i < s.outbound_deliveries.len() ==> (
                        #[trigger] s.outbound_deliveries[i]).id != d.id,
            )
            &&& t == (StateView {
                outbound_deliveries: t.outbound_deliveries,
                updated_at_unix: t.updated_at_unix,
                ..s
            })
            &&& t.updated_at_unix >= s.updated_at_unix
            &&& t.updated_at_unix == s.updated_at_unix || t.updated_at_unix == now || exists|d: int|
                0 <= d < deliveries.len() && (#[trigger] deliveries[d]).updated_at_unix
                    == t.updated_at_unix
            &&& forall|d: int|
                0 <= d < deliveries.len() && (forall|i: int|
                    0 <= i < s.outbound_deliveries.len() ==> (#[trigger] s.outbound_deliveries[i]).id
                        != (#[trigger] deliveries[d]).id) ==> deliveries[d].updated_at_unix
                    <= t.updated_at_unix
        },
    decreases deliveries.len(),
{
    reveal(Seq::filter);
    let new = |d: DeliveryView|
        forall|i: int|
            0 <= i < s.outbound_deliveries.len() ==> (#[trigger] s.outbound_deliveries[i]).id
                != d.id;
    let fits = |x: DeliveryView|
        {
            &&& x.flaw() is None
            &&& x.status is Pending
            &&& exists|i: int|
                0 <= i < s.sessions.len() && (#[trigger] s.sessions[i]).id == x.session_id
            &&& forall|i: int|
                0 <= i < s.outbound_deliveries.len() && (#[trigger] s.outbound_deliveries[i]).id
                    == x.id ==> s.outbound_deliveries[i] == x
        };
    if deliveries.len() == 0 {
        assert(s.outbound_deliveries =~= s.outbound_deliveries + deliveries.filter(new));
    } else {
        let front = deliveries.drop_last();
        let m = deliveries.len() - 1;
        let last = deliveries[m];
        assert(forall|d: int| 0 <= d < front.len() ==> #[trigger] front[d] == deliveries[d]);
        assert(distinct_keys(front)) by {
            assert forall|i: int, j: int| 0 <= i < j < front.len() implies (
            #[trigger] front[i]).key() != (#[trigger] front[j]).key() by {
                assert(deliveries[i].key() != deliveries[j].key());
            }
        }
        lemma_all_enqueued(s, front, now);
        if let Ok(before) = s.all_enqueued(front, now) {
            law_queueing_a_delivery(before, last, now);
            let n = s.outbound_deliveries.len() as int;
            let added = front.filter(new);
            // What was added so far has other ids.
            assert forall|i: int|
                n <= i < before.outbound_deliveries.len() implies (
            #[trigger] before.outbound_deliveries[i]).id != last.id by {
                assert(before.outbound_deliveries[i] == added[i - n]);
                crate::keyed::lemma_filter_origin(front, new, i - n);
                let k = front.index_of(added[i - n]);
                assert(deliveries[k].key() != deliveries[m].key());
            }
            assert forall|i: int| 0 <= i < n implies #[trigger] s.outbound_deliveries[i]
                == before.outbound_deliveries[i] by {}
            if s.all_enqueued(deliveries, now) is Ok {
                let t = s.all_enqueued(deliveries, now)->Ok_0;
                assert forall|d: int|
                    0 <= d < deliveries.len() && (forall|i: int|
                        0 <= i < s.outbound_deliveries.len() ==> (
                        #[trigger] s.outbound_deliveries[i]).id != (
                        #[trigger] deliveries[d]).id) implies deliveries[d].updated_at_unix
                    <= t.updated_at_unix by {
                    if d < m {
                        assert(front[d] == deliveries[d]);
                    } else {
                        assert(new(last));
                        assert forall|i: int| 0 <= i < before.outbound_deliveries.len() implies (
                        #[trigger] before.outbound_deliveries[i]).id != last.id by {
                            if i < n {
                                assert(s.outbound_deliveries[i].id != last.id);
                            }
                        }
                    }
                }
                if t.updated_at_unix == before.updated_at_unix {
                    if t.updated_at_unix != s.updated_at_unix && t.updated_at_unix != now {
                        let d = choose|d: int|
                            0 <= d < front.len() && (#[trigger] front[d]).updated_at_unix
                                == before.updated_at_unix;
                        assert(deliveries[d].updated_at_unix == t.updated_at_unix);
                    }
                } else if t.updated_at_unix != now {
                    assert(deliveries[m].updated_at_unix == t.updated_at_unix);
                }
                if new(last) {
                    assert forall|i: int| 0 <= i < before.outbound_deliveries.len() implies (
                    #[trigger] before.outbound_deliveries[i]).id != last.id by {
                        if i < n {
                            assert(s.outbound_deliveries[i].id != last.id);
                        }
                    }
                    assert(t.outbound_deliveries =~= s.outbound_deliveries + added.push(last));
                    assert forall|i: int, j: int|
                        0 <= i < j < t.outbound_deliveries.len() implies (
                    #[trigger] t.outbound_deliveries[i]).key() != (
                    #[trigger] t.outbound_deliveries[j]).key() by {
                        assert(t.outbound_deliveries[i] == before.outbound_deliveries[i]);
                        if j < before.outbound_deliveries.len() {
                            assert(before.outbound_deliveries[i].key()
                                != before.outbound_deliveries[j].key());
                        }
                    }
                } else {
                    let i = choose|i: int|
                        0 <= i < n && (#[trigger] s.outbound_deliveries[i]).id == last.id;
                    assert(before.outbound_deliveries[i].id == last.id);
                }
            }
            assert((forall|i: int|
                0 <= i < s.outbound_deliveries.len() && (#[trigger] s.outbound_deliveries[i]).id
                    == last.id ==> s.outbound_deliveries[i] == last) <==> (forall|i: int|
                0 <= i < before.outbound_deliveries.len() && (
                #[trigger] before.outbound_deliveries[i]).id == last.id
                    ==> before.outbound_deliveries[i] == last)) by {
                if forall|i: int|
                    0 <= i < before.outbound_deliveries.len() && (
                    #[trigger] before.outbound_deliveries[i]).id == last.id
                        ==> before.outbound_deliveries[i] == last {
                    assert forall|i: int|
                        0 <= i < s.outbound_deliveries.len() && (
                        #[trigger] s.outbound_deliveries[i]).id
                            == last.id implies s.outbound_deliveries[i] == last by {
                        assert(before.outbound_deliveries[i] == s.outbound_deliveries[i]);
                    }
                } else {
                    let i = choose|i: int|
                        0 <= i < before.outbound_deliveries.len() && (
                        #[trigger] before.outbound_deliveries[i]).id == last.id
                            && before.outbound_deliveries[i] != last;
                    assert(i < n);
                    assert(s.outbound_deliveries[i].id == last.id);
                }
            }
            assert(before.enqueued(last, now) is Ok <==> fits(last));
            assert(s.all_enqueued(deliveries, now) is Ok <==> fits(last));
            assert forall|d: int| 0 <= d < front.len() implies fits(#[trigger] deliveries[d]) by {
                assert(front[d] == deliveries[d]);
            }
            if fits(last) {
                assert forall|d: int| 0 <= d < deliveries.len() implies fits(
                    #[trigger] deliveries[d],
                ) by {}
            } else {
                assert(!fits(deliveries[m]));
            }
        } else {
            let d = choose|d: int| 0 <= d < front.len() && !fits(#[trigger] front[d]);
            assert(0 <= d < front.len() && !fits(front[d]));
            assert(!fits(deliveries[d]));
        }
        assert(s.all_enqueued(deliveries, now) is Ok <==> forall|d: int|
            0 <= d < deliveries.len() ==> fits(#[trigger] deliveries[d]));
    }
}

/// Completing the run under an id with deliveries of different ids succeeds exactly
/// while it is running, from its last update on, and where each of the deliveries is
/// accepted for the outbox. The run then is completed with the ids of all the
/// deliveries, in order, and those that were not there stand last in the outbox, in
/// order. Nothing else changes but the time of the last update.
pub proof fn law_completing_with_output(
    s: StateView,
    id: Seq<char>,
    i: int,
    deliveries: Seq<DeliveryView>,
    at: u64,
    now: u64,
)
    requires
        distinct_keys(s.outbound_deliveries),
        distinct_keys(deliveries),
        0 <= i < s.runs.len(),
        s.runs[i].id == id,
        forall|j: int| 0 <= j < i ==> (#[trigger] s.runs[j]).id != id,
    ensures
        s.with_output(id, deliveries, at, now) is Ok <==> {
            &&& s.runs[i].status is Running
            &&& s.runs[i].updated_at_unix <= at
            &&& forall|d: int|
                0 <= d < deliveries.len() ==> {
                    &&& (#[trigger] deliveries[d]).flaw() is None
                    &&& deliveries[d].status is Pending
                    &&& exists|p: int|
                        0 <= p < s.sessions.len() && (#[trigger] s.sessions[p]).id
                            == deliveries[d].session_id
                    &&& forall|p: int|
                        0 <= p < s.outbound_deliveries.len() && (
                        #[trigger] s.outbound_deliveries[p]).id == deliveries[d].id
                            ==> s.outbound_deliveries[p] == deliveries[d]
                }
        },
        s.with_output(id, deliveries, at, now) matches Ok(t) ==> {
            &&& t.runs == s.runs.update(
                i,
                RunView {
                    status: RunStatus::Completed,
                    updated_at_unix: at,
                    finished_at_unix: Some(at),
                    output_delivery_ids: deliveries.map_values(|d: DeliveryView| d.id),
                    ..s.runs[i]
                },
            )
            &&& t.outbound_deliveries == s.outbound_deliveries + deliveries.filter(
                |d: DeliveryView|
                    forall|p: int|
                        0 <= p < s.outbound_deliveries.len() ==> (
                        #[trigger] s.outbound_deliveries[p]).id != d.id,
            )
            &&& t.sessions == s.sessions
            &&& t.run_inputs == s.run_inputs
            &&& t.inbound_events == s.inbound_events
            &&& t.queued_messages == s.queued_messages
            &&& t.updated_at_unix >= s.updated_at_unix
            &&& t.updated_at_unix >= at
            &&& t.updated_at_unix >= now
            &&& t.updated_at_unix == s.updated_at_unix || t.updated_at_unix == at
                || t.updated_at_unix == now || exists|d: int|
                0 <= d < deliveries.len() && (#[trigger] deliveries[d]).updated_at_unix
                    == t.updated_at_unix
            &&& forall|d: int|
                0 <= d < deliveries.len() && (forall|i: int|
                    0 <= i < s.outbound_deliveries.len() ==> (#[trigger] s.outbound_deliveries[i]).id
                        != (#[trigger] deliveries[d]).id) ==> deliveries[d].updated_at_unix
                    <= t.updated_at_unix
        },
{
    let ids = delivery_ids(deliveries);
    assert(ids =~= deliveries.map_values(|d: DeliveryView| d.id));
    law_run_steps_change_one_run(s, id, i, at, ids, now);
    if let Ok(completed) = s.with_run_completed(id, at, ids, now) {
        lemma_all_enqueued(completed, deliveries, now);
    }
}

} // verus!

//! What startup recovery does to runs and deliveries, and what it reports of them,
//! in terms of the records before and after it.
use vstd::prelude::*;

use super::recover::{
    any_delivering, any_to_interrupt, deliveries_recovery_time, delivery_recovered, run_recovered,
    run_to_interrupt, runs_recovery_time, runs_report, unsettled_ids,
};
use super::view::StateView;
use crate::keyed::{find_key, lemma_find_key, Keyed};
use crate::outbox::{DeliveryView, OutboundDeliveryStatus, STARTUP_RECOVERY_DIAGNOSTIC};
use crate::queue::RunInputView;
use crate::run::{RunStatus, RunView};

verus! {

/// A run has no input exactly where no input carries its id.
proof fn lemma_to_interrupt(run: RunView, inputs: Seq<RunInputView>)
    ensures
        run_to_interrupt(run, inputs) <==> run.status is Running || (run.status is Pending
            && forall|k: int| 0 <= k < inputs.len() ==> (#[trigger] inputs[k]).run_id != run.id),
{
    lemma_find_key(inputs, run.id);
    match find_key(inputs, run.id) {
        Some(k) => {
            assert(inputs[k].run_id == run.id);
        },
        None => {
            assert forall|k: int| 0 <= k < inputs.len() implies (#[trigger] inputs[k]).run_id
                != run.id by {
                assert(inputs[k].key() != run.id);
            }
        },
    }
}

/// The ids of the records that `wanted` picks, in order, one record longer.
proof fn lemma_picked_ids<T>(
    items: Seq<T>,
    wanted: spec_fn(T) -> bool,
    id: spec_fn(T) -> Seq<char>,
)
    requires
        items.len() > 0,
    ensures
        items.filter(wanted).map_values(id) == if wanted(items.last()) {
            items.drop_last().filter(wanted).map_values(id).push(id(items.last()))
        } else {
            items.drop_last().filter(wanted).map_values(id)
        },
{
    reveal(Seq::filter);
    let before = items.drop_last().filter(wanted);
    if wanted(items.last()) {
        assert(before.push(items.last()).map_values(id) =~= before.map_values(id).push(
            id(items.last()),
        ));
    }
}

proof fn lemma_runs_report(
    runs: Seq<RunView>,
    inputs: Seq<RunInputView>,
    after: Seq<RunView>,
    at: u64,
)
    requires
        after.len() == runs.len(),
        forall|i: int|
            0 <= i < runs.len() ==> #[trigger] after[i] == run_recovered(runs[i], inputs, at),
    ensures
        ({
            let report = runs_report(runs, inputs);
            &&& report.failed == runs.filter(|r: RunView| r.status is Failed).map_values(
                |r: RunView| r.id,
            )
            &&& report.failed == after.filter(|r: RunView| r.status is Failed).map_values(
                |r: RunView| r.id,
            )
            &&& report.interrupted == after.filter(
                |r: RunView| r.status is Interrupted,
            ).map_values(|r: RunView| r.id)
            &&& report.resumable_pending == after.filter(
                |r: RunView| r.status is Pending,
            ).map_values(|r: RunView| r.id)
        }),
    decreases runs.len(),
{
    let id = |r: RunView| r.id;
    let failed = |r: RunView| r.status is Failed;
    let interrupted = |r: RunView| r.status is Interrupted;
    let pending = |r: RunView| r.status is Pending;
    if runs.len() == 0 {
        reveal(Seq::filter);
        let report = runs_report(runs, inputs);
        assert(report.failed =~= runs.filter(failed).map_values(id));
        assert(report.failed =~= after.filter(failed).map_values(id));
        assert(report.interrupted =~= after.filter(interrupted).map_values(id));
        assert(report.resumable_pending =~= after.filter(pending).map_values(id));
    } else {
        assert forall|i: int| 0 <= i < runs.len() - 1 implies #[trigger] after.drop_last()[i]
            == run_recovered(runs.drop_last()[i], inputs, at) by {
            assert(after[i] == run_recovered(runs[i], inputs, at));
        }
        lemma_runs_report(runs.drop_last(), inputs, after.drop_last(), at);
        lemma_picked_ids(runs, failed, id);
        lemma_picked_ids(after, failed, id);
        lemma_picked_ids(after, interrupted, id);
        lemma_picked_ids(after, pending, id);
        assert(after.last() == run_recovered(runs.last(), inputs, at));
    }
}

/// The report of a run recovery lists the runs by the status in which it leaves
/// them: the failed ids are those of the failed runs, which it does not touch,
/// the interrupted ids those of the runs that are interrupted afterwards, and the
/// ids to resume those of the runs that are pending afterwards. Each list is in
/// the order of the runs, and leaves none out.
pub proof fn law_run_report_follows_the_statuses(s: StateView, at: u64)
    ensures
        ({
            let after = s.runs_reconciled(at).runs;
            let report = runs_report(s.runs, s.run_inputs);
            &&& report.failed == s.runs.filter(|r: RunView| r.status is Failed).map_values(
                |r: RunView| r.id,
            )
            &&& report.failed == after.filter(|r: RunView| r.status is Failed).map_values(
                |r: RunView| r.id,
            )
            &&& report.interrupted == after.filter(
                |r: RunView| r.status is Interrupted,
            ).map_values(|r: RunView| r.id)
            &&& report.resumable_pending == after.filter(
                |r: RunView| r.status is Pending,
            ).map_values(|r: RunView| r.id)
        }),
{
    lemma_runs_report(s.runs, s.run_inputs, s.runs_reconciled(at).runs, at);
}

proof fn lemma_runs_recovery_time(
    runs: Seq<RunView>,
    inputs: Seq<RunInputView>,
    at: u64,
    base: u64,
)
    ensures
        ({
            let t = runs_recovery_time(runs, inputs, at, base);
            &&& base <= t
            &&& forall|i: int|
                0 <= i < runs.len() && run_to_interrupt(#[trigger] runs[i], inputs) ==> at <= t
                    && runs[i].updated_at_unix <= t
            &&& t == base || exists|i: int|
                0 <= i < runs.len() && run_to_interrupt(#[trigger] runs[i], inputs) && (t == at
                    || t == runs[i].updated_at_unix)
        }),
    decreases runs.len(),
{
    if runs.len() > 0 {
        let front = runs.drop_last();
        lemma_runs_recovery_time(front, inputs, at, base);
        assert(forall|i: int| 0 <= i < front.len() ==> #[trigger] runs[i] == front[i]);
        let before = runs_recovery_time(front, inputs, at, base);
        let t = runs_recovery_time(runs, inputs, at, base);
        if t == before {
            if before != base {
                let i = choose|i: int|
                    0 <= i < front.len() && run_to_interrupt(#[trigger] front[i], inputs) && (before
                        == at || before == front[i].updated_at_unix);
                assert(run_to_interrupt(runs[i], inputs));
            }
        } else {
            assert(run_to_interrupt(runs[runs.len() - 1], inputs));
        }
    }
}

/// Recovering the runs interrupts those that were running and those that wait
/// although no input carries their id, at the time of the recovery or, where that
/// is later, their last update. Every other run stays as it is, and so does
/// everything that is not a run. It reports a change exactly where a run changed.
pub proof fn law_run_recovery_interrupts_runs_without_work(s: StateView, at: u64)
    ensures
        ({
            let t = s.runs_reconciled(at);
            &&& t.runs.len() == s.runs.len()
            &&& forall|i: int|
                0 <= i < s.runs.len() ==> #[trigger] t.runs[i] == if s.runs[i].status is Running
                    || (s.runs[i].status is Pending && forall|k: int|
                    0 <= k < s.run_inputs.len() ==> (#[trigger] s.run_inputs[k]).run_id
                        != s.runs[i].id) {
                    RunView {
                        status: RunStatus::Interrupted,
                        updated_at_unix: if s.runs[i].updated_at_unix <= at {
                            at
                        } else {
                            s.runs[i].updated_at_unix
                        },
                        ..s.runs[i]
                    }
                } else {
                    s.runs[i]
                }
            &&& any_to_interrupt(s.runs, s.run_inputs) <==> t.runs != s.runs
            &&& t.runs == s.runs ==> t == s
            &&& t.updated_at_unix == s.updated_at_unix || exists|i: int|
                0 <= i < s.runs.len() && #[trigger] t.runs[i] != s.runs[i]
                    && t.runs[i].updated_at_unix == t.updated_at_unix
            &&& s.updated_at_unix <= t.updated_at_unix
            &&& forall|i: int|
                0 <= i < s.runs.len() && #[trigger] t.runs[i] != s.runs[i]
                    ==> t.runs[i].updated_at_unix <= t.updated_at_unix
            &&& t.sessions == s.sessions
            &&& t.run_inputs == s.run_inputs
            &&& t.inbound_events == s.inbound_events
            &&& t.queued_messages == s.queued_messages
            &&& t.outbound_deliveries == s.outbound_deliveries
        }),
{
    let t = s.runs_reconciled(at);
    assert forall|i: int| 0 <= i < s.runs.len() implies #[trigger] t.runs[i] == if s.runs[i].status
        is Running || (s.runs[i].status is Pending && forall|k: int|
        0 <= k < s.run_inputs.len() ==> (#[trigger] s.run_inputs[k]).run_id != s.runs[i].id) {
        RunView {
            status: RunStatus::Interrupted,
            updated_at_unix: if s.runs[i].updated_at_unix <= at {
                at
            } else {
                s.runs[i].updated_at_unix
            },
            ..s.runs[i]
        }
    } else {
        s.runs[i]
    } by {
        lemma_to_interrupt(s.runs[i], s.run_inputs);
    }
    assert forall|i: int| 0 <= i < s.runs.len() implies (run_to_interrupt(
        #[trigger] s.runs[i],
        s.run_inputs,
    ) <==> t.runs[i] != s.runs[i]) by {
        if run_to_interrupt(s.runs[i], s.run_inputs) {
            assert(t.runs[i].status is Interrupted);
        }
    }
    lemma_runs_recovery_time(s.runs, s.run_inputs, at, s.updated_at_unix);
    if any_to_interrupt(s.runs, s.run_inputs) {
        let i = choose|i: int|
            0 <= i < s.runs.len() && run_to_interrupt(#[trigger] s.runs[i], s.run_inputs);
        assert(t.runs[i] != s.runs[i]);
    } else {
        assert(t.runs =~= s.runs);
        assert(t =~= s);
    }
    if t.updated_at_unix != s.updated_at_unix {
        let i = choose|i: int|
            0 <= i < s.runs.len() && run_to_interrupt(#[trigger] s.runs[i], s.run_inputs) && (
            t.updated_at_unix == at || t.updated_at_unix == s.runs[i].updated_at_unix);
        assert(t.runs[i] != s.runs[i]);
        assert(t.runs[i].updated_at_unix == t.updated_at_unix);
    }
}

proof fn lemma_unsettled_ids(deliveries: Seq<DeliveryView>, after: Seq<DeliveryView>, at: u64)
    requires
        after.len() == deliveries.len(),
        forall|i: int|
            0 <= i < deliveries.len() ==> #[trigger] after[i] == delivery_recovered(
                deliveries[i],
                at,
            ),
    ensures
        unsettled_ids(deliveries) == after.filter(
            |d: DeliveryView| d.status is Uncertain,
        ).map_values(|d: DeliveryView| d.id),
    decreases deliveries.len(),
{
    let id = |d: DeliveryView| d.id;
    let uncertain = |d: DeliveryView| d.status is Uncertain;
    if deliveries.len() == 0 {
        reveal(Seq::filter);
        assert(unsettled_ids(deliveries) =~= after.filter(uncertain).map_values(id));
    } else {
        assert forall|i: int| 0 <= i < deliveries.len() - 1 implies #[trigger] after.drop_last()[i]
            == delivery_recovered(deliveries.drop_last()[i], at) by {
            assert(after[i] == delivery_recovered(deliveries[i], at));
        }
        lemma_unsettled_ids(deliveries.drop_last(), after.drop_last(), at);
        lemma_picked_ids(after, uncertain, id);
        assert(after.last() == delivery_recovered(deliveries.last(), at));
    }
}

/// The report of a delivery recovery lists the ids of the deliveries that are
/// uncertain afterwards, in their order, and leaves none out.
pub proof fn law_delivery_report_follows_the_statuses(s: StateView, at: u64)
    ensures
        unsettled_ids(s.outbound_deliveries) == s.deliveries_reconciled(
            at,
        ).outbound_deliveries.filter(|d: DeliveryView| d.status is Uncertain).map_values(
            |d: DeliveryView| d.id,
        ),
{
    lemma_unsettled_ids(
        s.outbound_deliveries,
        s.deliveries_reconciled(at).outbound_deliveries,
        at,
    );
}

proof fn lemma_deliveries_recovery_time(deliveries: Seq<DeliveryView>, at: u64, base: u64)
    ensures
        ({
            let t = deliveries_recovery_time(deliveries, at, base);
            &&& base <= t
            &&& forall|i: int|
                0 <= i < deliveries.len() && (#[trigger] deliveries[i]).status is Delivering
                    ==> at <= t && deliveries[i].updated_at_unix <= t
            &&& t == base || exists|i: int|
                0 <= i < deliveries.len() && (#[trigger] deliveries[i]).status is Delivering && (t
                    == at || t == deliveries[i].updated_at_unix)
        }),
    decreases deliveries.len(),
{
    if deliveries.len() > 0 {
        let front = deliveries.drop_last();
        lemma_deliveries_recovery_time(front, at, base);
        assert(forall|i: int| 0 <= i < front.len() ==> #[trigger] deliveries[i] == front[i]);
        let before = deliveries_recovery_time(front, at, base);
        let t = deliveries_recovery_time(deliveries, at, base);
        if t == before {
            if before != base {
                let i = choose|i: int|
                    0 <= i < front.len() && (#[trigger] front[i]).status is Delivering && (before
                        == at || before == front[i].updated_at_unix);
                assert(deliveries[i].status is Delivering);
            }
        } else {
            assert(deliveries[deliveries.len() - 1].status is Delivering);
        }
    }
}

/// Recovering the deliveries turns each that was under way into an uncertain one,
/// with its attempts kept, a note of the restart, and the time of the recovery or,
/// where that is later, of its last update. Every other delivery stays as it is,
/// and so does everything that is not a delivery. It reports a change exactly
/// where a delivery changed.
pub proof fn law_delivery_recovery_gives_up_what_was_under_way(s: StateView, at: u64)
    ensures
        ({
            let t = s.deliveries_reconciled(at);
            let before = s.outbound_deliveries;
            let after = t.outbound_deliveries;
            &&& after.len() == before.len()
            &&& forall|i: int|
                0 <= i < before.len() ==> #[trigger] after[i] == if before[i].status is Delivering {
                    DeliveryView {
                        status: OutboundDeliveryStatus::Uncertain,
                        updated_at_unix: if before[i].updated_at_unix <= at {
                            at
                        } else {
                            before[i].updated_at_unix
                        },
                        last_error: Some(STARTUP_RECOVERY_DIAGNOSTIC@),
                        ..before[i]
                    }
                } else {
                    before[i]
                }
            &&& any_delivering(before) <==> after != before
            &&& after == before ==> t == s
            &&& t.updated_at_unix == s.updated_at_unix || exists|i: int|
                0 <= i < before.len() && #[trigger] after[i] != before[i]
                    && after[i].updated_at_unix == t.updated_at_unix
            &&& s.updated_at_unix <= t.updated_at_unix
            &&& forall|i: int|
                0 <= i < before.len() && #[trigger] after[i] != before[i]
                    ==> after[i].updated_at_unix <= t.updated_at_unix
            &&& t.sessions == s.sessions
            &&& t.runs == s.runs
            &&& t.run_inputs == s.run_inputs
            &&& t.inbound_events == s.inbound_events
            &&& t.queued_messages == s.queued_messages
        }),
{
    let t = s.deliveries_reconciled(at);
    let before = s.outbound_deliveries;
    let after = t.outbound_deliveries;
    assert forall|i: int| 0 <= i < before.len() implies ((#[trigger] before[i]).status is Delivering
        <==> after[i] != before[i]) by {
        if before[i].status is Delivering {
            assert(after[i].status is Uncertain);
        }
    }
    lemma_deliveries_recovery_time(before, at, s.updated_at_unix);
    if any_delivering(before) {
        let i = choose|i: int|
            0 <= i < before.len() && (#[trigger] before[i]).status is Delivering;
        assert(after[i] != before[i]);
    } else {
        assert(after =~= before);
        assert(t =~= s);
    }
    if t.updated_at_unix != s.updated_at_unix {
        let i = choose|i: int|
            0 <= i < before.len() && (#[trigger] before[i]).status is Delivering && (
            t.updated_at_unix == at || t.updated_at_unix == before[i].updated_at_unix);
        assert(after[i] != before[i]);
        assert(after[i].updated_at_unix == t.updated_at_unix);
    }
}

} // verus!

//! What happens to unfinished work when the runtime starts again.
use vstd::prelude::*;

use super::model::RuntimeState;
use super::session_run::{later, later_of};
use super::view::StateView;
use crate::keyed::{find_record, has_key};
use crate::outbox::{
    DeliveryView, OutboundDeliveryId, OutboundDeliveryStartupRecoveryReport, OutboundDeliveryStatus,
    STARTUP_RECOVERY_DIAGNOSTIC,
};
use crate::queue::RunInputView;
use crate::run::{RunId, RunRecoveryView, RunStartupRecoveryReport, RunStatus, RunView};

verus! {

/// A delivery after startup: one that was under way becomes uncertain.
pub open spec fn delivery_recovered(delivery: DeliveryView, at: u64) -> DeliveryView {
    if delivery.status is Delivering {
        DeliveryView {
            status: OutboundDeliveryStatus::Uncertain,
            updated_at_unix: later_of(at, delivery.updated_at_unix),
            last_error: Some(STARTUP_RECOVERY_DIAGNOSTIC@),
            ..delivery
        }
    } else {
        delivery
    }
}

/// The deliveries after startup.
pub open spec fn deliveries_recovered(deliveries: Seq<DeliveryView>, at: u64) -> Seq<
    DeliveryView,
> {
    Seq::new(deliveries.len(), |i: int| delivery_recovered(deliveries[i], at))
}

/// The deliveries whose outcome nobody knows, in order.
pub open spec fn unsettled_ids(deliveries: Seq<DeliveryView>) -> Seq<Seq<char>>
    decreases deliveries.len(),
{
    if deliveries.len() == 0 {
        Seq::empty()
    } else {
        let before = unsettled_ids(deliveries.drop_last());
        if deliveries.last().status is Delivering || deliveries.last().status is Uncertain {
            before.push(deliveries.last().id)
        } else {
            before
        }
    }
}

/// Whether some delivery was under way.
pub open spec fn any_delivering(deliveries: Seq<DeliveryView>) -> bool {
    exists|i: int| 0 <= i < deliveries.len() && (#[trigger] deliveries[i]).status is Delivering
}

/// The latest of `base` and the times at which deliveries become uncertain.
pub open spec fn deliveries_recovery_time(
    deliveries: Seq<DeliveryView>,
    at: u64,
    base: u64,
) -> u64
    decreases deliveries.len(),
{
    if deliveries.len() == 0 {
        base
    } else {
        let before = deliveries_recovery_time(deliveries.drop_last(), at, base);
        if deliveries.last().status is Delivering {
            later_of(before, later_of(at, deliveries.last().updated_at_unix))
        } else {
            before
        }
    }
}

/// Whether startup interrupts a run: it was running, or it waits without input.
pub open spec fn run_to_interrupt(run: RunView, inputs: Seq<RunInputView>) -> bool {
    run.status is Running || (run.status is Pending && !has_key(inputs, run.id))
}

/// A run after startup.
pub open spec fn run_recovered(run: RunView, inputs: Seq<RunInputView>, at: u64) -> RunView {
    if run_to_interrupt(run, inputs) {
        RunView {
            status: RunStatus::Interrupted,
            updated_at_unix: later_of(at, run.updated_at_unix),
            ..run
        }
    } else {
        run
    }
}

/// The runs after startup.
pub open spec fn runs_recovered(
    runs: Seq<RunView>,
    inputs: Seq<RunInputView>,
    at: u64,
) -> Seq<RunView> {
    Seq::new(runs.len(), |i: int| run_recovered(runs[i], inputs, at))
}

/// What startup reports of the runs: pending ones that have input can resume,
/// interrupted ones (those interrupted just now among them), and failed ones.
pub open spec fn runs_report(runs: Seq<RunView>, inputs: Seq<RunInputView>) -> RunRecoveryView
    decreases runs.len(),
{
    if runs.len() == 0 {
        RunRecoveryView {
            resumable_pending: Seq::empty(),
            interrupted: Seq::empty(),
            failed: Seq::empty(),
        }
    } else {
        let before = runs_report(runs.drop_last(), inputs);
        let run = runs.last();
        if run.status is Pending && has_key(inputs, run.id) {
            RunRecoveryView {
                resumable_pending: before.resumable_pending.push(run.id),
                ..before
            }
        } else if run_to_interrupt(run, inputs) || run.status is Interrupted {
            RunRecoveryView { interrupted: before.interrupted.push(run.id), ..before }
        } else if run.status is Failed {
            RunRecoveryView { failed: before.failed.push(run.id), ..before }
        } else {
            before
        }
    }
}

/// Whether startup interrupts some run.
pub open spec fn any_to_interrupt(runs: Seq<RunView>, inputs: Seq<RunInputView>) -> bool {
    exists|i: int| 0 <= i < runs.len() && run_to_interrupt(#[trigger] runs[i], inputs)
}

/// The latest of `base` and the times at which startup interrupts runs.
pub open spec fn runs_recovery_time(
    runs: Seq<RunView>,
    inputs: Seq<RunInputView>,
    at: u64,
    base: u64,
) -> u64
    decreases runs.len(),
{
    if runs.len() == 0 {
        base
    } else {
        let before = runs_recovery_time(runs.drop_last(), inputs, at, base);
        if run_to_interrupt(runs.last(), inputs) {
            later_of(before, later_of(at, runs.last().updated_at_unix))
        } else {
            before
        }
    }
}

impl StateView {
    /// This state after startup has looked at the deliveries.
    pub open spec fn deliveries_reconciled(self, at: u64) -> StateView {
        StateView {
            outbound_deliveries: deliveries_recovered(self.outbound_deliveries, at),
            updated_at_unix: deliveries_recovery_time(
                self.outbound_deliveries,
                at,
                self.updated_at_unix,
            ),
            ..self
        }
    }

    /// This state after startup has looked at the runs.
    pub open spec fn runs_reconciled(self, at: u64) -> StateView {
        StateView {
            runs: runs_recovered(self.runs, self.run_inputs, at),
            updated_at_unix: runs_recovery_time(
                self.runs,
                self.run_inputs,
                at,
                self.updated_at_unix,
            ),
            ..self
        }
    }
}

impl RuntimeState {
    /// Turns every delivery that was under way into an uncertain one, and reports
    /// all whose outcome nobody knows, and whether anything changed. It never
    /// fails.
    pub fn reconcile_outbound_deliveries_at_startup(&mut self, recovered_at_unix: u64) -> (r:
        Result<(OutboundDeliveryStartupRecoveryReport, bool), String>)
        ensures
            final(self)@ == old(self)@.deliveries_reconciled(recovered_at_unix),
            match r {
                Ok((report, changed)) => {
                    &&& report@ == unsettled_ids(old(self)@.outbound_deliveries)
                    &&& changed == any_delivering(old(self)@.outbound_deliveries)
                },
                Err(_) => false,
            },
    {
        let ghost before = self@;
        let ghost deliveries = before.outbound_deliveries;
        let mut ids: Vec<OutboundDeliveryId> = Vec::new();
        assert(crate::keyed::views(ids@) =~= unsettled_ids(deliveries.take(0)));
        let mut changed: bool = false;
        let mut latest: u64 = self.updated_at_unix;
        let mut i: usize = 0;
        while i < self.outbound_deliveries.len()
            invariant
                i <= self.outbound_deliveries@.len(),
                deliveries == before.outbound_deliveries,
                self@ == (StateView { outbound_deliveries: self@.outbound_deliveries, ..before }),
                self@.outbound_deliveries.len() == deliveries.len(),
                forall|j: int|
                    0 <= j < i ==> #[trigger] self@.outbound_deliveries[j] == delivery_recovered(
                        deliveries[j],
                        recovered_at_unix,
                    ),
                forall|j: int|
                    i <= j < deliveries.len() ==> #[trigger] self@.outbound_deliveries[j]
                        == deliveries[j],
                crate::keyed::views(ids@) == unsettled_ids(deliveries.take(i as int)),
                changed == any_delivering(deliveries.take(i as int)),
                latest == deliveries_recovery_time(
                    deliveries.take(i as int),
                    recovered_at_unix,
                    before.updated_at_unix,
                ),
            decreases self.outbound_deliveries@.len() - i,
        {
            let ghost front = deliveries.take(i as int);
            let ghost next_front = deliveries.take(i + 1);
            proof {
                assert(next_front.drop_last() =~= front);
                assert(next_front.last() == deliveries[i as int]);
                assert(self@.outbound_deliveries[i as int] == deliveries[i as int]);
                assert(forall|j: int| 0 <= j < i ==> #[trigger] next_front[j] == front[j]);
            }
            let ghost current = self@.outbound_deliveries;
            let ghost ids_before = ids@;
            match self.outbound_deliveries[i].status {
                OutboundDeliveryStatus::Delivering => {
                    let recovered_at: u64 = later(
                        recovered_at_unix,
                        self.outbound_deliveries[i].updated_at_unix,
                    );
                    proof {
                        crate::outbox::lemma_diagnostic_is_not_blank();
                    }
                    match self.outbound_deliveries[i].mark_uncertain(
                        recovered_at,
                        STARTUP_RECOVERY_DIAGNOSTIC,
                    ) {
                        Ok(()) => {},
                        Err(e) => return Err(e),
                    }
                    assert(self@.outbound_deliveries =~= current.update(
                        i as int,
                        delivery_recovered(deliveries[i as int], recovered_at_unix),
                    ));
                    ids.push(self.outbound_deliveries[i].id.clone());
                    assert(crate::keyed::views(ids@) =~= crate::keyed::views(ids_before).push(
                        deliveries[i as int].id,
                    ));
                    latest = later(latest, recovered_at);
                    changed = true;
                    assert(next_front[i as int].status is Delivering);
                },
                OutboundDeliveryStatus::Uncertain => {
                    ids.push(self.outbound_deliveries[i].id.clone());
                    assert(crate::keyed::views(ids@) =~= crate::keyed::views(ids_before).push(
                        deliveries[i as int].id,
                    ));
                },
                OutboundDeliveryStatus::Pending
                | OutboundDeliveryStatus::Delivered
                | OutboundDeliveryStatus::Failed => {},
            }
            proof {
                if any_delivering(front) {
                    let j = choose|j: int|
                        0 <= j < front.len() && (#[trigger] front[j]).status is Delivering;
                    assert(next_front[j].status is Delivering);
                }
            }
            i = i + 1;
        }
        proof {
            assert(deliveries.take(deliveries.len() as int) =~= deliveries);
            assert(self@.outbound_deliveries =~= deliveries_recovered(
                deliveries,
                recovered_at_unix,
            ));
        }
        self.updated_at_unix = latest;
        Ok((OutboundDeliveryStartupRecoveryReport::new(ids), changed))
    }

    /// Interrupts every run that was running or that waits without input, and
    /// reports the runs that can resume, are interrupted or failed, and whether
    /// anything changed. It never fails.
    pub fn reconcile_runs_at_startup(&mut self, recovered_at_unix: u64) -> (r: Result<
        (RunStartupRecoveryReport, bool),
        String,
    >)
        ensures
            final(self)@ == old(self)@.runs_reconciled(recovered_at_unix),
            match r {
                Ok((report, changed)) => {
                    &&& report@ == runs_report(old(self)@.runs, old(self)@.run_inputs)
                    &&& changed == any_to_interrupt(old(self)@.runs, old(self)@.run_inputs)
                },
                Err(_) => false,
            },
    {
        let ghost before = self@;
        let ghost runs = before.runs;
        let ghost inputs = before.run_inputs;
        let mut resumable_ids: Vec<RunId> = Vec::new();
        let mut interrupted_ids: Vec<RunId> = Vec::new();
        let mut failed_ids: Vec<RunId> = Vec::new();
        proof {
            assert(crate::keyed::views(resumable_ids@) =~= Seq::empty());
            assert(crate::keyed::views(interrupted_ids@) =~= Seq::empty());
            assert(crate::keyed::views(failed_ids@) =~= Seq::empty());
        }
        let mut changed: bool = false;
        let mut latest: u64 = self.updated_at_unix;
        let mut i: usize = 0;
        while i < self.runs.len()
            invariant
                i <= self.runs@.len(),
                runs == before.runs,
                inputs == before.run_inputs,
                self@ == (StateView { runs: self@.runs, ..before }),
                self@.runs.len() == runs.len(),
                forall|j: int|
                    0 <= j < i ==> #[trigger] self@.runs[j] == run_recovered(
                        runs[j],
                        inputs,
                        recovered_at_unix,
                    ),
                forall|j: int| i <= j < runs.len() ==> #[trigger] self@.runs[j] == runs[j],
                (RunRecoveryView {
                    resumable_pending: crate::keyed::views(resumable_ids@),
                    interrupted: crate::keyed::views(interrupted_ids@),
                    failed: crate::keyed::views(failed_ids@),
                }) == runs_report(runs.take(i as int), inputs),
                changed == any_to_interrupt(runs.take(i as int), inputs),
                latest == runs_recovery_time(
                    runs.take(i as int),
                    inputs,
                    recovered_at_unix,
                    before.updated_at_unix,
                ),
            decreases self.runs@.len() - i,
        {
            let ghost front = runs.take(i as int);
            let ghost next_front = runs.take(i + 1);
            proof {
                assert(next_front.drop_last() =~= front);
                assert(next_front.last() == runs[i as int]);
                assert(self@.runs[i as int] == runs[i as int]);
                assert(forall|j: int| 0 <= j < i ==> #[trigger] next_front[j] == front[j]);
            }
            let ghost current = self@.runs;
            let ghost resumable_before = resumable_ids@;
            let ghost interrupted_before = interrupted_ids@;
            let ghost failed_before = failed_ids@;
            let status = self.runs[i].status;
            let waits_with_input = status == RunStatus::Pending && find_record(
                &self.run_inputs,
                &self.runs[i].id.text,
            ).is_some();
            if waits_with_input {
                resumable_ids.push(self.runs[i].id.clone());
                assert(crate::keyed::views(resumable_ids@) =~= crate::keyed::views(
                    resumable_before,
                ).push(runs[i as int].id));
            } else if status == RunStatus::Pending || status == RunStatus::Running {
                let interrupted_at: u64 = later(recovered_at_unix, self.runs[i].updated_at_unix);
                match self.runs[i].interrupt(interrupted_at) {
                    Ok(()) => {},
                    Err(e) => return Err(e),
                }
                assert(self@.runs =~= current.update(
                    i as int,
                    run_recovered(runs[i as int], inputs, recovered_at_unix),
                ));
                interrupted_ids.push(self.runs[i].id.clone());
                assert(crate::keyed::views(interrupted_ids@) =~= crate::keyed::views(
                    interrupted_before,
                ).push(runs[i as int].id));
                latest = later(latest, interrupted_at);
                changed = true;
                assert(run_to_interrupt(next_front[i as int], inputs));
            } else if status == RunStatus::Interrupted {
                interrupted_ids.push(self.runs[i].id.clone());
                assert(crate::keyed::views(interrupted_ids@) =~= crate::keyed::views(
                    interrupted_before,
                ).push(runs[i as int].id));
            } else if status == RunStatus::Failed {
                failed_ids.push(self.runs[i].id.clone());
                assert(crate::keyed::views(failed_ids@) =~= crate::keyed::views(
                    failed_before,
                ).push(runs[i as int].id));
            }
            proof {
                if any_to_interrupt(front, inputs) {
                    let j = choose|j: int|
                        0 <= j < front.len() && run_to_interrupt(#[trigger] front[j], inputs);
                    assert(run_to_interrupt(next_front[j], inputs));
                }
            }
            i = i + 1;
        }
        proof {
            assert(runs.take(runs.len() as int) =~= runs);
            assert(self@.runs =~= runs_recovered(runs, inputs, recovered_at_unix));
        }
        self.updated_at_unix = latest;
        Ok((RunStartupRecoveryReport::new(resumable_ids, interrupted_ids, failed_ids), changed))
    }
}

} // verus!

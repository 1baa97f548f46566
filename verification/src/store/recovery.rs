//! Startup recovery of deliveries and runs.
use vstd::prelude::*;

use super::file_store::{gives, ActionView, StateStore, StoreAction, StoreView, Transition};
use crate::clock::unix_seconds_now;
use crate::outbox::OutboundDeliveryStartupRecoveryReport;
use crate::run::{RunRecoveryView, RunStartupRecoveryReport};
use crate::state::recover::{any_delivering, any_to_interrupt, runs_report, unsettled_ids};

verus! {

impl StoreView {
    /// Recovering deliveries at startup: what changes is written, and otherwise
    /// what is there is confirmed to be durable before it is reported.
    pub open spec fn deliveries_recovered(self, at: u64, now: u64) -> Result<
        (Seq<Seq<char>>, ActionView),
        Seq<char>,
    > {
        match self.loaded(now) {
            Err(e) => Err(e),
            Ok(state) => {
                let report = unsettled_ids(state.outbound_deliveries);
                if any_delivering(state.outbound_deliveries) {
                    match self.write(state.deliveries_reconciled(at)) {
                        Err(e) => Err(e),
                        Ok(action) => Ok((report, action)),
                    }
                } else {
                    Ok((report, ActionView::ConfirmDurable))
                }
            },
        }
    }

    /// Recovering runs at startup: what changes is written.
    pub open spec fn runs_recovered(self, at: u64, now: u64) -> Result<
        (RunRecoveryView, ActionView),
        Seq<char>,
    > {
        match self.loaded(now) {
            Err(e) => Err(e),
            Ok(state) => {
                let report = runs_report(state.runs, state.run_inputs);
                if any_to_interrupt(state.runs, state.run_inputs) {
                    match self.write(state.runs_reconciled(at)) {
                        Err(e) => Err(e),
                        Ok(action) => Ok((report, action)),
                    }
                } else {
                    Ok((report, ActionView::Keep))
                }
            },
        }
    }
}

impl StateStore {
    /// Decides on the deliveries that were under way when the runtime stopped.
    pub fn reconcile_outbound_deliveries_at_startup(&self, recovered_at_unix: u64) -> (r: Result<
        Transition<OutboundDeliveryStartupRecoveryReport>,
        String,
    >)
        ensures
            exists|now: u64|
                gives(r, #[trigger] self@.deliveries_recovered(recovered_at_unix, now)),
    {
        self.reconcile_outbound_deliveries_at(recovered_at_unix, unix_seconds_now())
    }

    /// As [`StateStore::reconcile_outbound_deliveries_at_startup`], with `now` as the current time.
    pub fn reconcile_outbound_deliveries_at(&self, recovered_at_unix: u64, now: u64) -> (r: Result<
        Transition<OutboundDeliveryStartupRecoveryReport>,
        String,
    >)
        ensures
            gives(r, self@.deliveries_recovered(recovered_at_unix, now)),
    {
        let mut state = match self.load_at(now) {
            Ok(state) => state,
            Err(e) => return Err(e),
        };
        let (report, changed) = match state.reconcile_outbound_deliveries_at_startup(
            recovered_at_unix,
        ) {
            Ok(found) => found,
            Err(e) => return Err(e),
        };
        if changed {
            match self.write_unlocked(state) {
                Ok(action) => Ok(Transition { outcome: report, action }),
                Err(e) => Err(e),
            }
        } else {
            Ok(Transition { outcome: report, action: StoreAction::ConfirmDurable })
        }
    }

    /// Decides on the runs that had not ended when the runtime stopped.
    pub fn reconcile_runs_at_startup(&self, recovered_at_unix: u64) -> (r: Result<
        Transition<RunStartupRecoveryReport>,
        String,
    >)
        ensures
            exists|now: u64| gives(r, #[trigger] self@.runs_recovered(recovered_at_unix, now)),
    {
        self.reconcile_runs_at(recovered_at_unix, unix_seconds_now())
    }

    /// As [`StateStore::reconcile_runs_at_startup`], with `now` as the current time.
    pub fn reconcile_runs_at(&self, recovered_at_unix: u64, now: u64) -> (r: Result<
        Transition<RunStartupRecoveryReport>,
        String,
    >)
        ensures
            gives(r, self@.runs_recovered(recovered_at_unix, now)),
    {
        let mut state = match self.load_at(now) {
            Ok(state) => state,
            Err(e) => return Err(e),
        };
        let (report, changed) = match state.reconcile_runs_at_startup(recovered_at_unix) {
            Ok(found) => found,
            Err(e) => return Err(e),
        };
        if changed {
            match self.write_unlocked(state) {
                Ok(action) => Ok(Transition { outcome: report, action }),
                Err(e) => Err(e),
            }
        } else {
            Ok(Transition { outcome: report, action: StoreAction::Keep })
        }
    }
}

} // verus!

//! Completing a run together with the deliveries of its output.
use vstd::prelude::*;

use super::model::RuntimeState;
use super::view::StateView;
use crate::clock::unix_seconds_now;
use crate::outbox::{DeliveryView, OutboundDeliveryId, OutboundDeliveryRecord};
use crate::run::RunId;

verus! {

/// The ids of some deliveries.
pub open spec fn delivery_ids(deliveries: Seq<DeliveryView>) -> Seq<Seq<char>> {
    Seq::new(deliveries.len(), |i: int| deliveries[i].id)
}

impl StateView {
    /// This state with all the deliveries queued, one after the other.
    pub open spec fn all_enqueued(self, deliveries: Seq<DeliveryView>, now: u64) -> Result<
        StateView,
        Seq<char>,
    >
        decreases deliveries.len(),
    {
        if deliveries.len() == 0 {
            Ok(self)
        } else {
            match self.all_enqueued(deliveries.drop_last(), now) {
                Err(e) => Err(e),
                Ok(before) => match before.enqueued(deliveries.last(), now) {
                    Err(e) => Err(e),
                    Ok((next, _)) => Ok(next),
                },
            }
        }
    }

    /// This state with a run completed and its output queued, or why not.
    pub open spec fn with_output(
        self,
        id: Seq<char>,
        deliveries: Seq<DeliveryView>,
        at: u64,
        now: u64,
    ) -> Result<StateView, Seq<char>> {
        match self.with_run_completed(id, at, delivery_ids(deliveries), now) {
            Err(e) => Err(e),
            Ok(completed) => completed.all_enqueued(deliveries, now),
        }
    }
}

/// A refusal among the first deliveries is that of all.
proof fn lemma_refusal_stands(s: StateView, deliveries: Seq<DeliveryView>, now: u64, n: int)
    requires
        0 <= n <= deliveries.len(),
        s.all_enqueued(deliveries.take(n), now) is Err,
    ensures
        s.all_enqueued(deliveries, now) == s.all_enqueued(deliveries.take(n), now),
    decreases deliveries.len(),
{
    if n < deliveries.len() {
        assert(deliveries.drop_last().take(n) =~= deliveries.take(n));
        lemma_refusal_stands(s, deliveries.drop_last(), now, n);
    } else {
        assert(deliveries.take(n) =~= deliveries);
    }
}

/// The ids of some deliveries, as the records hold them.
pub(crate) fn ids_of(deliveries: &Vec<OutboundDeliveryRecord>) -> (r: Vec<OutboundDeliveryId>)
    ensures
        crate::keyed::views(r@) == delivery_ids(crate::keyed::views(deliveries@)),
{
    let ghost all = delivery_ids(crate::keyed::views(deliveries@));
    let mut ids: Vec<OutboundDeliveryId> = Vec::new();
    let mut i: usize = 0;
    while i < deliveries.len()
        invariant
            i <= deliveries@.len(),
            all == delivery_ids(crate::keyed::views(deliveries@)),
            crate::keyed::views(ids@) =~= all.take(i as int),
        decreases deliveries@.len() - i,
    {
        let ghost before = ids@;
        ids.push(deliveries[i].id.clone());
        assert(crate::keyed::views(ids@) =~= crate::keyed::views(before).push(all[i as int]));
        i = i + 1;
    }
    ids
}

impl RuntimeState {
    /// Completes a running run and queues its output, both or neither.
    pub fn complete_run_with_output_deliveries(
        &mut self,
        id: &RunId,
        deliveries: &Vec<OutboundDeliveryRecord>,
        finished_at_unix: u64,
    ) -> (r: Result<(), String>)
        ensures
            exists|now: u64|
                crate::fault::applies(
                    r,
                    old(self)@,
                    final(self)@,
                    #[trigger] old(self)@.with_output(
                        id@,
                        crate::keyed::views(deliveries@),
                        finished_at_unix,
                        now,
                    ),
                ),
    {
        self.complete_run_with_output_deliveries_at(
            id,
            deliveries,
            finished_at_unix,
            unix_seconds_now(),
        )
    }

    /// As [`RuntimeState::complete_run_with_output_deliveries`], with `now` as the current time.
    pub fn complete_run_with_output_deliveries_at(
        &mut self,
        id: &RunId,
        deliveries: &Vec<OutboundDeliveryRecord>,
        finished_at_unix: u64,
        now: u64,
    ) -> (r: Result<(), String>)
        ensures
            crate::fault::applies(
                r,
                old(self)@,
                final(self)@,
                old(self)@.with_output(
                    id@,
                    crate::keyed::views(deliveries@),
                    finished_at_unix,
                    now,
                ),
            ),
    {
        let ghost all = crate::keyed::views(deliveries@);
        let mut next = self.clone();
        match next.complete_run_with_ids_at(id, finished_at_unix, ids_of(deliveries), now) {
            Ok(()) => {},
            Err(e) => return Err(e),
        }
        let ghost completed = next@;
        let mut i: usize = 0;
        while i < deliveries.len()
            invariant
                i <= deliveries@.len(),
                all == crate::keyed::views(deliveries@),
                completed.all_enqueued(all.take(i as int), now) == Ok::<StateView, Seq<char>>(
                    next@,
                ),
                self@ == old(self)@,
                old(self)@.with_run_completed(id@, finished_at_unix, delivery_ids(all), now) == Ok::<
                    StateView,
                    Seq<char>,
                >(completed),
            decreases deliveries@.len() - i,
        {
            proof {
                assert(all.take(i + 1).drop_last() =~= all.take(i as int));
                assert(all.take(i + 1).last() == all[i as int]);
            }
            match next.enqueue_outbound_delivery_at(deliveries[i].clone(), now) {
                Ok(_) => {},
                Err(e) => {
                    proof {
                        lemma_refusal_stands(completed, all, now, i + 1);
                    }
                    return Err(e);
                },
            }
            i = i + 1;
        }
        assert(all.take(all.len() as int) =~= all);
        *self = next;
        Ok(())
    }
}

} // verus!

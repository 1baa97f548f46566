//! The outbox: queueing deliveries, trying them, and noting what came of them.
use vstd::prelude::*;

use super::model::RuntimeState;
use super::session_run::{later, later_of};
use super::view::StateView;
use crate::clock::unix_seconds_now;
use crate::keyed::{find_key, find_record, lookup};
use crate::outbox::{
    DeliveryView, OutboundDeliveryEnqueueStatus, OutboundDeliveryId, OutboundDeliveryRecord,
    OutboundDeliveryStatus,
};
use crate::text::{join2, join4};

verus! {

/// The first delivery that can be tried.
pub open spec fn first_claimable(deliveries: Seq<DeliveryView>) -> Option<int>
    decreases deliveries.len(),
{
    if deliveries.len() == 0 {
        None
    } else {
        match first_claimable(deliveries.drop_last()) {
            Some(i) => Some(i),
            None => if deliveries.last().claimable() {
                Some(deliveries.len() - 1)
            } else {
                None
            },
        }
    }
}

/// `first_claimable` gives the first delivery that can be tried, if there is one.
pub proof fn lemma_first_claimable(deliveries: Seq<DeliveryView>)
    ensures
        match first_claimable(deliveries) {
            Some(i) => {
                &&& 0 <= i < deliveries.len()
                &&& deliveries[i].claimable()
                &&& forall|j: int| 0 <= j < i ==> !(#[trigger] deliveries[j]).claimable()
            },
            None => forall|j: int|
                0 <= j < deliveries.len() ==> !(#[trigger] deliveries[j]).claimable(),
        },
    decreases deliveries.len(),
{
    if deliveries.len() > 0 {
        let front = deliveries.drop_last();
        lemma_first_claimable(front);
        assert(forall|j: int| 0 <= j < front.len() ==> #[trigger] deliveries[j] == front[j]);
    }
}

impl StateView {
    /// Why a delivery cannot be queued at all, if it cannot.
    pub open spec fn enqueue_fault(self, delivery: DeliveryView) -> Option<Seq<char>> {
        if delivery.flaw() is Some {
            delivery.flaw()
        } else if self.delivery_session_fault(delivery) is Some {
            self.delivery_session_fault(delivery)
        } else if delivery.status !is Pending {
            Some(
                "outbound delivery "@ + delivery.id + " cannot enqueue from "@
                    + delivery.status.name_text(),
            )
        } else {
            match lookup(self.outbound_deliveries, delivery.id) {
                Some(existing) => if existing == delivery {
                    None
                } else {
                    Some("conflicting outbound delivery "@ + delivery.id)
                },
                None => None,
            }
        }
    }

    /// What queueing a delivery does: nothing where the very same delivery is
    /// queued, a new entry at the end otherwise, or a refusal.
    pub open spec fn enqueued(self, delivery: DeliveryView, now: u64) -> Result<
        (StateView, OutboundDeliveryEnqueueStatus),
        Seq<char>,
    > {
        match self.enqueue_fault(delivery) {
            Some(e) => Err(e),
            None => if lookup(self.outbound_deliveries, delivery.id) is Some {
                Ok((self, OutboundDeliveryEnqueueStatus::Duplicate))
            } else {
                Ok(
                    (
                        StateView {
                            outbound_deliveries: self.outbound_deliveries.push(delivery),
                            ..self
                        }.touched(later_of(delivery.updated_at_unix, now)),
                        OutboundDeliveryEnqueueStatus::Queued,
                    ),
                )
            },
        }
    }

    /// This state with the delivery at `i` replaced by a later record of it.
    pub open spec fn with_delivery_at(self, i: int, delivery: DeliveryView, now: u64) -> StateView {
        StateView {
            outbound_deliveries: self.outbound_deliveries.update(i, delivery),
            ..self
        }.touched(later_of(delivery.updated_at_unix, now))
    }

    /// This state with the delivery under `id` changed, and the changed delivery,
    /// or why it cannot be changed.
    pub open spec fn with_delivery_changed(
        self,
        id: Seq<char>,
        change: spec_fn(DeliveryView) -> Result<DeliveryView, Seq<char>>,
        now: u64,
    ) -> Result<(StateView, DeliveryView), Seq<char>> {
        match find_key(self.outbound_deliveries, id) {
            None => Err("unknown outbound delivery id "@ + id),
            Some(i) => match change(self.outbound_deliveries[i]) {
                Err(e) => Err(e),
                Ok(delivery) => Ok((self.with_delivery_at(i, delivery, now), delivery)),
            },
        }
    }

    pub open spec fn with_delivered(self, id: Seq<char>, at: u64, now: u64) -> Result<
        (StateView, DeliveryView),
        Seq<char>,
    > {
        self.with_delivery_changed(id, |delivery: DeliveryView| delivery.delivered(at), now)
    }

    pub open spec fn with_failed(
        self,
        id: Seq<char>,
        at: u64,
        error: Seq<char>,
        now: u64,
    ) -> Result<(StateView, DeliveryView), Seq<char>> {
        self.with_delivery_changed(id, |delivery: DeliveryView| delivery.failed(at, error), now)
    }

    pub open spec fn with_uncertain(
        self,
        id: Seq<char>,
        at: u64,
        error: Seq<char>,
        now: u64,
    ) -> Result<(StateView, DeliveryView), Seq<char>> {
        self.with_delivery_changed(id, |delivery: DeliveryView| delivery.uncertain(at, error), now)
    }

    pub open spec fn with_resolved_delivered(self, id: Seq<char>, at: u64, now: u64) -> Result<
        (StateView, DeliveryView),
        Seq<char>,
    > {
        self.with_delivery_changed(
            id,
            |delivery: DeliveryView| delivery.resolved_delivered(at),
            now,
        )
    }

    pub open spec fn with_resolved_failed(
        self,
        id: Seq<char>,
        at: u64,
        reason: Seq<char>,
        now: u64,
    ) -> Result<(StateView, DeliveryView), Seq<char>> {
        self.with_delivery_changed(
            id,
            |delivery: DeliveryView| delivery.resolved_failed(at, reason),
            now,
        )
    }

    /// This state with an attempt at the delivery at `i` begun, and the delivery.
    pub open spec fn with_attempt_at(self, i: int, at: u64, now: u64) -> Result<
        (StateView, DeliveryView),
        Seq<char>,
    > {
        match self.outbound_deliveries[i].begun(at) {
            Err(e) => Err(e),
            Ok(delivery) => Ok((self.with_delivery_at(i, delivery, now), delivery)),
        }
    }

    /// This state with an attempt at the first delivery that can be tried, and
    /// that delivery; nothing changes where there is none.
    pub open spec fn with_next_attempt(self, at: u64, now: u64) -> Result<
        (StateView, Option<DeliveryView>),
        Seq<char>,
    > {
        match first_claimable(self.outbound_deliveries) {
            None => Ok((self, None)),
            Some(i) => match self.with_attempt_at(i, at, now) {
                Err(e) => Err(e),
                Ok((next, delivery)) => Ok((next, Some(delivery))),
            },
        }
    }
}

/// A change that gives a delivery back comes out as `outcome` says; refused, it
/// leaves the state as it was.
pub open spec fn gives_delivery(
    r: Result<OutboundDeliveryRecord, String>,
    before: StateView,
    after: StateView,
    outcome: Result<(StateView, DeliveryView), Seq<char>>,
) -> bool {
    match r {
        Ok(delivery) => outcome == Ok::<(StateView, DeliveryView), Seq<char>>((after, delivery@)),
        Err(e) => outcome == Err::<(StateView, DeliveryView), Seq<char>>(e@) && after == before,
    }
}

/// The model of an optional delivery.
pub open spec fn delivery_ref(delivery: Option<OutboundDeliveryRecord>) -> Option<DeliveryView> {
    match delivery {
        Some(delivery) => Some(delivery@),
        None => None,
    }
}

/// A search for the next delivery to try comes out as `outcome` says; refused, it
/// leaves the state as it was.
pub open spec fn gives_next_delivery(
    r: Result<Option<OutboundDeliveryRecord>, String>,
    before: StateView,
    after: StateView,
    outcome: Result<(StateView, Option<DeliveryView>), Seq<char>>,
) -> bool {
    match r {
        Ok(delivery) => outcome == Ok::<(StateView, Option<DeliveryView>), Seq<char>>(
            (after, delivery_ref(delivery)),
        ),
        Err(e) => outcome == Err::<(StateView, Option<DeliveryView>), Seq<char>>(e@) && after
            == before,
    }
}

/// Queueing comes out as `outcome` says; refused, it leaves the state as it was.
pub open spec fn gives_enqueue_status(
    r: Result<OutboundDeliveryEnqueueStatus, String>,
    before: StateView,
    after: StateView,
    outcome: Result<(StateView, OutboundDeliveryEnqueueStatus), Seq<char>>,
) -> bool {
    match r {
        Ok(status) => outcome == Ok::<(StateView, OutboundDeliveryEnqueueStatus), Seq<char>>(
            (after, status),
        ),
        Err(e) => outcome == Err::<(StateView, OutboundDeliveryEnqueueStatus), Seq<char>>(e@)
            && after == before,
    }
}

impl RuntimeState {
    /// Queues a delivery; queueing the very same delivery again changes nothing.
    pub fn enqueue_outbound_delivery(&mut self, delivery: OutboundDeliveryRecord) -> (r: Result<
        OutboundDeliveryEnqueueStatus,
        String,
    >)
        ensures
            exists|now: u64|
                gives_enqueue_status(
                    r,
                    old(self)@,
                    final(self)@,
                    #[trigger] old(self)@.enqueued(delivery@, now),
                ),
    {
        self.enqueue_outbound_delivery_at(delivery, unix_seconds_now())
    }

    /// Queues a delivery at `now`.
    pub fn enqueue_outbound_delivery_at(
        &mut self,
        delivery: OutboundDeliveryRecord,
        now: u64,
    ) -> (r: Result<OutboundDeliveryEnqueueStatus, String>)
        ensures
            gives_enqueue_status(r, old(self)@, final(self)@, old(self)@.enqueued(delivery@, now)),
    {
        let ghost before = self@;
        match delivery.validate() {
            Ok(()) => {},
            Err(e) => return Err(e),
        }
        match self.validate_outbound_delivery_session(&delivery) {
            Ok(()) => {},
            Err(e) => return Err(e),
        }
        if delivery.status != OutboundDeliveryStatus::Pending {
            return Err(
                join4(
                    "outbound delivery ",
                    delivery.id.as_str(),
                    " cannot enqueue from ",
                    delivery.status.name(),
                ),
            );
        }
        if let Some(existing) = self.outbound_delivery(&delivery.id) {
            if existing.same(&delivery) {
                return Ok(OutboundDeliveryEnqueueStatus::Duplicate);
            }
            return Err(join2("conflicting outbound delivery ", delivery.id.as_str()));
        }
        let updated_at: u64 = delivery.updated_at_unix;
        self.outbound_deliveries.push(delivery);
        assert(self@.outbound_deliveries =~= before.outbound_deliveries.push(delivery@));
        self.touch_at(later(updated_at, now));
        Ok(OutboundDeliveryEnqueueStatus::Queued)
    }

    /// Begins an attempt at the delivery at `i`.
    fn begin_delivery_at(&mut self, i: usize, at: u64, now: u64) -> (r: Result<
        OutboundDeliveryRecord,
        String,
    >)
        requires
            i < old(self).outbound_deliveries@.len(),
        ensures
            gives_delivery(
                r,
                old(self)@,
                final(self)@,
                old(self)@.with_attempt_at(i as int, at, now),
            ),
    {
        let ghost before = self@;
        match self.outbound_deliveries[i].begin_delivery(at) {
            Ok(()) => {},
            Err(e) => {
                assert(self@ =~= before);
                return Err(e);
            },
        }
        let delivery = self.outbound_deliveries[i].clone();
        assert(self@.outbound_deliveries =~= before.outbound_deliveries.update(
            i as int,
            delivery@,
        ));
        self.touch_at(later(delivery.updated_at_unix, now));
        Ok(delivery)
    }

    /// Begins an attempt at the first pending or failed delivery.
    pub fn claim_next_outbound_delivery(&mut self, started_at_unix: u64) -> (r: Result<
        Option<OutboundDeliveryRecord>,
        String,
    >)
        ensures
            exists|now: u64|
                gives_next_delivery(
                    r,
                    old(self)@,
                    final(self)@,
                    #[trigger] old(self)@.with_next_attempt(started_at_unix, now),
                ),
    {
        self.claim_next_outbound_delivery_at(started_at_unix, unix_seconds_now())
    }

    /// As [`RuntimeState::claim_next_outbound_delivery`], with `now` as the current time.
    pub fn claim_next_outbound_delivery_at(
        &mut self,
        started_at_unix: u64,
        now: u64,
    ) -> (r: Result<Option<OutboundDeliveryRecord>, String>)
        ensures
            gives_next_delivery(
                r,
                old(self)@,
                final(self)@,
                old(self)@.with_next_attempt(started_at_unix, now),
            ),
    {
        let ghost deliveries = self@.outbound_deliveries;
        proof {
            lemma_first_claimable(deliveries);
        }
        let every = |delivery: &OutboundDeliveryRecord| -> (r: bool)
            ensures
                r,
            { true };
        match self.find_claimable(&every) {
            None => {
                proof {
                    if let Some(i) = first_claimable(deliveries) {
                        assert(deliveries[i].claimable());
                    }
                }
                Ok(None)
            },
            Some(i) => {
                proof {
                    assert(deliveries[i as int].claimable());
                    let k = first_claimable(deliveries)->Some_0;
                    if k < i {
                        assert(deliveries[k].claimable());
                    }
                }
                match self.begin_delivery_at(i, started_at_unix, now) {
                    Ok(delivery) => Ok(Some(delivery)),
                    Err(e) => Err(e),
                }
            },
        }
    }

    /// The first pending or failed delivery that `is_eligible` accepts.
    fn find_claimable<F: Fn(&OutboundDeliveryRecord) -> bool>(&self, is_eligible: &F) -> (r: Option<
        usize,
    >)
        requires
            forall|d: &OutboundDeliveryRecord| #[trigger] call_requires(*is_eligible, (d,)),
        ensures
            match r {
                Some(i) => accepted_first(*self, *is_eligible, i as int),
                None => rejected_before(
                    *self,
                    *is_eligible,
                    self.outbound_deliveries@.len() as int,
                ),
            },
    {
        let mut i: usize = 0;
        while i < self.outbound_deliveries.len()
            invariant
                i <= self.outbound_deliveries@.len(),
                forall|d: &OutboundDeliveryRecord| #[trigger] call_requires(*is_eligible, (d,)),
                rejected_before(*self, *is_eligible, i as int),
            decreases self.outbound_deliveries@.len() - i,
        {
            let delivery = &self.outbound_deliveries[i];
            if delivery.status == OutboundDeliveryStatus::Pending || delivery.status
                == OutboundDeliveryStatus::Failed {
                if is_eligible(delivery) {
                    return Some(i);
                }
            }
            i = i + 1;
        }
        None
    }

    /// Begins an attempt at the first pending or failed delivery that
    /// `is_eligible` accepts.
    pub fn claim_next_outbound_delivery_where<F: Fn(&OutboundDeliveryRecord) -> bool>(
        &mut self,
        started_at_unix: u64,
        is_eligible: F,
    ) -> (r: Result<Option<OutboundDeliveryRecord>, String>)
        requires
            forall|d: &OutboundDeliveryRecord| #[trigger] call_requires(is_eligible, (d,)),
        ensures
            claimed_where(*old(self), final(self)@, is_eligible, started_at_unix, r),
    {
        match self.find_claimable(&is_eligible) {
            None => Ok(None),
            Some(i) => {
                let now: u64 = unix_seconds_now();
                match self.begin_delivery_at(i, started_at_unix, now) {
                    Ok(delivery) => Ok(Some(delivery)),
                    Err(e) => Err(e),
                }
            },
        }
    }

    /// The position of the delivery under an id.
    fn delivery_position(&self, id: &OutboundDeliveryId) -> (r: Result<usize, String>)
        ensures
            match r {
                Ok(i) => i < self.outbound_deliveries@.len() && find_key(
                    self@.outbound_deliveries,
                    id@,
                ) == Some(i as int),
                Err(e) => find_key(self@.outbound_deliveries, id@) is None && e@
                    == "unknown outbound delivery id "@ + id@,
            },
    {
        match find_record(&self.outbound_deliveries, &id.text) {
            Some(i) => Ok(i),
            None => Err(join2("unknown outbound delivery id ", id.as_str())),
        }
    }

    /// Notes that the platform accepted a delivery.
    pub fn mark_outbound_delivery_delivered(
        &mut self,
        id: &OutboundDeliveryId,
        delivered_at_unix: u64,
    ) -> (r: Result<OutboundDeliveryRecord, String>)
        ensures
            exists|now: u64|
                gives_delivery(
                    r,
                    old(self)@,
                    final(self)@,
                    #[trigger] old(self)@.with_delivered(id@, delivered_at_unix, now),
                ),
    {
        self.mark_outbound_delivery_delivered_at(id, delivered_at_unix, unix_seconds_now())
    }

    /// As [`RuntimeState::mark_outbound_delivery_delivered`], with `now` as the current time.
    pub fn mark_outbound_delivery_delivered_at(
        &mut self,
        id: &OutboundDeliveryId,
        delivered_at_unix: u64,
        now: u64,
    ) -> (r: Result<OutboundDeliveryRecord, String>)
        ensures
            gives_delivery(
                r,
                old(self)@,
                final(self)@,
                old(self)@.with_delivered(id@, delivered_at_unix, now),
            ),
    {
        let ghost before = self@;
        let i: usize = match self.delivery_position(id) {
            Ok(i) => i,
            Err(e) => return Err(e),
        };
        match self.outbound_deliveries[i].mark_delivered(delivered_at_unix) {
            Ok(()) => {},
            Err(e) => {
                assert(self@ =~= before);
                return Err(e);
            },
        }
        let delivery = self.outbound_deliveries[i].clone();
        assert(self@.outbound_deliveries =~= before.outbound_deliveries.update(
            i as int,
            delivery@,
        ));
        self.touch_at(later(delivery.updated_at_unix, now));
        Ok(delivery)
    }

    /// Notes that a delivery failed.
    pub fn mark_outbound_delivery_failed(
        &mut self,
        id: &OutboundDeliveryId,
        failed_at_unix: u64,
        error: &str,
    ) -> (r: Result<OutboundDeliveryRecord, String>)
        ensures
            exists|now: u64|
                gives_delivery(
                    r,
                    old(self)@,
                    final(self)@,
                    #[trigger] old(self)@.with_failed(id@, failed_at_unix, error@, now),
                ),
    {
        self.mark_outbound_delivery_failed_at(id, failed_at_unix, error, unix_seconds_now())
    }

    /// As [`RuntimeState::mark_outbound_delivery_failed`], with `now` as the current time.
    pub fn mark_outbound_delivery_failed_at(
        &mut self,
        id: &OutboundDeliveryId,
        failed_at_unix: u64,
        error: &str,
        now: u64,
    ) -> (r: Result<OutboundDeliveryRecord, String>)
        ensures
            gives_delivery(
                r,
                old(self)@,
                final(self)@,
                old(self)@.with_failed(id@, failed_at_unix, error@, now),
            ),
    {
        let ghost before = self@;
        let i: usize = match self.delivery_position(id) {
            Ok(i) => i,
            Err(e) => return Err(e),
        };
        match self.outbound_deliveries[i].mark_failed(failed_at_unix, error) {
            Ok(()) => {},
            Err(e) => {
                assert(self@ =~= before);
                return Err(e);
            },
        }
        let delivery = self.outbound_deliveries[i].clone();
        assert(self@.outbound_deliveries =~= before.outbound_deliveries.update(
            i as int,
            delivery@,
        ));
        self.touch_at(later(delivery.updated_at_unix, now));
        Ok(delivery)
    }

    /// Notes that nobody knows whether a delivery was accepted.
    pub fn mark_outbound_delivery_uncertain(
        &mut self,
        id: &OutboundDeliveryId,
        uncertain_at_unix: u64,
        error: &str,
    ) -> (r: Result<OutboundDeliveryRecord, String>)
        ensures
            exists|now: u64|
                gives_delivery(
                    r,
                    old(self)@,
                    final(self)@,
                    #[trigger] old(self)@.with_uncertain(id@, uncertain_at_unix, error@, now),
                ),
    {
        self.mark_outbound_delivery_uncertain_at(id, uncertain_at_unix, error, unix_seconds_now())
    }

    /// As [`RuntimeState::mark_outbound_delivery_uncertain`], with `now` as the current time.
    pub fn mark_outbound_delivery_uncertain_at(
        &mut self,
        id: &OutboundDeliveryId,
        uncertain_at_unix: u64,
        error: &str,
        now: u64,
    ) -> (r: Result<OutboundDeliveryRecord, String>)
        ensures
            gives_delivery(
                r,
                old(self)@,
                final(self)@,
                old(self)@.with_uncertain(id@, uncertain_at_unix, error@, now),
            ),
    {
        let ghost before = self@;
        let i: usize = match self.delivery_position(id) {
            Ok(i) => i,
            Err(e) => return Err(e),
        };
        match self.outbound_deliveries[i].mark_uncertain(uncertain_at_unix, error) {
            Ok(()) => {},
            Err(e) => {
                assert(self@ =~= before);
                return Err(e);
            },
        }
        let delivery = self.outbound_deliveries[i].clone();
        assert(self@.outbound_deliveries =~= before.outbound_deliveries.update(
            i as int,
            delivery@,
        ));
        self.touch_at(later(delivery.updated_at_unix, now));
        Ok(delivery)
    }

    /// Settles an uncertain delivery as accepted.
    pub fn resolve_outbound_delivery_as_delivered(
        &mut self,
        id: &OutboundDeliveryId,
        resolved_at_unix: u64,
    ) -> (r: Result<OutboundDeliveryRecord, String>)
        ensures
            exists|now: u64|
                gives_delivery(
                    r,
                    old(self)@,
                    final(self)@,
                    #[trigger] old(self)@.with_resolved_delivered(id@, resolved_at_unix, now),
                ),
    {
        self.resolve_outbound_delivery_as_delivered_at(id, resolved_at_unix, unix_seconds_now())
    }

    /// As [`RuntimeState::resolve_outbound_delivery_as_delivered`], with `now` as the current time.
    pub fn resolve_outbound_delivery_as_delivered_at(
        &mut self,
        id: &OutboundDeliveryId,
        resolved_at_unix: u64,
        now: u64,
    ) -> (r: Result<OutboundDeliveryRecord, String>)
        ensures
            gives_delivery(
                r,
                old(self)@,
                final(self)@,
                old(self)@.with_resolved_delivered(id@, resolved_at_unix, now),
            ),
    {
        let ghost before = self@;
        let i: usize = match self.delivery_position(id) {
            Ok(i) => i,
            Err(e) => return Err(e),
        };
        match self.outbound_deliveries[i].resolve_as_delivered(resolved_at_unix) {
            Ok(()) => {},
            Err(e) => {
                assert(self@ =~= before);
                return Err(e);
            },
        }
        let delivery = self.outbound_deliveries[i].clone();
        assert(self@.outbound_deliveries =~= before.outbound_deliveries.update(
            i as int,
            delivery@,
        ));
        self.touch_at(later(delivery.updated_at_unix, now));
        Ok(delivery)
    }

    /// Settles an uncertain delivery as failed.
    pub fn resolve_outbound_delivery_as_failed(
        &mut self,
        id: &OutboundDeliveryId,
        resolved_at_unix: u64,
        reason: &str,
    ) -> (r: Result<OutboundDeliveryRecord, String>)
        ensures
            exists|now: u64|
                gives_delivery(
                    r,
                    old(self)@,
                    final(self)@,
                    #[trigger] old(self)@.with_resolved_failed(id@, resolved_at_unix, reason@, now),
                ),
    {
        self.resolve_outbound_delivery_as_failed_at(id, resolved_at_unix, reason, unix_seconds_now())
    }

    /// As [`RuntimeState::resolve_outbound_delivery_as_failed`], with `now` as the current time.
    pub fn resolve_outbound_delivery_as_failed_at(
        &mut self,
        id: &OutboundDeliveryId,
        resolved_at_unix: u64,
        reason: &str,
        now: u64,
    ) -> (r: Result<OutboundDeliveryRecord, String>)
        ensures
            gives_delivery(
                r,
                old(self)@,
                final(self)@,
                old(self)@.with_resolved_failed(id@, resolved_at_unix, reason@, now),
            ),
    {
        let ghost before = self@;
        let i: usize = match self.delivery_position(id) {
            Ok(i) => i,
            Err(e) => return Err(e),
        };
        match self.outbound_deliveries[i].resolve_as_failed(resolved_at_unix, reason) {
            Ok(()) => {},
            Err(e) => {
                assert(self@ =~= before);
                return Err(e);
            },
        }
        let delivery = self.outbound_deliveries[i].clone();
        assert(self@.outbound_deliveries =~= before.outbound_deliveries.update(
            i as int,
            delivery@,
        ));
        self.touch_at(later(delivery.updated_at_unix, now));
        Ok(delivery)
    }
}

/// `is_eligible` turned down every delivery before `n` that could be tried.
pub open spec fn rejected_before<F: Fn(&OutboundDeliveryRecord) -> bool>(
    state: RuntimeState,
    is_eligible: F,
    n: int,
) -> bool {
    forall|j: int|
        0 <= j < n && (#[trigger] state.outbound_deliveries@[j])@.claimable() ==> call_ensures(
            is_eligible,
            (&state.outbound_deliveries@[j],),
            false,
        )
}

/// The delivery at `i` is the first that could be tried and was accepted.
pub open spec fn accepted_first<F: Fn(&OutboundDeliveryRecord) -> bool>(
    state: RuntimeState,
    is_eligible: F,
    i: int,
) -> bool {
    &&& 0 <= i < state.outbound_deliveries@.len()
    &&& state.outbound_deliveries@[i]@.claimable()
    &&& call_ensures(is_eligible, (&state.outbound_deliveries@[i],), true)
    &&& rejected_before(state, is_eligible, i)
}

/// What a claim of the next accepted delivery does.
pub open spec fn claimed_where<F: Fn(&OutboundDeliveryRecord) -> bool>(
    before: RuntimeState,
    after: StateView,
    is_eligible: F,
    at: u64,
    r: Result<Option<OutboundDeliveryRecord>, String>,
) -> bool {
    ||| {
        &&& r matches Ok(None)
        &&& after == before@
        &&& rejected_before(before, is_eligible, before.outbound_deliveries@.len() as int)
    }
    ||| exists|i: int, now: u64|
        {
            &&& accepted_first(before, is_eligible, i)
            &&& match #[trigger] before@.with_attempt_at(i, at, now) {
                Ok((next, delivery)) => after == next && r is Ok && delivery_ref(r->Ok_0) == Some(
                    delivery,
                ),
                Err(e) => after == before@ && r is Err && r->Err_0@ == e,
            }
        }
}

} // verus!

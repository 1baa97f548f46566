//! Queueing deliveries, trying them, and noting what came of them.
use vstd::prelude::*;

use super::file_store::{gives, ActionView, StateStore, StoreAction, StoreView, Transition};
use crate::clock::unix_seconds_now;
use crate::outbox::{
    DeliveryView, OutboundDeliveryEnqueueStatus, OutboundDeliveryId, OutboundDeliveryRecord,
};
use crate::state::outbound::delivery_ref;
use crate::state::view::StateView;

verus! {

impl StoreView {
    /// Queueing a delivery: a new one is saved with the loaded state, and one that
    /// is queued already leaves the file alone.
    pub open spec fn delivery_enqueued(self, delivery: DeliveryView, now: u64) -> Result<
        (OutboundDeliveryEnqueueStatus, ActionView),
        Seq<char>,
    > {
        match self.loaded(now) {
            Err(e) => Err(e),
            Ok(state) => match state.enqueued(delivery, now) {
                Err(e) => Err(e),
                Ok((next, status)) => if status is Queued {
                    match self.saved(next) {
                        Err(e) => Err(e),
                        Ok(action) => Ok((status, action)),
                    }
                } else {
                    Ok((status, ActionView::Keep))
                },
            },
        }
    }

    /// Trying the next delivery: the attempt is written before it is made.
    pub open spec fn next_attempted(self, at: u64, now: u64) -> Result<
        (Option<DeliveryView>, ActionView),
        Seq<char>,
    > {
        match self.loaded(now) {
            Err(e) => Err(e),
            Ok(state) => match state.with_next_attempt(at, now) {
                Err(e) => Err(e),
                Ok((next, delivery)) => match delivery {
                    None => Ok((None, ActionView::Keep)),
                    Some(delivery) => match self.write(next) {
                        Err(e) => Err(e),
                        Ok(action) => Ok((Some(delivery), action)),
                    },
                },
            },
        }
    }

    /// Writing a state in which a delivery changed.
    pub open spec fn delivery_changed(
        self,
        outcome: Result<(StateView, DeliveryView), Seq<char>>,
    ) -> Result<(DeliveryView, ActionView), Seq<char>> {
        match outcome {
            Err(e) => Err(e),
            Ok((next, delivery)) => match self.write(next) {
                Err(e) => Err(e),
                Ok(action) => Ok((delivery, action)),
            },
        }
    }

    /// Noting that a delivery was accepted.
    pub open spec fn delivery_delivered(self, id: Seq<char>, at: u64, now: u64) -> Result<
        (DeliveryView, ActionView),
        Seq<char>,
    > {
        match self.loaded(now) {
            Err(e) => Err(e),
            Ok(state) => self.delivery_changed(state.with_delivered(id, at, now)),
        }
    }

    /// Noting that a delivery failed.
    pub open spec fn delivery_failed(
        self,
        id: Seq<char>,
        at: u64,
        error: Seq<char>,
        now: u64,
    ) -> Result<(DeliveryView, ActionView), Seq<char>> {
        match self.loaded(now) {
            Err(e) => Err(e),
            Ok(state) => self.delivery_changed(state.with_failed(id, at, error, now)),
        }
    }

    /// Noting that nobody knows whether a delivery was accepted.
    pub open spec fn delivery_uncertain(
        self,
        id: Seq<char>,
        at: u64,
        error: Seq<char>,
        now: u64,
    ) -> Result<(DeliveryView, ActionView), Seq<char>> {
        match self.loaded(now) {
            Err(e) => Err(e),
            Ok(state) => self.delivery_changed(state.with_uncertain(id, at, error, now)),
        }
    }
}

/// A search for the next delivery to try comes out as `outcome` says.
pub open spec fn gives_next(
    r: Result<Transition<Option<OutboundDeliveryRecord>>, String>,
    outcome: Result<(Option<DeliveryView>, ActionView), Seq<char>>,
) -> bool {
    match r {
        Ok(transition) => outcome == Ok::<(Option<DeliveryView>, ActionView), Seq<char>>(
            (delivery_ref(transition.outcome), transition.action@),
        ),
        Err(e) => outcome == Err::<(Option<DeliveryView>, ActionView), Seq<char>>(e@),
    }
}

impl StateStore {
    /// Decides on queueing a delivery. The status may be relied on once the
    /// transition is settled.
    pub fn enqueue_outbound_delivery(&self, delivery: OutboundDeliveryRecord) -> (r: Result<
        Transition<OutboundDeliveryEnqueueStatus>,
        String,
    >)
        ensures
            exists|now: u64| gives(r, #[trigger] self@.delivery_enqueued(delivery@, now)),
    {
        self.enqueue_outbound_delivery_at(delivery, unix_seconds_now())
    }

    /// As [`StateStore::enqueue_outbound_delivery`], with `now` as the current time.
    pub fn enqueue_outbound_delivery_at(&self, delivery: OutboundDeliveryRecord, now: u64) -> (r:
        Result<Transition<OutboundDeliveryEnqueueStatus>, String>)
        ensures
            gives(r, self@.delivery_enqueued(delivery@, now)),
    {
        let mut state = match self.load_at(now) {
            Ok(state) => state,
            Err(e) => return Err(e),
        };
        let status = match state.enqueue_outbound_delivery_at(delivery, now) {
            Ok(status) => status,
            Err(e) => return Err(e),
        };
        if status == OutboundDeliveryEnqueueStatus::Queued {
            match self.save_unlocked(&state) {
                Ok(action) => Ok(Transition { outcome: status, action }),
                Err(e) => Err(e),
            }
        } else {
            Ok(Transition { outcome: status, action: StoreAction::Keep })
        }
    }

    /// Decides on trying the first pending or failed delivery.
    pub fn claim_next_outbound_delivery(&self, started_at_unix: u64) -> (r: Result<
        Transition<Option<OutboundDeliveryRecord>>,
        String,
    >)
        ensures
            exists|now: u64| gives_next(r, #[trigger] self@.next_attempted(started_at_unix, now)),
    {
        self.claim_next_outbound_delivery_at(started_at_unix, unix_seconds_now())
    }

    /// As [`StateStore::claim_next_outbound_delivery`], with `now` as the current time.
    pub fn claim_next_outbound_delivery_at(&self, started_at_unix: u64, now: u64) -> (r: Result<
        Transition<Option<OutboundDeliveryRecord>>,
        String,
    >)
        ensures
            gives_next(r, self@.next_attempted(started_at_unix, now)),
    {
        let mut state = match self.load_at(now) {
            Ok(state) => state,
            Err(e) => return Err(e),
        };
        match state.claim_next_outbound_delivery_at(started_at_unix, now) {
            Err(e) => Err(e),
            Ok(None) => Ok(Transition { outcome: None, action: StoreAction::Keep }),
            Ok(Some(delivery)) => match self.write_unlocked(state) {
                Ok(action) => Ok(Transition { outcome: Some(delivery), action }),
                Err(e) => Err(e),
            },
        }
    }

    /// Decides on noting that a delivery was accepted.
    pub fn mark_outbound_delivery_delivered(
        &self,
        id: &OutboundDeliveryId,
        delivered_at_unix: u64,
    ) -> (r: Result<Transition<OutboundDeliveryRecord>, String>)
        ensures
            exists|now: u64| gives(r, #[trigger] self@.delivery_delivered(id@, delivered_at_unix, now)),
    {
        self.mark_outbound_delivery_delivered_at(id, delivered_at_unix, unix_seconds_now())
    }

    /// As [`StateStore::mark_outbound_delivery_delivered`], with `now` as the current time.
    pub fn mark_outbound_delivery_delivered_at(
        &self,
        id: &OutboundDeliveryId,
        delivered_at_unix: u64,
        now: u64,
    ) -> (r: Result<Transition<OutboundDeliveryRecord>, String>)
        ensures
            gives(r, self@.delivery_delivered(id@, delivered_at_unix, now)),
    {
        let mut state = match self.load_at(now) {
            Ok(state) => state,
            Err(e) => return Err(e),
        };
        let delivery = match state.mark_outbound_delivery_delivered_at(id, delivered_at_unix, now) {
            Ok(delivery) => delivery,
            Err(e) => return Err(e),
        };
        match self.write_unlocked(state) {
            Ok(action) => Ok(Transition { outcome: delivery, action }),
            Err(e) => Err(e),
        }
    }

    /// Decides on noting that a delivery failed.
    pub fn mark_outbound_delivery_failed(
        &self,
        id: &OutboundDeliveryId,
        failed_at_unix: u64,
        error: &str,
    ) -> (r: Result<Transition<OutboundDeliveryRecord>, String>)
        ensures
            exists|now: u64| gives(r, #[trigger] self@.delivery_failed(id@, failed_at_unix, error@, now)),
    {
        self.mark_outbound_delivery_failed_at(id, failed_at_unix, error, unix_seconds_now())
    }

    /// As [`StateStore::mark_outbound_delivery_failed`], with `now` as the current time.
    pub fn mark_outbound_delivery_failed_at(
        &self,
        id: &OutboundDeliveryId,
        failed_at_unix: u64,
        error: &str,
        now: u64,
    ) -> (r: Result<Transition<OutboundDeliveryRecord>, String>)
        ensures
            gives(r, self@.delivery_failed(id@, failed_at_unix, error@, now)),
    {
        let mut state = match self.load_at(now) {
            Ok(state) => state,
            Err(e) => return Err(e),
        };
        let delivery = match state.mark_outbound_delivery_failed_at(id, failed_at_unix, error, now) {
            Ok(delivery) => delivery,
            Err(e) => return Err(e),
        };
        match self.write_unlocked(state) {
            Ok(action) => Ok(Transition { outcome: delivery, action }),
            Err(e) => Err(e),
        }
    }

    /// Decides on noting that nobody knows whether a delivery was accepted.
    pub fn mark_outbound_delivery_uncertain(
        &self,
        id: &OutboundDeliveryId,
        uncertain_at_unix: u64,
        error: &str,
    ) -> (r: Result<Transition<OutboundDeliveryRecord>, String>)
        ensures
            exists|now: u64| gives(r, #[trigger] self@.delivery_uncertain(id@, uncertain_at_unix, error@, now)),
    {
        self.mark_outbound_delivery_uncertain_at(id, uncertain_at_unix, error, unix_seconds_now())
    }

    /// As [`StateStore::mark_outbound_delivery_uncertain`], with `now` as the current time.
    pub fn mark_outbound_delivery_uncertain_at(
        &self,
        id: &OutboundDeliveryId,
        uncertain_at_unix: u64,
        error: &str,
        now: u64,
    ) -> (r: Result<Transition<OutboundDeliveryRecord>, String>)
        ensures
            gives(r, self@.delivery_uncertain(id@, uncertain_at_unix, error@, now)),
    {
        let mut state = match self.load_at(now) {
            Ok(state) => state,
            Err(e) => return Err(e),
        };
        let delivery = match state.mark_outbound_delivery_uncertain_at(id, uncertain_at_unix, error, now) {
            Ok(delivery) => delivery,
            Err(e) => return Err(e),
        };
        match self.write_unlocked(state) {
            Ok(action) => Ok(Transition { outcome: delivery, action }),
            Err(e) => Err(e),
        }
    }
}

} // verus!

//! Settling uncertain deliveries. A decision that was already made can be repeated:
//! the repetition confirms that it is durable and changes nothing.
use vstd::prelude::*;

use super::file_store::{gives, ActionView, StateStore, StoreAction, StoreView, Transition};
use crate::clock::unix_seconds_now;
use crate::keyed::lookup;
use crate::outbox::{
    DeliveryView, OutboundDeliveryId, OutboundDeliveryRecord, OutboundDeliveryStatus,
};
use crate::text::{blank, join2, join3, join4, same_text};

verus! {

impl StoreView {
    /// Settling a delivery as accepted.
    pub open spec fn resolved_delivered(self, id: Seq<char>, at: u64, now: u64) -> Result<
        (DeliveryView, ActionView),
        Seq<char>,
    > {
        match self.loaded(now) {
            Err(e) => Err(e),
            Ok(state) => match lookup(state.outbound_deliveries, id) {
                None => Err("unknown outbound delivery id "@ + id),
                Some(existing) => match existing.status {
                    OutboundDeliveryStatus::Uncertain => self.delivery_changed(
                        state.with_resolved_delivered(id, at, now),
                    ),
                    OutboundDeliveryStatus::Delivered => if existing.delivered_at_unix == Some(
                        at,
                    ) {
                        Ok((existing, ActionView::ConfirmDurable))
                    } else {
                        Err(
                            "outbound delivery "@ + id
                                + " delivered resolution timestamp conflicts with persisted state"@,
                        )
                    },
                    status => Err(
                        "outbound delivery "@ + id + " cannot resolve as delivered from "@
                            + status.name_text(),
                    ),
                },
            },
        }
    }

    /// Settling a delivery as failed, for a reason.
    pub open spec fn resolved_failed(
        self,
        id: Seq<char>,
        at: u64,
        reason: Seq<char>,
        now: u64,
    ) -> Result<(DeliveryView, ActionView), Seq<char>> {
        match self.loaded(now) {
            Err(e) => Err(e),
            Ok(state) => match lookup(state.outbound_deliveries, id) {
                None => Err("unknown outbound delivery id "@ + id),
                Some(existing) => match existing.status {
                    OutboundDeliveryStatus::Uncertain => self.delivery_changed(
                        state.with_resolved_failed(id, at, reason, now),
                    ),
                    OutboundDeliveryStatus::Failed => if crate::text::is_blank(reason) {
                        Err("outbound delivery "@ + id + " resolution failure is empty"@)
                    } else if existing.updated_at_unix == at && existing.last_error == Some(
                        reason,
                    ) {
                        Ok((existing, ActionView::ConfirmDurable))
                    } else {
                        Err(
                            "outbound delivery "@ + id
                                + " failed resolution conflicts with persisted state"@,
                        )
                    },
                    status => Err(
                        "outbound delivery "@ + id + " cannot resolve as failed from "@
                            + status.name_text(),
                    ),
                },
            },
        }
    }
}

impl StateStore {
    /// Decides on settling an uncertain delivery as accepted.
    pub fn resolve_outbound_delivery_as_delivered(
        &self,
        id: &OutboundDeliveryId,
        resolved_at_unix: u64,
    ) -> (r: Result<Transition<OutboundDeliveryRecord>, String>)
        ensures
            exists|now: u64|
                gives(r, #[trigger] self@.resolved_delivered(id@, resolved_at_unix, now)),
    {
        self.resolve_outbound_delivery_as_delivered_at(id, resolved_at_unix, unix_seconds_now())
    }

    /// As [`StateStore::resolve_outbound_delivery_as_delivered`], with `now` as the current time.
    pub fn resolve_outbound_delivery_as_delivered_at(
        &self,
        id: &OutboundDeliveryId,
        resolved_at_unix: u64,
        now: u64,
    ) -> (r: Result<Transition<OutboundDeliveryRecord>, String>)
        ensures
            gives(r, self@.resolved_delivered(id@, resolved_at_unix, now)),
    {
        let mut state = match self.load_at(now) {
            Ok(state) => state,
            Err(e) => return Err(e),
        };
        let existing = match state.outbound_delivery(id) {
            Some(existing) => existing.clone(),
            None => return Err(join2("unknown outbound delivery id ", id.as_str())),
        };
        match existing.status {
            OutboundDeliveryStatus::Uncertain => {
                let delivery = match state.resolve_outbound_delivery_as_delivered_at(
                    id,
                    resolved_at_unix,
                    now,
                ) {
                    Ok(delivery) => delivery,
                    Err(e) => return Err(e),
                };
                match self.write_unlocked(state) {
                    Ok(action) => Ok(Transition { outcome: delivery, action }),
                    Err(e) => Err(e),
                }
            },
            OutboundDeliveryStatus::Delivered => {
                let repeated = match existing.delivered_at_unix {
                    Some(t) => t == resolved_at_unix,
                    None => false,
                };
                if repeated {
                    Ok(Transition { outcome: existing, action: StoreAction::ConfirmDurable })
                } else {
                    Err(
                        join3(
                            "outbound delivery ",
                            id.as_str(),
                            " delivered resolution timestamp conflicts with persisted state",
                        ),
                    )
                }
            },
            status => Err(
                join4(
                    "outbound delivery ",
                    id.as_str(),
                    " cannot resolve as delivered from ",
                    status.name(),
                ),
            ),
        }
    }

    /// Decides on settling an uncertain delivery as failed.
    pub fn resolve_outbound_delivery_as_failed(
        &self,
        id: &OutboundDeliveryId,
        resolved_at_unix: u64,
        reason: &str,
    ) -> (r: Result<Transition<OutboundDeliveryRecord>, String>)
        ensures
            exists|now: u64|
                gives(r, #[trigger] self@.resolved_failed(id@, resolved_at_unix, reason@, now)),
    {
        self.resolve_outbound_delivery_as_failed_at(
            id,
            resolved_at_unix,
            reason,
            unix_seconds_now(),
        )
    }

    /// As [`StateStore::resolve_outbound_delivery_as_failed`], with `now` as the current time.
    pub fn resolve_outbound_delivery_as_failed_at(
        &self,
        id: &OutboundDeliveryId,
        resolved_at_unix: u64,
        reason: &str,
        now: u64,
    ) -> (r: Result<Transition<OutboundDeliveryRecord>, String>)
        ensures
            gives(r, self@.resolved_failed(id@, resolved_at_unix, reason@, now)),
    {
        let mut state = match self.load_at(now) {
            Ok(state) => state,
            Err(e) => return Err(e),
        };
        let existing = match state.outbound_delivery(id) {
            Some(existing) => existing.clone(),
            None => return Err(join2("unknown outbound delivery id ", id.as_str())),
        };
        match existing.status {
            OutboundDeliveryStatus::Uncertain => {
                let delivery = match state.resolve_outbound_delivery_as_failed_at(
                    id,
                    resolved_at_unix,
                    reason,
                    now,
                ) {
                    Ok(delivery) => delivery,
                    Err(e) => return Err(e),
                };
                match self.write_unlocked(state) {
                    Ok(action) => Ok(Transition { outcome: delivery, action }),
                    Err(e) => Err(e),
                }
            },
            OutboundDeliveryStatus::Failed => {
                if blank(reason) {
                    return Err(
                        join3("outbound delivery ", id.as_str(), " resolution failure is empty"),
                    );
                }
                let same_reason = match &existing.last_error {
                    Some(error) => same_text(error, &reason.to_owned()),
                    None => false,
                };
                if existing.updated_at_unix == resolved_at_unix && same_reason {
                    Ok(Transition { outcome: existing, action: StoreAction::ConfirmDurable })
                } else {
                    Err(
                        join3(
                            "outbound delivery ",
                            id.as_str(),
                            " failed resolution conflicts with persisted state",
                        ),
                    )
                }
            },
            status => Err(
                join4(
                    "outbound delivery ",
                    id.as_str(),
                    " cannot resolve as failed from ",
                    status.name(),
                ),
            ),
        }
    }
}

} // verus!

//! Persisting inbound events and handing their messages over to runs.
use vstd::prelude::*;

use super::file_store::{gives, ActionView, StateStore, StoreAction, StoreView, Transition};
use crate::clock::unix_seconds_now;
use crate::event::{Event, EventView, InboundEventRecordStatus};
use crate::queue::{ClaimView, MessageBatchClaimOutcome, MessageQueuePolicy};
use crate::run::RunId;

verus! {

impl StoreView {
    /// Persisting an event: a new one is saved with the loaded state, and one that
    /// the ledger holds leaves the file alone.
    pub open spec fn event_persisted(self, event: EventView, now: u64) -> Result<
        (InboundEventRecordStatus, ActionView),
        Seq<char>,
    > {
        match self.loaded(now) {
            Err(e) => Err(e),
            Ok(state) => match state.recorded(event, now) {
                Err(e) => Err(e),
                Ok((next, status)) => if status is Recorded {
                    match self.saved(next) {
                        Err(e) => Err(e),
                        Ok(action) => Ok((status, action)),
                    }
                } else {
                    Ok((status, ActionView::Keep))
                },
            },
        }
    }

    /// Starting a run on waiting messages: a claim is written at once, and the
    /// file stays as it is where no batch is due.
    pub open spec fn batch_claimed(
        self,
        run_id: Seq<char>,
        policy: MessageQueuePolicy,
        now: u64,
        clock: u64,
    ) -> Result<(ClaimView, ActionView), Seq<char>> {
        match self.loaded(clock) {
            Err(e) => Err(e),
            Ok(state) => match state.batch_claimed(run_id, policy, now, clock) {
                Err(e) => Err(e),
                Ok((next, claim)) => if claim is Claimed {
                    match self.write(next) {
                        Err(e) => Err(e),
                        Ok(action) => Ok((claim, action)),
                    }
                } else {
                    Ok((claim, ActionView::Keep))
                },
            },
        }
    }
}

impl StateStore {
    /// Decides on persisting an event. The status may be acknowledged once the
    /// transition is settled.
    pub fn persist_inbound_event(&self, event: &Event) -> (r: Result<
        Transition<InboundEventRecordStatus>,
        String,
    >)
        ensures
            exists|now: u64| gives(r, #[trigger] self@.event_persisted(event@, now)),
    {
        self.persist_inbound_event_at(event, unix_seconds_now())
    }

    /// As [`StateStore::persist_inbound_event`], with `now` as the current time.
    pub fn persist_inbound_event_at(&self, event: &Event, now: u64) -> (r: Result<
        Transition<InboundEventRecordStatus>,
        String,
    >)
        ensures
            gives(r, self@.event_persisted(event@, now)),
    {
        let mut state = match self.load_at(now) {
            Ok(state) => state,
            Err(e) => return Err(e),
        };
        let status = match state.record_inbound_event_at(event, now) {
            Ok(status) => status,
            Err(e) => return Err(e),
        };
        if status == InboundEventRecordStatus::Recorded {
            match self.save_unlocked(&state) {
                Ok(action) => Ok(Transition { outcome: status, action }),
                Err(e) => Err(e),
            }
        } else {
            Ok(Transition { outcome: status, action: StoreAction::Keep })
        }
    }

    /// Decides on starting a run on the first batch of messages that is due.
    pub fn claim_message_batch(
        &self,
        run_id: RunId,
        policy: &MessageQueuePolicy,
        now_unix: u64,
    ) -> (r: Result<Transition<MessageBatchClaimOutcome>, String>)
        ensures
            exists|clock: u64|
                gives(r, #[trigger] self@.batch_claimed(run_id@, *policy, now_unix, clock)),
    {
        self.claim_message_batch_at(run_id, policy, now_unix, unix_seconds_now())
    }

    /// As [`StateStore::claim_message_batch`], with `clock` as the current time.
    pub fn claim_message_batch_at(
        &self,
        run_id: RunId,
        policy: &MessageQueuePolicy,
        now_unix: u64,
        clock: u64,
    ) -> (r: Result<Transition<MessageBatchClaimOutcome>, String>)
        ensures
            gives(r, self@.batch_claimed(run_id@, *policy, now_unix, clock)),
    {
        let mut state = match self.load_at(clock) {
            Ok(state) => state,
            Err(e) => return Err(e),
        };
        let claim = match state.claim_message_batch_at(run_id, policy, now_unix, clock) {
            Ok(claim) => claim,
            Err(e) => return Err(e),
        };
        let claimed = match &claim {
            MessageBatchClaimOutcome::Claimed { .. } => true,
            MessageBatchClaimOutcome::Waiting { .. } => false,
        };
        if claimed {
            match self.write_unlocked(state) {
                Ok(action) => Ok(Transition { outcome: claim, action }),
                Err(e) => Err(e),
            }
        } else {
            Ok(Transition { outcome: claim, action: StoreAction::Keep })
        }
    }
}

} // verus!

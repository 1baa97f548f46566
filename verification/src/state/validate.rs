//! Checking a runtime state, with a report of the first thing that is wrong.
use vstd::prelude::*;

use super::model::{ClaimedMessage, RuntimeState};
use crate::keyed::{find_record, find_record_before};
use crate::outbox::OutboundDeliveryRecord;
use crate::run::RunRecord;
use crate::session::SessionId;
use crate::text::{join2, join3, join4, join5};

verus! {

impl RuntimeState {
    /// Where the ledger holds an event.
    pub(crate) fn ledger_position(&self, event_id: &String) -> (r: Option<usize>)
        ensures
            match r {
                Some(p) => p < self.inbound_events@.len() && crate::keyed::find_key(
                    self@.inbound_events,
                    event_id@,
                ) == Some(p as int),
                None => crate::keyed::find_key(self@.inbound_events, event_id@) is None,
            },
    {
        find_record(&self.inbound_events, event_id)
    }

    /// Checks that a run's session is known.
    pub(crate) fn validate_run_session(&self, run: &RunRecord) -> (r: Result<(), String>)
        ensures
            crate::fault::reports(r, self@.run_session_fault(run@)),
    {
        if self.session(&run.session_id).is_none() {
            return Err(
                join4(
                    "run ",
                    run.id.as_str(),
                    " references unknown session ",
                    run.session_id.as_str(),
                ),
            );
        }
        Ok(())
    }

    /// Checks that a delivery's session is known.
    pub(crate) fn validate_outbound_delivery_session(
        &self,
        delivery: &OutboundDeliveryRecord,
    ) -> (r: Result<(), String>)
        ensures
            crate::fault::reports(r, self@.delivery_session_fault(delivery@)),
    {
        if self.session(&delivery.session_id).is_none() {
            return Err(
                join4(
                    "outbound delivery ",
                    delivery.id.as_str(),
                    " references unknown session ",
                    delivery.session_id.as_str(),
                ),
            );
        }
        Ok(())
    }

    /// The first active run of a session among the first `n` runs.
    pub(crate) fn active_run_before(&self, n: usize, session_id: &SessionId) -> (r: Option<usize>)
        requires
            n <= self.runs@.len(),
        ensures
            match r {
                Some(i) => i < n && super::view::active_run(
                    self@.runs.take(n as int),
                    session_id@,
                ) == Some(i as int),
                None => super::view::active_run(self@.runs.take(n as int), session_id@) is None,
            },
    {
        broadcast use super::validity::lemma_active_run;

        let ghost front = self@.runs.take(n as int);
        let mut i: usize = 0;
        while i < n
            invariant
                i <= n <= self.runs@.len(),
                front == self@.runs.take(n as int),
                forall|j: int|
                    0 <= j < i ==> !((#[trigger] front[j]).active() && front[j].session_id
                        == session_id@),
            decreases n - i,
        {
            if !self.runs[i].is_terminal() && self.runs[i].session_id.same(session_id) {
                proof {
                    super::validity::lemma_active_run_is(front, session_id@, i as int);
                }
                return Some(i);
            }
            i = i + 1;
        }
        None
    }

    fn check_session(&self, i: usize) -> (r: Result<(), String>)
        requires
            i < self.sessions@.len(),
        ensures
            crate::fault::reports(r, self@.session_fault(i as int)),
    {
        let session = &self.sessions[i];
        match session.validate() {
            Ok(()) => {},
            Err(e) => return Err(e),
        }
        if find_record_before(&self.sessions, i, &session.id.text).is_some() {
            return Err(join2("duplicate session id ", session.id.as_str()));
        }
        if self.updated_at_unix < session.updated_at_unix {
            return Err(
                join3(
                    "runtime state updated_at_unix before session ",
                    session.id.as_str(),
                    " updated_at_unix",
                ),
            );
        }
        Ok(())
    }

    fn validate_sessions(&self) -> (r: Result<(), String>)
        ensures
            crate::fault::reports(r, self@.sessions_fault()),
    {
        let ghost fault_at = |i: int| self@.session_fault(i);
        let mut i: usize = 0;
        while i < self.sessions.len()
            invariant
                i <= self.sessions@.len(),
                fault_at == (|i: int| self@.session_fault(i)),
                forall|j: int| 0 <= j < i ==> (#[trigger] fault_at(j)) is None,
            decreases self.sessions@.len() - i,
        {
            match self.check_session(i) {
                Ok(()) => {
                    assert(fault_at(i as int) is None);
                },
                Err(e) => {
                    proof {
                        assert(fault_at(i as int) == Some(e@));
                        crate::fault::lemma_first_fault(self@.sessions.len(), fault_at, i as int);
                    }
                    return Err(e);
                },
            }
            i = i + 1;
        }
        proof {
            crate::fault::lemma_no_fault(self@.sessions.len(), fault_at);
        }
        Ok(())
    }

    fn check_run(&self, i: usize) -> (r: Result<(), String>)
        requires
            i < self.runs@.len(),
        ensures
            crate::fault::reports(r, self@.run_fault(i as int)),
    {
        let run = &self.runs[i];
        match run.validate() {
            Ok(()) => {},
            Err(e) => return Err(e),
        }
        match self.validate_run_session(run) {
            Ok(()) => {},
            Err(e) => return Err(e),
        }
        if find_record_before(&self.runs, i, &run.id.text).is_some() {
            return Err(join2("duplicate run id ", run.id.as_str()));
        }
        if !run.is_terminal() {
            if let Some(j) = self.active_run_before(i, &run.session_id) {
                let tail = join2(" and ", run.id.as_str());
                return Err(
                    join5(
                        "session ",
                        run.session_id.as_str(),
                        " has multiple active runs ",
                        self.runs[j].id.as_str(),
                        tail.as_str(),
                    ),
                );
            }
        }
        if self.updated_at_unix < run.updated_at_unix {
            return Err(
                join3(
                    "runtime state updated_at_unix before run ",
                    run.id.as_str(),
                    " updated_at_unix",
                ),
            );
        }
        Ok(())
    }

    fn validate_runs(&self) -> (r: Result<(), String>)
        ensures
            crate::fault::reports(r, self@.runs_fault()),
    {
        let ghost fault_at = |i: int| self@.run_fault(i);
        let mut i: usize = 0;
        while i < self.runs.len()
            invariant
                i <= self.runs@.len(),
                fault_at == (|i: int| self@.run_fault(i)),
                forall|j: int| 0 <= j < i ==> (#[trigger] fault_at(j)) is None,
            decreases self.runs@.len() - i,
        {
            match self.check_run(i) {
                Ok(()) => {
                    assert(fault_at(i as int) is None);
                },
                Err(e) => {
                    proof {
                        assert(fault_at(i as int) == Some(e@));
                        crate::fault::lemma_first_fault(self@.runs.len(), fault_at, i as int);
                    }
                    return Err(e);
                },
            }
            i = i + 1;
        }
        proof {
            crate::fault::lemma_no_fault(self@.runs.len(), fault_at);
        }
        Ok(())
    }

    fn check_event(&self, i: usize) -> (r: Result<(), String>)
        requires
            i < self.inbound_events@.len(),
        ensures
            crate::fault::reports(r, self@.event_fault(i as int)),
    {
        let event = &self.inbound_events[i];
        match event.validate() {
            Ok(()) => {},
            Err(e) => return Err(e),
        }
        if find_record_before(&self.inbound_events, i, &event.id.text).is_some() {
            return Err(join2("duplicate inbound event id ", event.id.as_str()));
        }
        if self.updated_at_unix < event.recorded_at_unix {
            return Err(
                join3(
                    "runtime state updated_at_unix before inbound event ",
                    event.id.as_str(),
                    " recorded_at_unix",
                ),
            );
        }
        Ok(())
    }

    fn validate_inbound_events(&self) -> (r: Result<(), String>)
        ensures
            crate::fault::reports(r, self@.events_fault()),
    {
        let ghost fault_at = |i: int| self@.event_fault(i);
        let mut i: usize = 0;
        while i < self.inbound_events.len()
            invariant
                i <= self.inbound_events@.len(),
                fault_at == (|i: int| self@.event_fault(i)),
                forall|j: int| 0 <= j < i ==> (#[trigger] fault_at(j)) is None,
            decreases self.inbound_events@.len() - i,
        {
            match self.check_event(i) {
                Ok(()) => {
                    assert(fault_at(i as int) is None);
                },
                Err(e) => {
                    proof {
                        assert(fault_at(i as int) == Some(e@));
                        crate::fault::lemma_first_fault(
                            self@.inbound_events.len(),
                            fault_at,
                            i as int,
                        );
                    }
                    return Err(e);
                },
            }
            i = i + 1;
        }
        proof {
            crate::fault::lemma_no_fault(self@.inbound_events.len(), fault_at);
        }
        Ok(())
    }

    fn check_delivery(&self, i: usize) -> (r: Result<(), String>)
        requires
            i < self.outbound_deliveries@.len(),
        ensures
            crate::fault::reports(r, self@.delivery_fault(i as int)),
    {
        let delivery = &self.outbound_deliveries[i];
        match delivery.validate() {
            Ok(()) => {},
            Err(e) => return Err(e),
        }
        if find_record_before(&self.outbound_deliveries, i, &delivery.id.text).is_some() {
            return Err(join2("duplicate outbound delivery id ", delivery.id.as_str()));
        }
        match self.validate_outbound_delivery_session(delivery) {
            Ok(()) => {},
            Err(e) => return Err(e),
        }
        if self.updated_at_unix < delivery.updated_at_unix {
            return Err(
                join3(
                    "runtime state updated_at_unix before outbound delivery ",
                    delivery.id.as_str(),
                    " updated_at_unix",
                ),
            );
        }
        Ok(())
    }

    fn validate_outbound_deliveries(&self) -> (r: Result<(), String>)
        ensures
            crate::fault::reports(r, self@.deliveries_fault()),
    {
        let ghost fault_at = |i: int| self@.delivery_fault(i);
        let mut i: usize = 0;
        while i < self.outbound_deliveries.len()
            invariant
                i <= self.outbound_deliveries@.len(),
                fault_at == (|i: int| self@.delivery_fault(i)),
                forall|j: int| 0 <= j < i ==> (#[trigger] fault_at(j)) is None,
            decreases self.outbound_deliveries@.len() - i,
        {
            match self.check_delivery(i) {
                Ok(()) => {
                    assert(fault_at(i as int) is None);
                },
                Err(e) => {
                    proof {
                        assert(fault_at(i as int) == Some(e@));
                        crate::fault::lemma_first_fault(
                            self@.outbound_deliveries.len(),
                            fault_at,
                            i as int,
                        );
                    }
                    return Err(e);
                },
            }
            i = i + 1;
        }
        proof {
            crate::fault::lemma_no_fault(self@.outbound_deliveries.len(), fault_at);
        }
        Ok(())
    }

    /// Whether an earlier queue entry stands at or behind `position` in the ledger.
    fn queue_overtaken(&self, i: usize, position: usize) -> (r: bool)
        requires
            i <= self.queued_messages@.len(),
        ensures
            r == self@.queue_overtakes(i as int, position as int),
    {
        let mut j: usize = 0;
        while j < i
            invariant
                j <= i <= self.queued_messages@.len(),
                forall|m: int|
                    0 <= m < j ==> self@.position(
                        (#[trigger] self@.queued_messages[m]).event_id,
                    ) < position,
            decreases i - j,
        {
            if let Some(p) = self.ledger_position(&self.queued_messages[j].event_id.text) {
                if p >= position {
                    assert(self@.position(self@.queued_messages[j as int].event_id) >= position);
                    return true;
                }
            }
            j = j + 1;
        }
        false
    }

    /// Whether an earlier queue entry of the same session was queued later.
    fn queue_time_dropped(&self, i: usize) -> (r: bool)
        requires
            i < self.queued_messages@.len(),
        ensures
            r == self@.queue_time_drops(i as int),
    {
        let ghost queue = self@.queued_messages;
        let mut j: usize = 0;
        while j < i
            invariant
                j <= i < self.queued_messages@.len(),
                queue == self@.queued_messages,
                forall|m: int|
                    0 <= m < j ==> (#[trigger] queue[m]).session_id != queue[i as int].session_id
                        || queue[m].enqueued_at_unix <= queue[i as int].enqueued_at_unix,
            decreases i - j,
        {
            if self.queued_messages[j].session_id.same(&self.queued_messages[i].session_id)
                && self.queued_messages[j].enqueued_at_unix
                > self.queued_messages[i].enqueued_at_unix {
                assert(queue[j as int].session_id == queue[i as int].session_id);
                return true;
            }
            j = j + 1;
        }
        false
    }

    fn check_queued(&self, i: usize) -> (r: Result<(), String>)
        requires
            i < self.queued_messages@.len(),
        ensures
            crate::fault::reports(r, self@.queued_fault(i as int)),
    {
        let queued = &self.queued_messages[i];
        match queued.validate() {
            Ok(()) => {},
            Err(e) => return Err(e),
        }
        if find_record_before(&self.queued_messages, i, &queued.event_id.text).is_some() {
            return Err(join2("duplicate queued inbound event id ", queued.event_id.as_str()));
        }
        let position: usize = match self.ledger_position(&queued.event_id.text) {
            Some(p) => p,
            None => {
                return Err(
                    join3(
                        "queued message event ",
                        queued.event_id.as_str(),
                        " has no inbound event record",
                    ),
                );
            },
        };
        let event = &self.inbound_events[position];
        if self.queue_overtaken(i, position) {
            return Err(
                join3(
                    "queued message event ",
                    queued.event_id.as_str(),
                    " is out of inbound ledger order",
                ),
            );
        }
        if queued.received_at_unix != event.received_at_unix {
            return Err(
                join3(
                    "queued message event ",
                    queued.event_id.as_str(),
                    " does not match inbound event received_at_unix",
                ),
            );
        }
        if queued.enqueued_at_unix < event.recorded_at_unix {
            return Err(
                join3(
                    "queued message event ",
                    queued.event_id.as_str(),
                    " has enqueued_at_unix before inbound event recorded_at_unix",
                ),
            );
        }
        if self.session(&queued.session_id).is_none() {
            return Err(
                join4(
                    "queued message event ",
                    queued.event_id.as_str(),
                    " references unknown session ",
                    queued.session_id.as_str(),
                ),
            );
        }
        if self.queue_time_dropped(i) {
            return Err(
                join3(
                    "queued messages for session ",
                    queued.session_id.as_str(),
                    " are not ordered by enqueued_at_unix",
                ),
            );
        }
        if self.updated_at_unix < queued.enqueued_at_unix {
            return Err(
                join3(
                    "runtime state updated_at_unix before queued message event ",
                    queued.event_id.as_str(),
                    " enqueued_at_unix",
                ),
            );
        }
        Ok(())
    }

    fn validate_queued_messages(&self) -> (r: Result<(), String>)
        ensures
            crate::fault::reports(r, self@.queue_fault()),
    {
        let ghost fault_at = |i: int| self@.queued_fault(i);
        let mut i: usize = 0;
        while i < self.queued_messages.len()
            invariant
                i <= self.queued_messages@.len(),
                fault_at == (|i: int| self@.queued_fault(i)),
                forall|j: int| 0 <= j < i ==> (#[trigger] fault_at(j)) is None,
            decreases self.queued_messages@.len() - i,
        {
            match self.check_queued(i) {
                Ok(()) => {
                    assert(fault_at(i as int) is None);
                },
                Err(e) => {
                    proof {
                        assert(fault_at(i as int) == Some(e@));
                        crate::fault::lemma_first_fault(
                            self@.queued_messages.len(),
                            fault_at,
                            i as int,
                        );
                    }
                    return Err(e);
                },
            }
            i = i + 1;
        }
        proof {
            crate::fault::lemma_no_fault(self@.queued_messages.len(), fault_at);
        }
        Ok(())
    }

    /// Whether one of the messages taken `before` for a session was queued after
    /// `at`.
    fn claim_time_dropped(
        &self,
        before: &Vec<ClaimedMessage<'_>>,
        session_id: &SessionId,
        at: u64,
    ) -> (r: bool)
        ensures
            r == self@.claim_time_drops(crate::keyed::views(before@), session_id@, at),
    {
        let ghost taken = crate::keyed::views(before@);
        let mut i: usize = 0;
        while i < before.len()
            invariant
                i <= before@.len(),
                taken == crate::keyed::views(before@),
                forall|m: int|
                    0 <= m < i ==> (#[trigger] taken[m]).session_id != session_id@
                        || taken[m].message.enqueued_at_unix <= at,
            decreases before@.len() - i,
        {
            if before[i].session_id.same(session_id) && before[i].message.enqueued_at_unix > at {
                assert(taken[i as int].session_id == session_id@);
                return true;
            }
            i = i + 1;
        }
        false
    }

    /// Whether one of the messages taken `before` for a session stands at or
    /// behind `position` in the ledger.
    fn claim_overtaken(
        &self,
        before: &Vec<ClaimedMessage<'_>>,
        session_id: &SessionId,
        position: usize,
    ) -> (r: bool)
        ensures
            r == self@.claim_overtakes(
                crate::keyed::views(before@),
                session_id@,
                position as int,
            ),
    {
        let ghost taken = crate::keyed::views(before@);
        let mut i: usize = 0;
        while i < before.len()
            invariant
                i <= before@.len(),
                taken == crate::keyed::views(before@),
                forall|m: int|
                    0 <= m < i ==> (#[trigger] taken[m]).session_id != session_id@
                        || self@.position(taken[m].message.event_id) < position,
            decreases before@.len() - i,
        {
            if before[i].session_id.same(session_id) {
                if let Some(p) = self.ledger_position(&before[i].message.event_id.text) {
                    if p >= position {
                        assert(taken[i as int].session_id == session_id@);
                        return true;
                    }
                }
            }
            i = i + 1;
        }
        false
    }

    /// Checks message `j` of the run input at `k`.
    fn check_claim(&self, k: usize, j: usize, before: &Vec<ClaimedMessage<'_>>) -> (r: Result<
        (),
        String,
    >)
        requires
            k < self.run_inputs@.len(),
            j < self.run_inputs@[k as int].messages@.len(),
            crate::keyed::views(before@) == super::view::claims_before(
                self@.run_inputs,
                k as int,
                j as int,
            ),
        ensures
            crate::fault::reports(r, self@.claim_fault(k as int, j as int)),
    {
        let input = &self.run_inputs[k];
        let message = &input.messages[j];
        let run_id = input.run_id.as_str();
        let event_id = message.event_id.as_str();
        if find_record(&self.queued_messages, &message.event_id.text).is_some() {
            return Err(
                join5(
                    "run input ",
                    run_id,
                    " event ",
                    event_id,
                    " is still present in the message queue",
                ),
            );
        }
        if find_record(before, &message.event_id.text).is_some() {
            return Err(
                join3("queued message event ", event_id, " is claimed by multiple runs"),
            );
        }
        let position: usize = match self.ledger_position(&message.event_id.text) {
            Some(p) => p,
            None => {
                return Err(
                    join5(
                        "run input ",
                        run_id,
                        " message event ",
                        event_id,
                        " has no inbound event record",
                    ),
                );
            },
        };
        let event = &self.inbound_events[position];
        if message.received_at_unix != event.received_at_unix {
            return Err(
                join5(
                    "run input ",
                    run_id,
                    " message event ",
                    event_id,
                    " does not match inbound event received_at_unix",
                ),
            );
        }
        if message.enqueued_at_unix < event.recorded_at_unix {
            return Err(
                join5(
                    "run input ",
                    run_id,
                    " message event ",
                    event_id,
                    " was enqueued before its inbound event record",
                ),
            );
        }
        if self.claim_time_dropped(before, &input.session_id, message.enqueued_at_unix) {
            return Err(
                join5(
                    "run input ",
                    run_id,
                    " message event ",
                    event_id,
                    " is out of session enqueue order",
                ),
            );
        }
        if self.claim_overtaken(before, &input.session_id, position) {
            return Err(
                join5(
                    "run input ",
                    run_id,
                    " message event ",
                    event_id,
                    " is out of session ownership order",
                ),
            );
        }
        Ok(())
    }

    fn check_input_head(&self, k: usize) -> (r: Result<(), String>)
        requires
            k < self.run_inputs@.len(),
        ensures
            crate::fault::reports(r, self@.input_head_fault(k as int)),
    {
        let input = &self.run_inputs[k];
        match input.validate() {
            Ok(()) => {},
            Err(e) => return Err(e),
        }
        if find_record_before(&self.run_inputs, k, &input.run_id.text).is_some() {
            return Err(join2("duplicate run input id ", input.run_id.as_str()));
        }
        let run = match self.run(&input.run_id) {
            Some(run) => run,
            None => {
                return Err(
                    join3("run input ", input.run_id.as_str(), " references unknown run"),
                );
            },
        };
        if !run.session_id.same(&input.session_id) {
            return Err(
                join4(
                    "run input ",
                    input.run_id.as_str(),
                    " does not match run session ",
                    run.session_id.as_str(),
                ),
            );
        }
        if run.created_at_unix != input.claimed_at_unix {
            return Err(
                join3(
                    "run input ",
                    input.run_id.as_str(),
                    " claimed_at_unix does not match run created_at_unix",
                ),
            );
        }
        Ok(())
    }

    /// Checks the run input at `k`, given the messages taken by earlier inputs, to
    /// which it adds its own.
    fn check_input<'a>(&'a self, k: usize, before: &mut Vec<ClaimedMessage<'a>>) -> (r: Result<
        (),
        String,
    >)
        requires
            k < self.run_inputs@.len(),
            crate::keyed::views(old(before)@) == super::view::claims(
                self@.run_inputs.take(k as int),
            ),
        ensures
            crate::fault::reports(r, self@.input_fault(k as int)),
            r is Ok ==> crate::keyed::views(final(before)@) == super::view::claims(
                self@.run_inputs.take(k + 1),
            ),
    {
        match self.check_input_head(k) {
            Ok(()) => {},
            Err(e) => return Err(e),
        }
        let input = &self.run_inputs[k];
        let ghost head = crate::keyed::views(before@);
        let ghost of_input = super::view::claims_of(self@.run_inputs[k as int]);
        let ghost fault_at = |j: int| self@.claim_fault(k as int, j);
        let ghost count = self@.run_inputs[k as int].messages.len();
        let mut j: usize = 0;
        assert(crate::keyed::views(before@) =~= head + of_input.take(0));
        while j < input.messages.len()
            invariant
                k < self.run_inputs@.len(),
                *input == self.run_inputs@[k as int],
                j <= input.messages@.len() == count,
                head == super::view::claims(self@.run_inputs.take(k as int)),
                of_input == super::view::claims_of(self@.run_inputs[k as int]),
                crate::keyed::views(before@) == head + of_input.take(j as int),
                fault_at == (|j: int| self@.claim_fault(k as int, j)),
                forall|m: int| 0 <= m < j ==> (#[trigger] fault_at(m)) is None,
                self@.input_head_fault(k as int) is None,
                count == self@.run_inputs[k as int].messages.len(),
            decreases input.messages@.len() - j,
        {
            match self.check_claim(k, j, before) {
                Ok(()) => {
                    assert(fault_at(j as int) is None);
                },
                Err(e) => {
                    proof {
                        assert(fault_at(j as int) == Some(e@));
                        crate::fault::lemma_first_fault(count, fault_at, j as int);
                    }
                    return Err(e);
                },
            }
            let ghost so_far = before@;
            before.push(
                ClaimedMessage { session_id: &input.session_id, message: &input.messages[j] },
            );
            j = j + 1;
            assert(crate::keyed::views(before@) =~= crate::keyed::views(so_far).push(
                of_input[j - 1],
            ));
            assert(of_input.take(j as int) =~= of_input.take(j - 1).push(of_input[j - 1]));
        }
        proof {
            crate::fault::lemma_no_fault(count, fault_at);
            assert(of_input.take(of_input.len() as int) =~= of_input);
            super::validity::lemma_claims_step(self@.run_inputs, k as int);
        }
        if self.updated_at_unix < input.claimed_at_unix {
            return Err(
                join3(
                    "runtime state updated_at_unix before run input ",
                    input.run_id.as_str(),
                    " claimed_at_unix",
                ),
            );
        }
        Ok(())
    }

    fn validate_run_inputs(&self) -> (r: Result<(), String>)
        ensures
            crate::fault::reports(r, self@.inputs_fault()),
    {
        let ghost fault_at = |i: int| self@.input_fault(i);
        let mut before: Vec<ClaimedMessage<'_>> = Vec::new();
        assert(crate::keyed::views(before@) =~= super::view::claims(self@.run_inputs.take(0)));
        let mut k: usize = 0;
        while k < self.run_inputs.len()
            invariant
                k <= self.run_inputs@.len(),
                fault_at == (|i: int| self@.input_fault(i)),
                forall|j: int| 0 <= j < k ==> (#[trigger] fault_at(j)) is None,
                crate::keyed::views(before@) == super::view::claims(
                    self@.run_inputs.take(k as int),
                ),
            decreases self.run_inputs@.len() - k,
        {
            match self.check_input(k, &mut before) {
                Ok(()) => {
                    assert(fault_at(k as int) is None);
                },
                Err(e) => {
                    proof {
                        assert(fault_at(k as int) == Some(e@));
                        crate::fault::lemma_first_fault(
                            self@.run_inputs.len(),
                            fault_at,
                            k as int,
                        );
                    }
                    return Err(e);
                },
            }
            k = k + 1;
        }
        proof {
            crate::fault::lemma_no_fault(self@.run_inputs.len(), fault_at);
        }
        Ok(())
    }

    fn check_handover(&self, i: usize, taken: &Vec<ClaimedMessage<'_>>) -> (r: Result<(), String>)
        requires
            i < self.queued_messages@.len(),
            crate::keyed::views(taken@) == super::view::claims(self@.run_inputs),
            crate::keyed::has_key(
                self@.inbound_events,
                self@.queued_messages[i as int].event_id,
            ),
        ensures
            crate::fault::reports(r, self@.handover_fault(i as int)),
    {
        let queued = &self.queued_messages[i];
        if self.claim_time_dropped(taken, &queued.session_id, queued.enqueued_at_unix) {
            return Err(
                join4(
                    "queued message event ",
                    queued.event_id.as_str(),
                    " is before already claimed enqueue time for session ",
                    queued.session_id.as_str(),
                ),
            );
        }
        let overtaken = match self.ledger_position(&queued.event_id.text) {
            Some(position) => self.claim_overtaken(taken, &queued.session_id, position),
            None => false,
        };
        if overtaken {
            return Err(
                join4(
                    "queued message event ",
                    queued.event_id.as_str(),
                    " is before already claimed work for session ",
                    queued.session_id.as_str(),
                ),
            );
        }
        Ok(())
    }

    fn validate_handovers(&self) -> (r: Result<(), String>)
        requires
            forall|i: int|
                0 <= i < self@.queued_messages.len() ==> crate::keyed::has_key(
                    self@.inbound_events,
                    (#[trigger] self@.queued_messages[i]).event_id,
                ),
        ensures
            crate::fault::reports(r, self@.handovers_fault()),
    {
        let taken = self.claimed_messages();
        let ghost fault_at = |i: int| self@.handover_fault(i);
        let mut i: usize = 0;
        while i < self.queued_messages.len()
            invariant
                i <= self.queued_messages@.len(),
                crate::keyed::views(taken@) == super::view::claims(self@.run_inputs),
                forall|i: int|
                    0 <= i < self@.queued_messages.len() ==> crate::keyed::has_key(
                        self@.inbound_events,
                        (#[trigger] self@.queued_messages[i]).event_id,
                    ),
                fault_at == (|i: int| self@.handover_fault(i)),
                forall|j: int| 0 <= j < i ==> (#[trigger] fault_at(j)) is None,
            decreases self.queued_messages@.len() - i,
        {
            assert(self@.queued_messages[i as int].event_id
                == self.queued_messages@[i as int].event_id@);
            match self.check_handover(i, &taken) {
                Ok(()) => {
                    assert(fault_at(i as int) is None);
                },
                Err(e) => {
                    proof {
                        assert(fault_at(i as int) == Some(e@));
                        crate::fault::lemma_first_fault(
                            self@.queued_messages.len(),
                            fault_at,
                            i as int,
                        );
                    }
                    return Err(e);
                },
            }
            i = i + 1;
        }
        proof {
            crate::fault::lemma_no_fault(self@.queued_messages.len(), fault_at);
        }
        Ok(())
    }

    /// Checks the whole state and reports the first thing that is wrong with it.
    /// A state that passes is valid.
    pub fn validate(&self) -> (r: Result<(), String>)
        ensures
            crate::fault::reports(r, self@.fault()),
            r is Ok <==> self@.valid(),
    {
        proof {
            super::validity::law_fault_free_is_valid(self@);
        }
        match self.validate_sessions() {
            Ok(()) => {},
            Err(e) => return Err(e),
        }
        match self.validate_runs() {
            Ok(()) => {},
            Err(e) => return Err(e),
        }
        match self.validate_inbound_events() {
            Ok(()) => {},
            Err(e) => return Err(e),
        }
        match self.validate_outbound_deliveries() {
            Ok(()) => {},
            Err(e) => return Err(e),
        }
        match self.validate_queued_messages() {
            Ok(()) => {},
            Err(e) => return Err(e),
        }
        match self.validate_run_inputs() {
            Ok(()) => {},
            Err(e) => return Err(e),
        }
        proof {
            super::validity::lemma_queue(self@);
        }
        self.validate_handovers()
    }
}

} // verus!

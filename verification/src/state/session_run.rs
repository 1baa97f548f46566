//! Sessions and runs: adding them to the state and moving runs along.
use vstd::prelude::*;

use super::model::RuntimeState;
use super::view::{active_run, StateView};
use crate::clock::unix_seconds_now;
use crate::keyed::{find_key, find_record, has_key};
use crate::outbox::OutboundDeliveryId;
use crate::run::{RunId, RunRecord, RunView};
use crate::session::{Session, SessionView};
use crate::text::{join2, join4};

verus! {

/// The later of two times.
pub open spec fn later_of(a: u64, b: u64) -> u64 {
    if a < b {
        b
    } else {
        a
    }
}

pub(crate) fn later(a: u64, b: u64) -> (r: u64)
    ensures
        r == later_of(a, b),
{
    if a < b {
        b
    } else {
        a
    }
}

impl StateView {
    /// The empty state at `now`.
    pub open spec fn fresh(now: u64) -> StateView {
        StateView {
            sessions: Seq::empty(),
            runs: Seq::empty(),
            run_inputs: Seq::empty(),
            inbound_events: Seq::empty(),
            queued_messages: Seq::empty(),
            outbound_deliveries: Seq::empty(),
            updated_at_unix: now,
        }
    }

    /// This state, last updated no earlier than `at`.
    pub open spec fn touched(self, at: u64) -> StateView {
        StateView { updated_at_unix: later_of(self.updated_at_unix, at), ..self }
    }

    /// This state with a session added, or refreshed where it is known.
    pub open spec fn with_session(self, session: SessionView, now: u64) -> StateView {
        match find_key(self.sessions, session.id) {
            Some(i) => {
                let refreshed = self.sessions[i].refreshed(session);
                StateView { sessions: self.sessions.update(i, refreshed), ..self }.touched(
                    later_of(refreshed.updated_at_unix, now),
                )
            },
            None => StateView { sessions: self.sessions.push(session), ..self }.touched(
                later_of(session.updated_at_unix, now),
            ),
        }
    }

    /// This state with a run added, or why it cannot be: its session is unknown,
    /// its id is taken, or the session already has an active run.
    pub open spec fn with_run(self, run: RunView, now: u64) -> Result<StateView, Seq<char>> {
        if self.run_session_fault(run) is Some {
            Err(self.run_session_fault(run)->Some_0)
        } else if has_key(self.runs, run.id) {
            Err("duplicate run id "@ + run.id)
        } else if run.active() && active_run(self.runs, run.session_id) is Some {
            let other = self.runs[active_run(self.runs, run.session_id)->Some_0];
            Err("session "@ + run.session_id + " already has active run "@ + other.id)
        } else {
            Ok(
                StateView { runs: self.runs.push(run), ..self }.touched(
                    later_of(run.updated_at_unix, now),
                ),
            )
        }
    }

    /// This state with the run under `id` changed, or why it cannot be.
    pub open spec fn with_run_changed(
        self,
        id: Seq<char>,
        change: spec_fn(RunView) -> Result<RunView, Seq<char>>,
        at: u64,
        now: u64,
    ) -> Result<StateView, Seq<char>> {
        match find_key(self.runs, id) {
            None => Err("unknown run id "@ + id),
            Some(i) => match change(self.runs[i]) {
                Err(e) => Err(e),
                Ok(run) => Ok(
                    StateView { runs: self.runs.update(i, run), ..self }.touched(
                        later_of(at, now),
                    ),
                ),
            },
        }
    }

    pub open spec fn with_run_started(self, id: Seq<char>, at: u64, now: u64) -> Result<
        StateView,
        Seq<char>,
    > {
        self.with_run_changed(id, |run: RunView| run.started(at), at, now)
    }

    pub open spec fn with_run_interrupted(self, id: Seq<char>, at: u64, now: u64) -> Result<
        StateView,
        Seq<char>,
    > {
        self.with_run_changed(id, |run: RunView| run.interrupted(at), at, now)
    }

    pub open spec fn with_run_completed(
        self,
        id: Seq<char>,
        at: u64,
        outputs: Seq<Seq<char>>,
        now: u64,
    ) -> Result<StateView, Seq<char>> {
        self.with_run_changed(id, |run: RunView| run.completed(at, outputs), at, now)
    }

    pub open spec fn with_run_failed(self, id: Seq<char>, at: u64, now: u64) -> Result<
        StateView,
        Seq<char>,
    > {
        self.with_run_changed(id, |run: RunView| run.failed(at), at, now)
    }

    pub open spec fn with_run_cancelled(self, id: Seq<char>, at: u64, now: u64) -> Result<
        StateView,
        Seq<char>,
    > {
        self.with_run_changed(id, |run: RunView| run.cancelled(at), at, now)
    }
}

impl Default for RuntimeState {
    fn default() -> (r: Self)
        ensures
            exists|now: u64| r@ == #[trigger] StateView::fresh(now),
    {
        RuntimeState::new()
    }
}

impl RuntimeState {
    /// The empty state, as of now.
    pub fn new() -> (r: RuntimeState)
        ensures
            exists|now: u64| r@ == #[trigger] StateView::fresh(now),
    {
        RuntimeState::new_at(unix_seconds_now())
    }

    /// The empty state at `now`.
    pub fn new_at(now: u64) -> (r: RuntimeState)
        ensures
            r@ == StateView::fresh(now),
    {
        let r = RuntimeState {
            sessions: Vec::new(),
            runs: Vec::new(),
            run_inputs: Vec::new(),
            inbound_events: Vec::new(),
            queued_messages: Vec::new(),
            outbound_deliveries: Vec::new(),
            updated_at_unix: now,
        };
        assert(r@ =~= StateView::fresh(now));
        r
    }

    /// Moves the time of the last update forward to `at`, never back.
    pub(crate) fn touch_at(&mut self, at: u64)
        ensures
            final(self)@ == old(self)@.touched(at),
            final(self).sessions == old(self).sessions,
            final(self).runs == old(self).runs,
            final(self).run_inputs == old(self).run_inputs,
            final(self).inbound_events == old(self).inbound_events,
            final(self).queued_messages == old(self).queued_messages,
            final(self).outbound_deliveries == old(self).outbound_deliveries,
    {
        if self.updated_at_unix < at {
            self.updated_at_unix = at;
        }
    }

    /// Adds a session, or refreshes it where it is known.
    pub fn upsert_session(&mut self, session: Session)
        ensures
            exists|now: u64| final(self)@ == #[trigger] old(self)@.with_session(session@, now),
    {
        self.upsert_session_at(session, unix_seconds_now())
    }

    /// Adds a session at `now`, or refreshes it where it is known.
    pub fn upsert_session_at(&mut self, session: Session, now: u64)
        ensures
            final(self)@ == old(self)@.with_session(session@, now),
    {
        let ghost before = self@;
        match find_record(&self.sessions, &session.id.text) {
            Some(i) => {
                self.sessions[i].refresh_from(session);
                let updated_at: u64 = self.sessions[i].updated_at_unix;
                assert(self@.sessions =~= before.sessions.update(
                    i as int,
                    before.sessions[i as int].refreshed(session@),
                ));
                self.touch_at(later(updated_at, now));
            },
            None => {
                let updated_at: u64 = session.updated_at_unix;
                self.sessions.push(session);
                assert(self@.sessions =~= before.sessions.push(session@));
                self.touch_at(later(updated_at, now));
            },
        }
    }

    /// Adds a run to a known session without another active run.
    pub fn add_run(&mut self, run: RunRecord) -> (r: Result<(), String>)
        ensures
            exists|now: u64|
                crate::fault::applies(
                    r,
                    old(self)@,
                    final(self)@,
                    #[trigger] old(self)@.with_run(run@, now),
                ),
    {
        self.add_run_at(run, unix_seconds_now())
    }

    /// Adds a run at `now`.
    pub fn add_run_at(&mut self, run: RunRecord, now: u64) -> (r: Result<(), String>)
        ensures
            crate::fault::applies(r, old(self)@, final(self)@, old(self)@.with_run(run@, now)),
    {
        let ghost before = self@;
        match self.validate_run_session(&run) {
            Ok(()) => {},
            Err(e) => return Err(e),
        }
        if find_record(&self.runs, &run.id.text).is_some() {
            return Err(join2("duplicate run id ", run.id.as_str()));
        }
        if !run.is_terminal() {
            assert(before.runs.take(before.runs.len() as int) =~= before.runs);
            if let Some(i) = self.active_run_before(self.runs.len(), &run.session_id) {
                return Err(
                    join4(
                        "session ",
                        run.session_id.as_str(),
                        " already has active run ",
                        self.runs[i].id.as_str(),
                    ),
                );
            }
        }
        let updated_at: u64 = run.updated_at_unix;
        self.runs.push(run);
        assert(self@.runs =~= before.runs.push(run@));
        self.touch_at(later(updated_at, now));
        Ok(())
    }

    /// The position of the run under an id.
    fn run_position(&self, id: &RunId) -> (r: Result<usize, String>)
        ensures
            match r {
                Ok(i) => i < self.runs@.len() && find_key(self@.runs, id@) == Some(i as int),
                Err(e) => find_key(self@.runs, id@) is None && e@ == "unknown run id "@ + id@,
            },
    {
        match find_record(&self.runs, &id.text) {
            Some(i) => Ok(i),
            None => Err(join2("unknown run id ", id.as_str())),
        }
    }

    /// Starts a pending run.
    pub fn start_run(&mut self, id: &RunId, started_at_unix: u64) -> (r: Result<(), String>)
        ensures
            exists|now: u64|
                crate::fault::applies(
                    r,
                    old(self)@,
                    final(self)@,
                    #[trigger] old(self)@.with_run_started(id@, started_at_unix, now),
                ),
    {
        self.start_run_at(id, started_at_unix, unix_seconds_now())
    }

    /// As [`RuntimeState::start_run`], with `now` as the current time.
    pub fn start_run_at(&mut self, id: &RunId, started_at_unix: u64, now: u64) -> (r: Result<
        (),
        String,
    >)
        ensures
            crate::fault::applies(
                r,
                old(self)@,
                final(self)@,
                old(self)@.with_run_started(id@, started_at_unix, now),
            ),
    {
        let ghost before = self@;
        let i: usize = match self.run_position(id) {
            Ok(i) => i,
            Err(e) => return Err(e),
        };
        match self.runs[i].start(started_at_unix) {
            Ok(()) => {},
            Err(e) => {
                assert(self@ =~= before);
                return Err(e);
            },
        }
        assert(self@.runs =~= before.runs.update(i as int, self@.runs[i as int]));
        self.touch_at(later(started_at_unix, now));
        Ok(())
    }

    /// Interrupts a pending or running run, which keeps its session.
    pub fn interrupt_run(&mut self, id: &RunId, interrupted_at_unix: u64) -> (r: Result<(), String>)
        ensures
            exists|now: u64|
                crate::fault::applies(
                    r,
                    old(self)@,
                    final(self)@,
                    #[trigger] old(self)@.with_run_interrupted(id@, interrupted_at_unix, now),
                ),
    {
        self.interrupt_run_at(id, interrupted_at_unix, unix_seconds_now())
    }

    /// As [`RuntimeState::interrupt_run`], with `now` as the current time.
    pub fn interrupt_run_at(
        &mut self,
        id: &RunId,
        interrupted_at_unix: u64,
        now: u64,
    ) -> (r: Result<(), String>)
        ensures
            crate::fault::applies(
                r,
                old(self)@,
                final(self)@,
                old(self)@.with_run_interrupted(id@, interrupted_at_unix, now),
            ),
    {
        let ghost before = self@;
        let i: usize = match self.run_position(id) {
            Ok(i) => i,
            Err(e) => return Err(e),
        };
        match self.runs[i].interrupt(interrupted_at_unix) {
            Ok(()) => {},
            Err(e) => {
                assert(self@ =~= before);
                return Err(e);
            },
        }
        assert(self@.runs =~= before.runs.update(i as int, self@.runs[i as int]));
        self.touch_at(later(interrupted_at_unix, now));
        Ok(())
    }

    /// Completes a running run that has no output.
    pub fn complete_run(&mut self, id: &RunId, finished_at_unix: u64) -> (r: Result<(), String>)
        ensures
            exists|now: u64|
                crate::fault::applies(
                    r,
                    old(self)@,
                    final(self)@,
                    #[trigger] old(self)@.with_run_completed(id@, finished_at_unix, Seq::empty(), now),
                ),
    {
        self.complete_run_at(id, finished_at_unix, unix_seconds_now())
    }

    /// As [`RuntimeState::complete_run`], with `now` as the current time.
    pub fn complete_run_at(&mut self, id: &RunId, finished_at_unix: u64, now: u64) -> (r: Result<
        (),
        String,
    >)
        ensures
            crate::fault::applies(
                r,
                old(self)@,
                final(self)@,
                old(self)@.with_run_completed(id@, finished_at_unix, Seq::empty(), now),
            ),
    {
        let outputs: Vec<OutboundDeliveryId> = Vec::new();
        assert(crate::keyed::views(outputs@) =~= Seq::empty());
        self.complete_run_with_ids_at(id, finished_at_unix, outputs, now)
    }

    /// Completes a running run with the ids of its output deliveries.
    pub(crate) fn complete_run_with_ids_at(
        &mut self,
        id: &RunId,
        finished_at_unix: u64,
        outputs: Vec<OutboundDeliveryId>,
        now: u64,
    ) -> (r: Result<(), String>)
        ensures
            crate::fault::applies(
                r,
                old(self)@,
                final(self)@,
                old(self)@.with_run_completed(
                    id@,
                    finished_at_unix,
                    crate::keyed::views(outputs@),
                    now,
                ),
            ),
    {
        let ghost before = self@;
        let i: usize = match self.run_position(id) {
            Ok(i) => i,
            Err(e) => return Err(e),
        };
        match self.runs[i].complete_with_output_deliveries(finished_at_unix, outputs) {
            Ok(()) => {},
            Err(e) => {
                assert(self@ =~= before);
                return Err(e);
            },
        }
        assert(self@.runs =~= before.runs.update(i as int, self@.runs[i as int]));
        self.touch_at(later(finished_at_unix, now));
        Ok(())
    }

    /// Fails a run that has not ended.
    pub fn fail_run(&mut self, id: &RunId, finished_at_unix: u64) -> (r: Result<(), String>)
        ensures
            exists|now: u64|
                crate::fault::applies(
                    r,
                    old(self)@,
                    final(self)@,
                    #[trigger] old(self)@.with_run_failed(id@, finished_at_unix, now),
                ),
    {
        self.fail_run_at(id, finished_at_unix, unix_seconds_now())
    }

    /// As [`RuntimeState::fail_run`], with `now` as the current time.
    pub fn fail_run_at(&mut self, id: &RunId, finished_at_unix: u64, now: u64) -> (r: Result<
        (),
        String,
    >)
        ensures
            crate::fault::applies(
                r,
                old(self)@,
                final(self)@,
                old(self)@.with_run_failed(id@, finished_at_unix, now),
            ),
    {
        let ghost before = self@;
        let i: usize = match self.run_position(id) {
            Ok(i) => i,
            Err(e) => return Err(e),
        };
        match self.runs[i].fail(finished_at_unix) {
            Ok(()) => {},
            Err(e) => {
                assert(self@ =~= before);
                return Err(e);
            },
        }
        assert(self@.runs =~= before.runs.update(i as int, self@.runs[i as int]));
        self.touch_at(later(finished_at_unix, now));
        Ok(())
    }

    /// Cancels a run that has not ended.
    pub fn cancel_run(&mut self, id: &RunId, finished_at_unix: u64) -> (r: Result<(), String>)
        ensures
            exists|now: u64|
                crate::fault::applies(
                    r,
                    old(self)@,
                    final(self)@,
                    #[trigger] old(self)@.with_run_cancelled(id@, finished_at_unix, now),
                ),
    {
        self.cancel_run_at(id, finished_at_unix, unix_seconds_now())
    }

    /// As [`RuntimeState::cancel_run`], with `now` as the current time.
    pub fn cancel_run_at(&mut self, id: &RunId, finished_at_unix: u64, now: u64) -> (r: Result<
        (),
        String,
    >)
        ensures
            crate::fault::applies(
                r,
                old(self)@,
                final(self)@,
                old(self)@.with_run_cancelled(id@, finished_at_unix, now),
            ),
    {
        let ghost before = self@;
        let i: usize = match self.run_position(id) {
            Ok(i) => i,
            Err(e) => return Err(e),
        };
        match self.runs[i].cancel(finished_at_unix) {
            Ok(()) => {},
            Err(e) => {
                assert(self@ =~= before);
                return Err(e);
            },
        }
        assert(self@.runs =~= before.runs.update(i as int, self@.runs[i as int]));
        self.touch_at(later(finished_at_unix, now));
        Ok(())
    }
}

} // verus!

//! Agent runs: starting them on their durable input, and noting how they ended.
//! An outcome that was already noted can be repeated: the repetition confirms that
//! it is durable and changes nothing.
use vstd::prelude::*;

use super::file_store::{gives, ActionView, StateStore, StoreAction, StoreView, Transition};
use crate::clock::unix_seconds_now;
use crate::keyed::{find_record, lookup};
use crate::message::{Message, MessageAuthor, MessageView};
use crate::outbox::{delivery_created, DeliveryView, OutboundDeliveryId, OutboundDeliveryRecord};
use crate::queue::{RunInputRecord, RunInputView};
use crate::run::{same_delivery_ids, RunId, RunRecord, RunStatus, RunView};
use crate::session::SessionId;
use crate::state::completion::{delivery_ids, ids_of};
use crate::state::model::RuntimeState;
use crate::state::view::StateView;
use crate::text::{decimal_text, join2, join3, join4, join5};

verus! {

/// The id of the delivery of the output message at `index`: it names the run, with
/// its length, and the message.
pub open spec fn output_id(run_id: Seq<char>, index: int) -> Seq<char> {
    "agent-run-output:"@ + crate::text::decimal(vstd::utf8::encode_utf8(run_id).len()) + (":"@
        + run_id) + (":"@ + crate::text::decimal(index as nat))
}

/// The delivery of the output message at `index`.
pub open spec fn output_delivery(
    run_id: Seq<char>,
    session_id: Seq<char>,
    messages: Seq<MessageView>,
    index: int,
    at: u64,
) -> DeliveryView {
    delivery_created(output_id(run_id, index), session_id, messages[index], at)
}

/// Why the message at `index` cannot be output of the run, if it cannot.
pub open spec fn output_fault(
    run_id: Seq<char>,
    session_id: Seq<char>,
    messages: Seq<MessageView>,
    index: int,
    at: u64,
) -> Option<Seq<char>> {
    let message = messages[index];
    if message.author != MessageAuthor::Agent {
        Some(
            "agent run "@ + run_id + " output message "@ + message.id
                + " must be agent-authored"@,
        )
    } else if message.session_id != Some(session_id) {
        Some(
            "agent run "@ + run_id + " output message "@ + message.id + (
            " does not match session "@ + session_id),
        )
    } else {
        output_delivery(run_id, session_id, messages, index, at).flaw()
    }
}

/// The deliveries of a run's output messages, or the first message that cannot be
/// output of the run. A completed run has output.
pub open spec fn outputs(
    run_id: Seq<char>,
    session_id: Seq<char>,
    messages: Seq<MessageView>,
    at: u64,
) -> Result<Seq<DeliveryView>, Seq<char>> {
    if messages.len() == 0 {
        Err("agent run "@ + run_id + " completion must contain output messages"@)
    } else {
        match crate::fault::first_fault(
            messages.len(),
            |i: int| output_fault(run_id, session_id, messages, i, at),
        ) {
            Some(e) => Err(e),
            None => Ok(
                Seq::new(
                    messages.len(),
                    |i: int| output_delivery(run_id, session_id, messages, i, at),
                ),
            ),
        }
    }
}

/// How the persisted delivery of an output differs from the expected one.
pub open spec fn replay_delivery_fault(
    state: StateView,
    run: RunView,
    expected: DeliveryView,
) -> Option<Seq<char>> {
    match lookup(state.outbound_deliveries, expected.id) {
        None => Some(
            "agent run "@ + run.id + " completion is missing outbound delivery "@ + expected.id,
        ),
        Some(persisted) => if persisted.same_enqueue(expected) {
            None
        } else {
            Some(
                "agent run "@ + run.id + " completion output "@ + expected.id
                    + " conflicts with persisted state"@,
            )
        },
    }
}

/// How a completion differs from the one that is persisted.
pub open spec fn replay_fault(
    state: StateView,
    run: RunView,
    expected: Seq<DeliveryView>,
    at: u64,
) -> Option<Seq<char>> {
    if run.finished_at_unix != Some(at) {
        Some(
            "agent run "@ + run.id + " completion timestamp conflicts with persisted state"@,
        )
    } else if run.output_delivery_ids != delivery_ids(expected) {
        Some(
            "agent run "@ + run.id + " completion output ids conflict with persisted state"@,
        )
    } else {
        crate::fault::first_fault(
            expected.len(),
            |i: int| replay_delivery_fault(state, run, expected[i]),
        )
    }
}

/// The persisted deliveries of a run's output.
pub open spec fn persisted_outputs(state: StateView, run: RunView) -> Seq<DeliveryView> {
    Seq::new(
        run.output_delivery_ids.len(),
        |i: int| lookup(state.outbound_deliveries, run.output_delivery_ids[i])->Some_0,
    )
}

/// An outcome is noted before the last update of the run.
pub open spec fn outcome_too_early(run: RunView, action: Seq<char>) -> Seq<char> {
    "agent run "@ + run.id + (" cannot "@ + action) + " before updated_at_unix"@
}

impl StoreView {
    /// Writing a state in which the run under `id` changed.
    pub open spec fn run_changed(
        self,
        id: Seq<char>,
        outcome: Result<StateView, Seq<char>>,
    ) -> Result<(RunView, ActionView), Seq<char>> {
        match outcome {
            Err(e) => Err(e),
            Ok(next) => match self.write(next) {
                Err(e) => Err(e),
                Ok(action) => Ok((lookup(next.runs, id)->Some_0, action)),
            },
        }
    }

    /// Starting a run on its durable input.
    pub open spec fn agent_run_started(self, id: Seq<char>, at: u64, now: u64) -> Result<
        (RunInputView, ActionView),
        Seq<char>,
    > {
        match self.loaded(now) {
            Err(e) => Err(e),
            Ok(state) => match lookup(state.runs, id) {
                None => Err("unknown run id "@ + id),
                Some(run) => match lookup(state.run_inputs, id) {
                    None => Err("agent run "@ + id + " has no durable input"@),
                    Some(input) => if input.session_id != run.session_id {
                        Err(
                            "agent run "@ + id + " input does not match session "@
                                + run.session_id,
                        )
                    } else if at < run.updated_at_unix {
                        Err("agent run "@ + id + " cannot start before updated_at_unix"@)
                    } else {
                        match self.run_changed(id, state.with_run_started(id, at, now)) {
                            Err(e) => Err(e),
                            Ok((_, action)) => Ok((input, action)),
                        }
                    },
                },
            },
        }
    }

    /// Completing a run with its output.
    pub open spec fn agent_run_completed(
        self,
        id: Seq<char>,
        messages: Seq<MessageView>,
        at: u64,
        now: u64,
    ) -> Result<(Seq<DeliveryView>, ActionView), Seq<char>> {
        match self.loaded(now) {
            Err(e) => Err(e),
            Ok(state) => match lookup(state.runs, id) {
                None => Err("unknown run id "@ + id),
                Some(run) => match outputs(id, run.session_id, messages, at) {
                    Err(e) => Err(e),
                    Ok(expected) => match run.status {
                        RunStatus::Running => match state.with_output(id, expected, at, now) {
                            Err(e) => Err(e),
                            Ok(next) => match self.write(next) {
                                Err(e) => Err(e),
                                Ok(action) => Ok((expected, action)),
                            },
                        },
                        RunStatus::Completed => match replay_fault(state, run, expected, at) {
                            Some(e) => Err(e),
                            None => Ok(
                                (persisted_outputs(state, run), ActionView::ConfirmDurable),
                            ),
                        },
                        status => Err(
                            "run "@ + id + " cannot complete from "@ + status.name_text(),
                        ),
                    },
                },
            },
        }
    }

    /// Noting that a run failed.
    pub open spec fn agent_run_failed(self, id: Seq<char>, at: u64, now: u64) -> Result<
        (RunView, ActionView),
        Seq<char>,
    > {
        match self.loaded(now) {
            Err(e) => Err(e),
            Ok(state) => match lookup(state.runs, id) {
                None => Err("unknown run id "@ + id),
                Some(run) => match run.status {
                    RunStatus::Running => if at < run.updated_at_unix {
                        Err(outcome_too_early(run, "fail"@))
                    } else {
                        self.run_changed(id, state.with_run_failed(id, at, now))
                    },
                    RunStatus::Failed => if run.started_at_unix is Some && run.finished_at_unix
                        == Some(at) {
                        Ok((run, ActionView::ConfirmDurable))
                    } else {
                        Err(
                            "agent run "@ + id
                                + " failed outcome conflicts with persisted state"@,
                        )
                    },
                    status => Err("agent run "@ + id + " cannot fail from "@ + status.name_text()),
                },
            },
        }
    }

    /// Noting that a run was interrupted.
    pub open spec fn agent_run_interrupted(self, id: Seq<char>, at: u64, now: u64) -> Result<
        (RunView, ActionView),
        Seq<char>,
    > {
        match self.loaded(now) {
            Err(e) => Err(e),
            Ok(state) => match lookup(state.runs, id) {
                None => Err("unknown run id "@ + id),
                Some(run) => match run.status {
                    RunStatus::Running => if at < run.updated_at_unix {
                        Err(outcome_too_early(run, "interrupt"@))
                    } else {
                        self.run_changed(id, state.with_run_interrupted(id, at, now))
                    },
                    RunStatus::Interrupted => if run.started_at_unix is Some
                        && run.updated_at_unix == at {
                        Ok((run, ActionView::ConfirmDurable))
                    } else {
                        Err(
                            "agent run "@ + id
                                + " interrupted outcome conflicts with persisted state"@,
                        )
                    },
                    status => Err(
                        "agent run "@ + id + " cannot interrupt from "@ + status.name_text(),
                    ),
                },
            },
        }
    }
}

/// A completion comes out as `outcome` says.
pub open spec fn gives_outputs(
    r: Result<Transition<Vec<OutboundDeliveryRecord>>, String>,
    outcome: Result<(Seq<DeliveryView>, ActionView), Seq<char>>,
) -> bool {
    match r {
        Ok(transition) => outcome == Ok::<(Seq<DeliveryView>, ActionView), Seq<char>>(
            (crate::keyed::views(transition.outcome@), transition.action@),
        ),
        Err(e) => outcome == Err::<(Seq<DeliveryView>, ActionView), Seq<char>>(e@),
    }
}

/// The id of the delivery of the output message at `index`.
pub fn output_delivery_id(run_id: &RunId, index: usize) -> (r: Result<OutboundDeliveryId, String>)
    ensures
        r is Ok,
        r->Ok_0@ == output_id(run_id@, index as int),
{
    let length: usize = run_id.as_str().as_bytes().len();
    let named = join2(":", run_id.as_str());
    let numbered = join2(":", decimal_text(index as u64).as_str());
    let text = join4(
        "agent-run-output:",
        decimal_text(length as u64).as_str(),
        named.as_str(),
        numbered.as_str(),
    );
    proof {
        reveal_strlit("agent-run-output:");
        assert(text@[0] == 'a');
        assert(!crate::text::is_white_space(text@[0]));
    }
    OutboundDeliveryId::new(text.as_str())
}

fn make_output_delivery(
    run_id: &RunId,
    session_id: &SessionId,
    message: &Message,
    index: usize,
    at: u64,
) -> (r: Result<OutboundDeliveryRecord, String>)
    ensures
        forall|messages: Seq<MessageView>|
            index < messages.len() && messages[index as int] == message@ ==> match r {
                Ok(delivery) => {
                    &&& (#[trigger] output_fault(run_id@, session_id@, messages, index as int, at))
                        is None
                    &&& delivery@ == output_delivery(
                        run_id@,
                        session_id@,
                        messages,
                        index as int,
                        at,
                    )
                },
                Err(e) => output_fault(run_id@, session_id@, messages, index as int, at) == Some(
                    e@,
                ),
            },
{
    if message.author != MessageAuthor::Agent {
        return Err(
            join5(
                "agent run ",
                run_id.as_str(),
                " output message ",
                message.id.as_str(),
                " must be agent-authored",
            ),
        );
    }
    let in_session = match &message.session_id {
        Some(id) => id.same(session_id),
        None => false,
    };
    if !in_session {
        let tail = join2(" does not match session ", session_id.as_str());
        return Err(
            join5(
                "agent run ",
                run_id.as_str(),
                " output message ",
                message.id.as_str(),
                tail.as_str(),
            ),
        );
    }
    let id = match output_delivery_id(run_id, index) {
        Ok(id) => id,
        Err(e) => return Err(e),
    };
    OutboundDeliveryRecord::new(id, session_id.clone(), message.clone(), at)
}

/// The deliveries of a run's output messages.
pub fn output_deliveries(
    run_id: &RunId,
    session_id: &SessionId,
    messages: &[Message],
    finished_at_unix: u64,
) -> (r: Result<Vec<OutboundDeliveryRecord>, String>)
    ensures
        match r {
            Ok(deliveries) => outputs(
                run_id@,
                session_id@,
                crate::keyed::views(messages@),
                finished_at_unix,
            ) == Ok::<Seq<DeliveryView>, Seq<char>>(crate::keyed::views(deliveries@)),
            Err(e) => outputs(
                run_id@,
                session_id@,
                crate::keyed::views(messages@),
                finished_at_unix,
            ) == Err::<Seq<DeliveryView>, Seq<char>>(e@),
        },
{
    if messages.len() == 0 {
        return Err(
            join3("agent run ", run_id.as_str(), " completion must contain output messages"),
        );
    }
    let ghost all = crate::keyed::views(messages@);
    let ghost fault_at = |i: int|
        output_fault(run_id@, session_id@, all, i, finished_at_unix);
    let ghost expected = Seq::new(
        all.len(),
        |i: int| output_delivery(run_id@, session_id@, all, i, finished_at_unix),
    );
    let mut deliveries: Vec<OutboundDeliveryRecord> = Vec::new();
    let mut i: usize = 0;
    while i < messages.len()
        invariant
            i <= messages@.len(),
            all == crate::keyed::views(messages@),
            all.len() > 0,
            fault_at == (|i: int|
                output_fault(run_id@, session_id@, all, i, finished_at_unix)),
            expected == Seq::new(
                all.len(),
                |i: int| output_delivery(run_id@, session_id@, all, i, finished_at_unix),
            ),
            forall|j: int| 0 <= j < i ==> (#[trigger] fault_at(j)) is None,
            crate::keyed::views(deliveries@) =~= expected.take(i as int),
        decreases messages@.len() - i,
    {
        match make_output_delivery(run_id, session_id, &messages[i], i, finished_at_unix) {
            Ok(delivery) => {
                let ghost before = deliveries@;
                let ghost made = delivery@;
                deliveries.push(delivery);
                proof {
                    assert(all[i as int] == messages@[i as int]@);
                    assert(output_fault(run_id@, session_id@, all, i as int, finished_at_unix)
                        is None);
                    assert(fault_at(i as int) is None);
                    assert(made == expected[i as int]);
                    assert(crate::keyed::views(deliveries@) =~= crate::keyed::views(before).push(
                        made,
                    ));
                }
            },
            Err(e) => {
                proof {
                    assert(all[i as int] == messages@[i as int]@);
                    assert(output_fault(run_id@, session_id@, all, i as int, finished_at_unix)
                        == Some(e@));
                    assert(fault_at(i as int) == Some(e@));
                    crate::fault::lemma_first_fault(all.len(), fault_at, i as int);
                }
                return Err(e);
            },
        }
        i = i + 1;
    }
    proof {
        crate::fault::lemma_no_fault(all.len(), fault_at);
        assert(expected.take(expected.len() as int) =~= expected);
    }
    Ok(deliveries)
}

/// Checks that a completion is the one that is persisted.
pub fn verify_completion_replay(
    state: &RuntimeState,
    run: &RunRecord,
    expected: &Vec<OutboundDeliveryRecord>,
    finished_at_unix: u64,
) -> (r: Result<(), String>)
    ensures
        crate::fault::reports(
            r,
            replay_fault(state@, run@, crate::keyed::views(expected@), finished_at_unix),
        ),
{
    let same_time = match run.finished_at_unix {
        Some(t) => t == finished_at_unix,
        None => false,
    };
    if !same_time {
        return Err(
            join3(
                "agent run ",
                run.id.as_str(),
                " completion timestamp conflicts with persisted state",
            ),
        );
    }
    if !same_delivery_ids(&run.output_delivery_ids, &ids_of(expected)) {
        return Err(
            join3(
                "agent run ",
                run.id.as_str(),
                " completion output ids conflict with persisted state",
            ),
        );
    }
    let ghost all = crate::keyed::views(expected@);
    let ghost fault_at = |i: int| replay_delivery_fault(state@, run@, all[i]);
    let mut i: usize = 0;
    while i < expected.len()
        invariant
            i <= expected@.len(),
            all == crate::keyed::views(expected@),
            fault_at == (|i: int| replay_delivery_fault(state@, run@, all[i])),
            forall|j: int| 0 <= j < i ==> (#[trigger] fault_at(j)) is None,
            run@.finished_at_unix == Some(finished_at_unix),
            run@.output_delivery_ids == delivery_ids(all),
        decreases expected@.len() - i,
    {
        match check_replayed_delivery(state, run, &expected[i]) {
            Ok(()) => {
                assert(fault_at(i as int) is None);
            },
            Err(e) => {
                proof {
                    assert(fault_at(i as int) == Some(e@));
                    crate::fault::lemma_first_fault(all.len(), fault_at, i as int);
                }
                return Err(e);
            },
        }
        i = i + 1;
    }
    proof {
        crate::fault::lemma_no_fault(all.len(), fault_at);
    }
    Ok(())
}

fn check_replayed_delivery(
    state: &RuntimeState,
    run: &RunRecord,
    expected: &OutboundDeliveryRecord,
) -> (r: Result<(), String>)
    ensures
        crate::fault::reports(r, replay_delivery_fault(state@, run@, expected@)),
{
    let persisted = match state.outbound_delivery(&expected.id) {
        Some(persisted) => persisted,
        None => {
            return Err(
                join4(
                    "agent run ",
                    run.id.as_str(),
                    " completion is missing outbound delivery ",
                    expected.id.as_str(),
                ),
            );
        },
    };
    if !persisted.has_same_enqueue_identity(expected) {
        return Err(
            join5(
                "agent run ",
                run.id.as_str(),
                " completion output ",
                expected.id.as_str(),
                " conflicts with persisted state",
            ),
        );
    }
    Ok(())
}

/// A verified replay has every output delivery of the run.
proof fn lemma_replay_has_outputs(
    state: StateView,
    run: RunView,
    expected: Seq<DeliveryView>,
    at: u64,
)
    requires
        replay_fault(state, run, expected, at) is None,
    ensures
        forall|i: int|
            0 <= i < run.output_delivery_ids.len() ==> lookup(
                state.outbound_deliveries,
                #[trigger] run.output_delivery_ids[i],
            ) is Some,
{
    let fault_at = |i: int| replay_delivery_fault(state, run, expected[i]);
    crate::fault::lemma_no_fault(expected.len(), fault_at);
    assert forall|i: int| 0 <= i < run.output_delivery_ids.len() implies lookup(
        state.outbound_deliveries,
        #[trigger] run.output_delivery_ids[i],
    ) is Some by {
        assert(fault_at(i) is None);
    }
}

/// The persisted deliveries of a run's output.
fn collect_outputs(state: &RuntimeState, run: &RunRecord) -> (r: Vec<OutboundDeliveryRecord>)
    requires
        forall|i: int|
            0 <= i < run@.output_delivery_ids.len() ==> lookup(
                state@.outbound_deliveries,
                #[trigger] run@.output_delivery_ids[i],
            ) is Some,
    ensures
        crate::keyed::views(r@) == persisted_outputs(state@, run@),
{
    let ghost all = persisted_outputs(state@, run@);
    let mut deliveries: Vec<OutboundDeliveryRecord> = Vec::new();
    let mut i: usize = 0;
    while i < run.output_delivery_ids.len()
        invariant
            i <= run.output_delivery_ids@.len(),
            all == persisted_outputs(state@, run@),
            forall|i: int|
                0 <= i < run@.output_delivery_ids.len() ==> lookup(
                    state@.outbound_deliveries,
                    #[trigger] run@.output_delivery_ids[i],
                ) is Some,
            crate::keyed::views(deliveries@) =~= all.take(i as int),
        decreases run.output_delivery_ids@.len() - i,
    {
        assert(run@.output_delivery_ids[i as int] == run.output_delivery_ids@[i as int]@);
        if let Some(k) = find_record(
            &state.outbound_deliveries,
            &run.output_delivery_ids[i].text,
        ) {
            let ghost before = deliveries@;
            deliveries.push(state.outbound_deliveries[k].clone());
            assert(crate::keyed::views(deliveries@) =~= crate::keyed::views(before).push(
                all[i as int],
            ));
        }
        i = i + 1;
    }
    assert(all.take(all.len() as int) =~= all);
    deliveries
}

/// Checks that an outcome is not noted before the last update of the run.
fn require_nondecreasing_outcome_time(run: &RunRecord, outcome_at_unix: u64, action: &str) -> (r:
    Result<(), String>)
    ensures
        crate::fault::reports(
            r,
            if outcome_at_unix < run@.updated_at_unix {
                Some(outcome_too_early(run@, action@))
            } else {
                None
            },
        ),
{
    if outcome_at_unix < run.updated_at_unix {
        let attempted = join2(" cannot ", action);
        return Err(
            join4(
                "agent run ",
                run.id.as_str(),
                attempted.as_str(),
                " before updated_at_unix",
            ),
        );
    }
    Ok(())
}

impl StateStore {
    /// Decides on writing a state in which the run under `id`, which is there,
    /// changed.
    fn write_changed_run(&self, state: RuntimeState, id: &RunId) -> (r: Result<
        Transition<RunRecord>,
        String,
    >)
        requires
            lookup(state@.runs, id@) is Some,
        ensures
            gives(r, self@.run_changed(id@, Ok(state@))),
    {
        let run = match state.run(id) {
            Some(run) => run.clone(),
            None => return Err(join2("unknown run id ", id.as_str())),
        };
        match self.write_unlocked(state) {
            Ok(action) => Ok(Transition { outcome: run, action }),
            Err(e) => Err(e),
        }
    }

    /// Decides on starting a run on its durable input, which is handed out once
    /// the transition is settled.
    pub fn start_agent_run(&self, id: &RunId, started_at_unix: u64) -> (r: Result<
        Transition<RunInputRecord>,
        String,
    >)
        ensures
            exists|now: u64| gives(r, #[trigger] self@.agent_run_started(id@, started_at_unix, now)),
    {
        self.start_agent_run_at(id, started_at_unix, unix_seconds_now())
    }

    /// As [`StateStore::start_agent_run`], with `now` as the current time.
    pub fn start_agent_run_at(&self, id: &RunId, started_at_unix: u64, now: u64) -> (r: Result<
        Transition<RunInputRecord>,
        String,
    >)
        ensures
            gives(r, self@.agent_run_started(id@, started_at_unix, now)),
    {
        let mut state = match self.load_at(now) {
            Ok(state) => state,
            Err(e) => return Err(e),
        };
        let run = match state.run(id) {
            Some(run) => run.clone(),
            None => return Err(join2("unknown run id ", id.as_str())),
        };
        let input = match state.run_input(id) {
            Some(input) => input.clone(),
            None => return Err(join3("agent run ", id.as_str(), " has no durable input")),
        };
        if !input.session_id.same(&run.session_id) {
            return Err(
                join4(
                    "agent run ",
                    id.as_str(),
                    " input does not match session ",
                    run.session_id.as_str(),
                ),
            );
        }
        if started_at_unix < run.updated_at_unix {
            return Err(
                join3("agent run ", id.as_str(), " cannot start before updated_at_unix"),
            );
        }
        match state.start_run_at(id, started_at_unix, now) {
            Ok(()) => {},
            Err(e) => return Err(e),
        }
        match self.write_unlocked(state) {
            Ok(action) => Ok(Transition { outcome: input, action }),
            Err(e) => Err(e),
        }
    }

    /// Decides on completing a run with its output messages, which become
    /// deliveries in the same step.
    pub fn complete_agent_run(
        &self,
        id: &RunId,
        messages: &[Message],
        finished_at_unix: u64,
    ) -> (r: Result<Transition<Vec<OutboundDeliveryRecord>>, String>)
        ensures
            exists|now: u64|
                gives_outputs(
                    r,
                    #[trigger] self@.agent_run_completed(
                        id@,
                        crate::keyed::views(messages@),
                        finished_at_unix,
                        now,
                    ),
                ),
    {
        self.complete_agent_run_at(id, messages, finished_at_unix, unix_seconds_now())
    }

    /// As [`StateStore::complete_agent_run`], with `now` as the current time.
    pub fn complete_agent_run_at(
        &self,
        id: &RunId,
        messages: &[Message],
        finished_at_unix: u64,
        now: u64,
    ) -> (r: Result<Transition<Vec<OutboundDeliveryRecord>>, String>)
        ensures
            gives_outputs(
                r,
                self@.agent_run_completed(
                    id@,
                    crate::keyed::views(messages@),
                    finished_at_unix,
                    now,
                ),
            ),
    {
        let mut state = match self.load_at(now) {
            Ok(state) => state,
            Err(e) => return Err(e),
        };
        let run = match state.run(id) {
            Some(run) => run.clone(),
            None => return Err(join2("unknown run id ", id.as_str())),
        };
        let expected = match output_deliveries(id, &run.session_id, messages, finished_at_unix) {
            Ok(expected) => expected,
            Err(e) => return Err(e),
        };
        match run.status {
            RunStatus::Running => {
                match state.complete_run_with_output_deliveries_at(
                    id,
                    &expected,
                    finished_at_unix,
                    now,
                ) {
                    Ok(()) => {},
                    Err(e) => return Err(e),
                }
                match self.write_unlocked(state) {
                    Ok(action) => Ok(Transition { outcome: expected, action }),
                    Err(e) => Err(e),
                }
            },
            RunStatus::Completed => {
                match verify_completion_replay(&state, &run, &expected, finished_at_unix) {
                    Ok(()) => {},
                    Err(e) => return Err(e),
                }
                proof {
                    lemma_replay_has_outputs(
                        state@,
                        run@,
                        crate::keyed::views(expected@),
                        finished_at_unix,
                    );
                }
                let outcome = collect_outputs(&state, &run);
                Ok(Transition { outcome, action: StoreAction::ConfirmDurable })
            },
            status => Err(
                join4("run ", id.as_str(), " cannot complete from ", status.name()),
            ),
        }
    }

    /// Decides on noting that a run failed.
    pub fn fail_agent_run(&self, id: &RunId, failed_at_unix: u64) -> (r: Result<
        Transition<RunRecord>,
        String,
    >)
        ensures
            exists|now: u64| gives(r, #[trigger] self@.agent_run_failed(id@, failed_at_unix, now)),
    {
        self.fail_agent_run_at(id, failed_at_unix, unix_seconds_now())
    }

    /// As [`StateStore::fail_agent_run`], with `now` as the current time.
    pub fn fail_agent_run_at(&self, id: &RunId, failed_at_unix: u64, now: u64) -> (r: Result<
        Transition<RunRecord>,
        String,
    >)
        ensures
            gives(r, self@.agent_run_failed(id@, failed_at_unix, now)),
    {
        let mut state = match self.load_at(now) {
            Ok(state) => state,
            Err(e) => return Err(e),
        };
        let ghost loaded = state@;
        let run = match state.run(id) {
            Some(run) => run.clone(),
            None => return Err(join2("unknown run id ", id.as_str())),
        };
        match run.status {
            RunStatus::Running => {
                match require_nondecreasing_outcome_time(&run, failed_at_unix, "fail") {
                    Ok(()) => {},
                    Err(e) => return Err(e),
                }
                match state.fail_run_at(id, failed_at_unix, now) {
                    Ok(()) => {},
                    Err(e) => return Err(e),
                }
                proof {
                    lemma_changed_run(
                        loaded,
                        id@,
                        |run: RunView| run.failed(failed_at_unix),
                        failed_at_unix,
                        now,
                    );
                }
                self.write_changed_run(state, id)
            },
            RunStatus::Failed => {
                let same_time = match run.finished_at_unix {
                    Some(t) => t == failed_at_unix,
                    None => false,
                };
                if run.started_at_unix.is_some() && same_time {
                    Ok(Transition { outcome: run, action: StoreAction::ConfirmDurable })
                } else {
                    Err(
                        join3(
                            "agent run ",
                            id.as_str(),
                            " failed outcome conflicts with persisted state",
                        ),
                    )
                }
            },
            status => Err(join4("agent run ", id.as_str(), " cannot fail from ", status.name())),
        }
    }

    /// Decides on noting that a run was interrupted.
    pub fn interrupt_agent_run(&self, id: &RunId, interrupted_at_unix: u64) -> (r: Result<
        Transition<RunRecord>,
        String,
    >)
        ensures
            exists|now: u64|
                gives(r, #[trigger] self@.agent_run_interrupted(id@, interrupted_at_unix, now)),
    {
        self.interrupt_agent_run_at(id, interrupted_at_unix, unix_seconds_now())
    }

    /// As [`StateStore::interrupt_agent_run`], with `now` as the current time.
    pub fn interrupt_agent_run_at(&self, id: &RunId, interrupted_at_unix: u64, now: u64) -> (r:
        Result<Transition<RunRecord>, String>)
        ensures
            gives(r, self@.agent_run_interrupted(id@, interrupted_at_unix, now)),
    {
        let mut state = match self.load_at(now) {
            Ok(state) => state,
            Err(e) => return Err(e),
        };
        let ghost loaded = state@;
        let run = match state.run(id) {
            Some(run) => run.clone(),
            None => return Err(join2("unknown run id ", id.as_str())),
        };
        match run.status {
            RunStatus::Running => {
                match require_nondecreasing_outcome_time(&run, interrupted_at_unix, "interrupt") {
                    Ok(()) => {},
                    Err(e) => return Err(e),
                }
                match state.interrupt_run_at(id, interrupted_at_unix, now) {
                    Ok(()) => {},
                    Err(e) => return Err(e),
                }
                proof {
                    lemma_changed_run(
                        loaded,
                        id@,
                        |run: RunView| run.interrupted(interrupted_at_unix),
                        interrupted_at_unix,
                        now,
                    );
                }
                self.write_changed_run(state, id)
            },
            RunStatus::Interrupted => {
                if run.started_at_unix.is_some() && run.updated_at_unix == interrupted_at_unix {
                    Ok(Transition { outcome: run, action: StoreAction::ConfirmDurable })
                } else {
                    Err(
                        join3(
                            "agent run ",
                            id.as_str(),
                            " interrupted outcome conflicts with persisted state",
                        ),
                    )
                }
            },
            status => Err(
                join4("agent run ", id.as_str(), " cannot interrupt from ", status.name()),
            ),
        }
    }
}

/// A run that was changed is found, as changed, under its id.
proof fn lemma_changed_run(
    state: StateView,
    id: Seq<char>,
    change: spec_fn(RunView) -> Result<RunView, Seq<char>>,
    at: u64,
    now: u64,
)
    requires
        forall|run: RunView| (#[trigger] change(run)) matches Ok(next) ==> next.id == run.id,
    ensures
        state.with_run_changed(id, change, at, now) matches Ok(next) ==> {
            &&& lookup(state.runs, id) is Some
            &&& change(lookup(state.runs, id)->Some_0) is Ok
            &&& lookup(next.runs, id) == Some(change(lookup(state.runs, id)->Some_0)->Ok_0)
        },
{
    broadcast use crate::keyed::lemma_find_key;

    if let Some(i) = crate::keyed::find_key(state.runs, id) {
        if let Ok(run) = change(state.runs[i]) {
            crate::keyed::lemma_find_key_update(state.runs, i, run, id);
        }
    }
}

/// Different runs, and different output messages of a run, have different delivery
/// ids.
pub proof fn law_output_ids_are_distinct(a_run: Seq<char>, a: nat, b_run: Seq<char>, b: nat)
    requires
        output_id(a_run, a as int) == output_id(b_run, b as int),
    ensures
        a_run == b_run,
        a == b,
{
    reveal_strlit(":");
    assert(":"@ =~= seq![':']);
    let head = "agent-run-output:"@;
    let a_size = crate::text::decimal(vstd::utf8::encode_utf8(a_run).len());
    let b_size = crate::text::decimal(vstd::utf8::encode_utf8(b_run).len());
    let a_index = crate::text::decimal(a);
    let b_index = crate::text::decimal(b);
    crate::text::lemma_numeral_digits(vstd::utf8::encode_utf8(a_run).len(), 10);
    crate::text::lemma_numeral_digits(vstd::utf8::encode_utf8(b_run).len(), 10);
    crate::text::lemma_numeral_digits(a, 10);
    crate::text::lemma_numeral_digits(b, 10);
    assert forall|i: int| 0 <= i < a_size.len() implies #[trigger] a_size[i] != ':' by {
        assert(crate::text::is_digit(a_size[i]));
    }
    assert forall|i: int| 0 <= i < b_size.len() implies #[trigger] b_size[i] != ':' by {
        assert(crate::text::is_digit(b_size[i]));
    }
    assert forall|i: int| 0 <= i < a_index.len() implies #[trigger] a_index[i] != ':' by {
        assert(crate::text::is_digit(a_index[i]));
    }
    assert forall|i: int| 0 <= i < b_index.len() implies #[trigger] b_index[i] != ':' by {
        assert(crate::text::is_digit(b_index[i]));
    }
    let a_front = head + a_size + (":"@ + a_run);
    let b_front = head + b_size + (":"@ + b_run);
    crate::text::lemma_split_last(':', a_front, a_index, b_front, b_index);
    let a_middle = a_size + (seq![':'] + a_run);
    let b_middle = b_size + (seq![':'] + b_run);
    assert(a_front =~= head + a_middle);
    assert(b_front =~= head + b_middle);
    assert(a_middle =~= b_middle) by {
        assert(a_middle =~= a_front.skip(head.len() as int));
        assert(b_middle =~= b_front.skip(head.len() as int));
    }
    crate::text::lemma_split_first(':', a_size, a_run, b_size, b_run);
    crate::text::lemma_numeral_injective(a, b, 10);
}

} // verus!

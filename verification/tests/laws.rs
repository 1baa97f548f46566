use ferris_agent_bridge::event::{
    Event, EventId, EventKind, EventSource, InboundEventRecordStatus,
};
use ferris_agent_bridge::format::current::{RuntimeStateFileWire, RUNTIME_STATE_FILE_VERSION};
use ferris_agent_bridge::format::wire::WireField;
use ferris_agent_bridge::message::{Message, MessageAuthor, MessageContent, MessageId};
use ferris_agent_bridge::outbox::{
    OutboundDeliveryEnqueueStatus, OutboundDeliveryId, OutboundDeliveryRecord,
    OutboundDeliveryStatus,
};
use ferris_agent_bridge::queue::{MessageBatchClaimOutcome, MessageQueuePolicy};
use ferris_agent_bridge::run::{RunId, RunRecord, RunStatus};
use ferris_agent_bridge::session::{Session, SessionId, SessionScope};
use ferris_agent_bridge::state::RuntimeState;
use ferris_agent_bridge::store::run::output_delivery_id;
use ferris_agent_bridge::store::{DiskReport, StateFileContent, StateStore, StoreAction};

fn scope(name: &str) -> SessionScope {
    SessionScope::new("lark", name).expect("valid scope")
}

fn run_id(id: &str) -> RunId {
    RunId::new(id).expect("valid run id")
}

fn message_event(id: &str, session_id: &SessionId, received_at_unix: u64) -> Event {
    Event::new(
        EventId::new(id).expect("valid event id"),
        EventSource::Platform,
        EventKind::MessageReceived {
            message: Message::user_text("msg_1", Some(session_id.clone()), "hello", 1)
                .expect("valid message"),
        },
        received_at_unix,
    )
}

fn agent_message(id: &str, session_id: &SessionId, created_at_unix: u64) -> Message {
    Message::new(
        MessageId::new(id).expect("valid message id"),
        Some(session_id.clone()),
        MessageAuthor::Agent,
        MessageContent::text("reply").expect("valid text"),
        created_at_unix,
    )
}

fn delivery(id: &str, session_id: &SessionId, created_at_unix: u64) -> OutboundDeliveryRecord {
    OutboundDeliveryRecord::new(
        OutboundDeliveryId::new(id).expect("valid delivery id"),
        session_id.clone(),
        agent_message("msg_1", session_id, created_at_unix),
        created_at_unix,
    )
    .expect("valid delivery")
}

/// A state with one session, last updated at 5.
fn session_state() -> (RuntimeState, SessionId) {
    let mut state = RuntimeState::new_at(5);
    let session = Session::new_at(scope("chat:a"), 5);
    let session_id = session.id().clone();
    state.upsert_session_at(session, 5);
    (state, session_id)
}

/// A store whose file holds `state`.
fn store_holding(state: &RuntimeState) -> StateStore {
    let mut store = StateStore::new("runtime.state.json");
    store.refresh(StateFileContent::Decoded(RuntimeStateFileWire::of_state(
        state.clone(),
    )));
    store
}

#[test]
fn recording_is_idempotent_whenever_it_is_repeated() {
    let (mut state, session_id) = session_state();
    let event = message_event("evt_1", &session_id, 10);
    assert_eq!(
        state.record_inbound_event_at(&event, 12),
        Ok(InboundEventRecordStatus::Recorded)
    );
    assert_eq!(state.updated_at_unix(), 12);
    assert_eq!(state.queued_messages()[0].enqueued_at_unix(), 12);
    let recorded = state.clone();
    for again in [0, 12, 99] {
        assert_eq!(
            state.record_inbound_event_at(&event, again),
            Ok(InboundEventRecordStatus::Duplicate)
        );
        assert_eq!(state, recorded);
    }
    assert_eq!(state.validate(), Ok(()));
}

#[test]
fn unbound_messages_are_recorded_and_cannot_stand_for_queued_ones() {
    let (mut state, session_id) = session_state();
    let mut unbound = message_event("evt_1", &session_id, 10);
    unbound.kind = EventKind::MessageReceived {
        message: Message::user_text("msg_1", None, "hello", 1).expect("valid message"),
    };
    assert_eq!(
        state.record_inbound_event_at(&unbound, 12),
        Ok(InboundEventRecordStatus::Recorded)
    );
    assert!(state.queued_messages().is_empty());
    assert_eq!(
        state.record_inbound_event_at(&message_event("evt_1", &session_id, 10), 12),
        Err("duplicate inbound message event evt_1 has no queued message record".to_owned())
    );
    state
        .record_inbound_event_at(&message_event("evt_2", &session_id, 10), 12)
        .expect("bound message should record");
    unbound.id = EventId::new("evt_2").expect("valid event id");
    assert_eq!(
        state.record_inbound_event_at(&unbound, 12),
        Err("inbound message event evt_2 must reference a session before persistence".to_owned())
    );
}

#[test]
fn messages_are_queued_behind_all_earlier_ones_of_their_session() {
    let (mut state, session_id) = session_state();
    state
        .record_inbound_event_at(&message_event("evt_1", &session_id, 50), 12)
        .expect("message should record");
    let policy = MessageQueuePolicy::new(0, 5).expect("valid policy");
    state
        .claim_message_batch_at(run_id("run_1"), &policy, 50, 1)
        .expect("message should be claimed");
    state
        .record_inbound_event_at(&message_event("evt_2", &session_id, 13), 14)
        .expect("message should record");
    assert_eq!(state.queued_messages()[0].enqueued_at_unix(), 50);
    assert_eq!(state.inbound_events()[1].recorded_at_unix(), 14);
    assert_eq!(state.validate(), Ok(()));
}

#[test]
fn claiming_takes_the_first_due_messages_and_loses_none() {
    let (mut state, session_id) = session_state();
    for (id, at) in [("evt_1", 10), ("evt_2", 11), ("evt_3", 30)] {
        state
            .record_inbound_event_at(&message_event(id, &session_id, at), at)
            .expect("message should record");
    }
    let queued = state.queued_messages().to_vec();
    let policy = MessageQueuePolicy::new(4, 5).expect("valid policy");
    let before = state.clone();
    assert_eq!(
        state.claim_message_batch_at(run_id("run_1"), &policy, 13, 13),
        Ok(MessageBatchClaimOutcome::Waiting {
            next_ready_at_unix: Some(14)
        })
    );
    assert_eq!(state, before);
    let Ok(MessageBatchClaimOutcome::Claimed { run, input }) =
        state.claim_message_batch_at(run_id("run_1"), &policy, 20, 7)
    else {
        panic!("two messages are due");
    };
    assert_eq!(run, RunRecord::new(run_id("run_1"), session_id, 20));
    assert_eq!(input.messages(), &queued[..2]);
    assert_eq!(input.claimed_at_unix(), 20);
    assert_eq!(state.queued_messages(), &queued[2..]);
    assert_eq!(state.run_input(&run_id("run_1")), Some(&input));
    assert_eq!(state.updated_at_unix(), 30);
    assert_eq!(
        state.claim_message_batch_at(run_id("run_2"), &policy, 99, 99),
        Ok(MessageBatchClaimOutcome::Waiting {
            next_ready_at_unix: None
        })
    );
    assert_eq!(state.validate(), Ok(()));
}

#[test]
fn queueing_deliveries_is_idempotent() {
    let (mut state, session_id) = session_state();
    let record = delivery("out_1", &session_id, 10);
    assert_eq!(
        state.enqueue_outbound_delivery_at(record.clone(), 12),
        Ok(OutboundDeliveryEnqueueStatus::Queued)
    );
    assert_eq!(state.updated_at_unix(), 12);
    let queued = state.clone();
    assert_eq!(
        state.enqueue_outbound_delivery_at(record, 99),
        Ok(OutboundDeliveryEnqueueStatus::Duplicate)
    );
    assert_eq!(state, queued);
}

#[test]
fn attempts_skip_delivered_and_uncertain_deliveries() {
    let (mut state, session_id) = session_state();
    for id in ["out_1", "out_2", "out_3"] {
        state
            .enqueue_outbound_delivery_at(delivery(id, &session_id, 10), 10)
            .expect("delivery should be queued");
    }
    let ids: Vec<OutboundDeliveryId> = state
        .outbound_deliveries()
        .iter()
        .map(|record| record.id().clone())
        .collect();
    state
        .claim_next_outbound_delivery_at(11, 11)
        .expect("first delivery is tried");
    state
        .mark_outbound_delivery_delivered_at(&ids[0], 12, 12)
        .expect("first delivery is accepted");
    state
        .claim_next_outbound_delivery_at(13, 13)
        .expect("second delivery is tried");
    state
        .mark_outbound_delivery_uncertain_at(&ids[1], 14, "timeout", 14)
        .expect("second delivery is uncertain");
    let tried = state
        .claim_next_outbound_delivery_where(15, |record| record.id().as_str() != "out_9")
        .expect("third delivery can be tried")
        .expect("third delivery is tried");
    assert_eq!(tried.id(), &ids[2]);
    assert_eq!(
        state.claim_next_outbound_delivery_at(16, 16),
        Ok(None),
        "nothing is left to try"
    );
    state
        .mark_outbound_delivery_failed_at(&ids[2], 17, "refused", 17)
        .expect("third delivery fails");
    assert_eq!(
        state.claim_next_outbound_delivery_where(18, |record| record.id().as_str() != "out_3"),
        Ok(None)
    );
    let again = state
        .claim_next_outbound_delivery_at(18, 18)
        .expect("failed delivery can be tried again")
        .expect("failed delivery is tried again");
    assert_eq!(again.delivery_attempts(), 2);
    assert_eq!(state.validate(), Ok(()));
}

#[test]
fn recovery_is_idempotent() {
    let (mut state, session_id) = session_state();
    for id in ["out_1", "out_2"] {
        state
            .enqueue_outbound_delivery_at(delivery(id, &session_id, 10), 10)
            .expect("delivery should be queued");
    }
    state
        .claim_next_outbound_delivery_at(30, 30)
        .expect("first delivery is tried");
    state
        .add_run_at(RunRecord::new(run_id("run_1"), session_id, 10), 10)
        .expect("run should be added");

    let (report, changed) = state
        .reconcile_outbound_deliveries_at_startup(20)
        .expect("recovery succeeds");
    assert!(changed);
    assert_eq!(state.outbound_deliveries()[0].updated_at_unix(), 30);
    assert_eq!(
        state.outbound_deliveries()[0].status(),
        OutboundDeliveryStatus::Uncertain
    );
    let recovered = state.clone();
    assert_eq!(
        state.reconcile_outbound_deliveries_at_startup(99),
        Ok((report, false))
    );
    assert_eq!(state, recovered);

    let (report, changed) = state.reconcile_runs_at_startup(40).expect("recovery succeeds");
    assert!(changed);
    assert_eq!(report.interrupted_run_ids(), &[run_id("run_1")]);
    assert_eq!(state.updated_at_unix(), 40);
    assert_eq!(state.runs()[0].status(), RunStatus::Interrupted);
    let recovered = state.clone();
    assert_eq!(state.reconcile_runs_at_startup(99), Ok((report, false)));
    assert_eq!(state, recovered);
    assert_eq!(state.validate(), Ok(()));
}

#[test]
fn what_is_written_is_what_is_loaded() {
    let (mut state, session_id) = session_state();
    state
        .record_inbound_event_at(&message_event("evt_1", &session_id, 10), 12)
        .expect("event should record");
    let mut store = StateStore::new("runtime.state.json");
    let saved = store.save(&state).expect("state should save");
    assert_eq!(saved.action, StoreAction::Write(state.clone()));
    assert_eq!(store.load_at(3), Ok(RuntimeState::new_at(3)));
    store.settle(saved, DiskReport::Done).expect("state is saved");
    assert_eq!(store.load_at(99), Ok(state.clone()));
    let again = store.save(&state).expect("loaded state should save");
    assert_eq!(again.action, StoreAction::Write(state));
}

#[test]
fn failures_name_the_file_and_give_no_outcome() {
    let (state, _) = session_state();
    let mut store = StateStore::new("dir/runtime.state.json");
    let saved = store.save(&state).expect("state should save");
    assert_eq!(
        store.settle(saved, DiskReport::NotReplaced("disk full".to_owned())),
        Err("failed to save runtime state dir/runtime.state.json: disk full".to_owned())
    );
    assert_eq!(store, StateStore::new("dir/runtime.state.json"));
    let saved = store.save(&state).expect("state should save");
    assert_eq!(
        store.settle(saved, DiskReport::Replaced("no sync".to_owned())),
        Err("failed to save runtime state dir/runtime.state.json: no sync".to_owned())
    );
    assert_eq!(store.load_at(1), Ok(state));
    let report = store
        .reconcile_outbound_deliveries_at_startup(9)
        .expect("nothing is under way");
    assert_eq!(report.action, StoreAction::ConfirmDurable);
    assert_eq!(
        store.settle(report, DiskReport::NotReplaced("no sync".to_owned())),
        Err(
            "failed to confirm runtime state dir/runtime.state.json durability: no sync".to_owned()
        )
    );
    store.refresh(StateFileContent::Malformed("expected value".to_owned()));
    assert_eq!(
        store.load_at(1),
        Err("failed to parse dir/runtime.state.json: expected value".to_owned())
    );
    assert_eq!(
        store.save(&RuntimeState::new_at(1)).err(),
        Some("failed to parse dir/runtime.state.json: expected value".to_owned())
    );
    store.refresh(StateFileContent::Unreadable("denied".to_owned()));
    assert_eq!(
        store.load_at(1),
        Err("failed to read runtime state dir/runtime.state.json: denied".to_owned())
    );
}

#[test]
fn old_files_are_brought_up_to_the_time_of_their_records() {
    let session = Session::new_at(scope("chat:a"), 30);
    let run = RunRecord::new(run_id("run_1"), session.id().clone(), 50);
    let file = |version: u32| RuntimeStateFileWire {
        version,
        sessions: vec![session.clone()],
        runs: WireField::Value(vec![run.clone()]),
        run_inputs: WireField::Missing,
        inbound_events: if version < 3 {
            WireField::Missing
        } else {
            WireField::Value(Vec::new())
        },
        queued_messages: WireField::Missing,
        outbound_deliveries: WireField::Missing,
        updated_at_unix: 40,
    };
    assert_eq!(
        file(2).into_state().expect("old file is read").updated_at_unix(),
        50
    );
    assert_eq!(
        file(3).into_state(),
        Err("runtime state updated_at_unix before run run_1 updated_at_unix".to_owned())
    );
    assert_eq!(RUNTIME_STATE_FILE_VERSION, 8);
}

#[test]
fn output_deliveries_are_named_after_run_and_position() {
    let id = |run: &str, index: usize| {
        output_delivery_id(&run_id(run), index)
            .expect("output ids are valid")
            .as_str()
            .to_owned()
    };
    assert_eq!(id("run_1", 0), "agent-run-output:5:run_1:0");
    assert_eq!(id("l\u{e4}uf", 12), "agent-run-output:5:l\u{e4}uf:12");
    assert_ne!(id("a", 11), id("a:1", 1));
    assert_ne!(id("a:1", 1), id("a:1", 11));
}

#[test]
fn completions_and_outcomes_can_be_repeated() {
    let (mut state, session_id) = session_state();
    state
        .record_inbound_event_at(&message_event("evt_1", &session_id, 10), 10)
        .expect("event should record");
    let mut store = store_holding(&state);
    let policy = MessageQueuePolicy::new(0, 1).expect("valid policy");
    let claimed = store
        .claim_message_batch_at(run_id("run_1"), &policy, 20, 20)
        .expect("message should be claimed");
    store.settle(claimed, DiskReport::Done).expect("claim is written");
    let started = store
        .start_agent_run_at(&run_id("run_1"), 21, 21)
        .expect("run should start");
    assert!(matches!(started.action, StoreAction::Write(_)));
    store.settle(started, DiskReport::Done).expect("start is written");
    assert_eq!(
        store.start_agent_run_at(&run_id("run_1"), 20, 22).err(),
        Some("agent run run_1 cannot start before updated_at_unix".to_owned())
    );
    assert_eq!(
        store.start_agent_run_at(&run_id("run_1"), 22, 22).err(),
        Some("run run_1 cannot start from Running".to_owned())
    );
    assert_eq!(
        store.fail_agent_run_at(&run_id("run_1"), 20, 22).err(),
        Some("agent run run_1 cannot fail before updated_at_unix".to_owned())
    );
    assert_eq!(
        store.interrupt_agent_run_at(&run_id("run_1"), 20, 22).err(),
        Some("agent run run_1 cannot interrupt before updated_at_unix".to_owned())
    );
    let output = [
        agent_message("reply_1", &session_id, 22),
        agent_message("reply_2", &session_id, 22),
    ];
    let completed = store
        .complete_agent_run_at(&run_id("run_1"), &output, 23, 23)
        .expect("run should complete");
    let deliveries = completed.outcome.clone();
    assert_eq!(deliveries[1].id().as_str(), "agent-run-output:5:run_1:1");
    store
        .settle(completed, DiskReport::Done)
        .expect("completion is written");
    let repeated = store
        .complete_agent_run_at(&run_id("run_1"), &output, 23, 99)
        .expect("completion can be repeated");
    assert_eq!(repeated.action, StoreAction::ConfirmDurable);
    assert_eq!(repeated.outcome, deliveries);
    assert_eq!(
        store
            .complete_agent_run_at(&run_id("run_1"), &output, 24, 99)
            .err(),
        Some("agent run run_1 completion timestamp conflicts with persisted state".to_owned())
    );
    assert_eq!(
        store
            .complete_agent_run_at(&run_id("run_1"), &output[..1], 23, 99)
            .err(),
        Some("agent run run_1 completion output ids conflict with persisted state".to_owned())
    );
    let changed = [output[0].clone(), agent_message("reply_3", &session_id, 22)];
    assert_eq!(
        store
            .complete_agent_run_at(&run_id("run_1"), &changed, 23, 99)
            .err(),
        Some(
            "agent run run_1 completion output agent-run-output:5:run_1:1 conflicts with persisted \
             state"
                .to_owned()
        )
    );
    assert_eq!(
        store.complete_agent_run_at(&run_id("run_1"), &[], 23, 99).err(),
        Some("agent run run_1 completion must contain output messages".to_owned())
    );
    assert_eq!(
        store.fail_agent_run_at(&run_id("run_1"), 24, 99).err(),
        Some("agent run run_1 cannot fail from Completed".to_owned())
    );
    assert_eq!(
        store.complete_agent_run_at(&run_id("run_9"), &output, 24, 99).err(),
        Some("unknown run id run_9".to_owned())
    );
}

#[test]
fn merges_refuse_contradictions() {
    let (mut stored, session_id) = session_state();
    stored
        .record_inbound_event_at(&message_event("evt_1", &session_id, 10), 10)
        .expect("event should record");
    let snapshot = stored.clone();
    let policy = MessageQueuePolicy::new(0, 1).expect("valid policy");
    stored
        .claim_message_batch_at(run_id("run_1"), &policy, 20, 20)
        .expect("message should be claimed");
    let store = store_holding(&stored);

    let merged = store.save(&snapshot).expect("older snapshot should merge");
    assert_eq!(merged.action, StoreAction::Write(stored.clone()));

    let mut later = snapshot.clone();
    later.inbound_events[0].recorded_at_unix = 11;
    later.queued_messages[0].enqueued_at_unix = 11;
    assert_eq!(
        store.save(&later).err(),
        Some("conflicting inbound event record evt_1".to_owned())
    );
    let mut input_changed = stored.clone();
    input_changed.run_inputs[0].claimed_at_unix = 21;
    assert_eq!(
        store.save(&input_changed).err(),
        Some("conflicting run input record run_1".to_owned())
    );
    let mut foreign_input = stored.clone();
    foreign_input.run_inputs[0].run_id = run_id("run_9");
    assert_eq!(
        store.save(&foreign_input).err(),
        Some(
            "runtime state save cannot introduce run input run_9; message batches must be claimed \
             through StateStore::claim_message_batch"
                .to_owned()
        )
    );
    let mut handed_off = stored.clone();
    handed_off
        .start_run_at(&run_id("run_1"), 21, 21)
        .expect("run should start");
    assert_eq!(
        store.save(&handed_off).err(),
        Some(
            "runtime state save cannot create a handoff or completion for durable agent run run_1; \
             use the StateStore agent-run transition"
                .to_owned()
        )
    );
}

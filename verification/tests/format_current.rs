use ferris_agent_bridge::event::{Event, EventId, EventKind, EventSource, InboundEventRecord};
use ferris_agent_bridge::format::current::{
    state_file_from_state, RuntimeStateFileWire, RUNTIME_STATE_FILE_VERSION,
};
use ferris_agent_bridge::format::wire::WireField;
use ferris_agent_bridge::message::{Message, MessageAuthor, MessageContent, MessageId};
use ferris_agent_bridge::outbox::{OutboundDeliveryId, OutboundDeliveryRecord};
use ferris_agent_bridge::queue::QueuedMessage;
use ferris_agent_bridge::run::{RunId, RunRecord};
use ferris_agent_bridge::session::{Session, SessionId, SessionScope};
use ferris_agent_bridge::state::RuntimeState;
use ferris_agent_bridge::store::{DiskReport, StateFileContent, StateStore, StoreAction};

#[test]
fn state_store_writes_file_version_envelope() {
    let store = StateStore::new("runtime.state.json");
    let transition = store
        .save(&RuntimeState::new_at(7))
        .expect("state should save");
    let StoreAction::Write(state) = &transition.action else {
        panic!("state should be written");
    };
    let file = state_file_from_state(state);

    assert_eq!(file.version, RUNTIME_STATE_FILE_VERSION);
    assert_eq!(file.version, 8);
    assert!(file.sessions.is_empty());
    assert!(file.runs.is_empty());
    assert!(file.run_inputs.is_empty());
    assert_eq!(file.updated_at_unix, 7);
    assert!(file.inbound_events.is_empty());
    assert!(file.queued_messages.is_empty());
    assert!(file.outbound_deliveries.is_empty());
}

#[test]
fn state_load_rejects_stale_state_updated_at_for_sessions() {
    let scope = SessionScope::new("lark", "chat:oc_123").expect("valid scope");
    let session = session_fixture(&scope, 10, 20);
    let mut file = empty_file(1);
    file.sessions = vec![session];

    let err = store_with(file)
        .load()
        .expect_err("state updated_at should not lag session records");

    assert!(err.contains("before session"));
}

#[test]
fn state_load_rejects_stale_state_updated_at_for_runs() {
    let scope = SessionScope::new("lark", "chat:oc_123").expect("valid scope");
    let session = session_fixture(&scope, 1, 1);
    let run = RunRecord::new(
        RunId::new("run_1").expect("valid run id"),
        session.id().clone(),
        10,
    );
    let mut file = empty_file(1);
    file.sessions = vec![session];
    file.runs = WireField::Value(vec![run]);

    let err = store_with(file)
        .load()
        .expect_err("state updated_at should not lag run records");

    assert!(err.contains("before run"));
}

#[test]
fn state_load_rejects_stale_state_updated_at_for_inbound_events() {
    let event = event_fixture("evt_1", 10);
    let record = state_event_record(&event, 12).expect("inbound event record should build");
    let mut file = empty_file(1);
    file.inbound_events = WireField::Value(vec![record]);

    let err = store_with(file)
        .load()
        .expect_err("state updated_at should not lag inbound event records");

    assert!(err.contains("before inbound event"));
}

#[test]
fn state_load_rejects_stale_state_updated_at_for_outbound_deliveries() {
    let scope = SessionScope::new("lark", "chat:oc_123").expect("valid scope");
    let session = session_fixture(&scope, 1, 1);
    let delivery = outbound_delivery_fixture("out_1", session.id().clone(), 12);
    let mut file = empty_file(1);
    file.sessions = vec![session];
    file.outbound_deliveries = WireField::Value(vec![delivery]);

    let err = store_with(file)
        .load()
        .expect_err("state updated_at should not lag outbound delivery records");

    assert!(err.contains("before outbound delivery"));
}

#[test]
fn state_validation_rejects_duplicate_session_ids() {
    let scope = SessionScope::new("lark", "chat:oc_123").expect("valid scope");
    let session = Session::new(scope);
    let mut file = empty_file(session.updated_at_unix());
    file.sessions = vec![session.clone(), session];

    let err = store_with(file)
        .load()
        .expect_err("duplicate session ids should be rejected");

    assert!(err.contains("duplicate session id"));
}

#[test]
fn state_validation_rejects_duplicate_run_ids() {
    let scope = SessionScope::new("lark", "chat:oc_123").expect("valid scope");
    let session = Session::new(scope);
    let session_id = session.id().clone();
    let run = RunRecord::new(RunId::new("run_1").expect("valid run id"), session_id, 10);
    let mut file = empty_file(session.updated_at_unix().max(run.updated_at_unix()));
    file.sessions = vec![session];
    file.runs = WireField::Value(vec![run.clone(), run]);

    let err = store_with(file)
        .load()
        .expect_err("duplicate run ids should be rejected");

    assert!(err.contains("duplicate run id"));
}

#[test]
fn state_validation_rejects_run_without_session() {
    let scope = SessionScope::new("lark", "chat:oc_123").expect("valid scope");
    let session_id = SessionId::for_scope(&scope);
    let run = RunRecord::new(RunId::new("run_1").expect("valid run id"), session_id, 10);
    let mut file = empty_file(run.updated_at_unix());
    file.runs = WireField::Value(vec![run]);

    let err = store_with(file)
        .load()
        .expect_err("run without known session should be rejected");

    assert!(err.contains("references unknown session"));
}

#[test]
fn state_validation_rejects_duplicate_inbound_event_ids() {
    let event = event_fixture("evt_1", 10);
    let record = state_event_record(&event, 12).expect("inbound event record should build");
    let mut file = empty_file(record.recorded_at_unix());
    file.inbound_events = WireField::Value(vec![record.clone(), record]);

    let err = store_with(file)
        .load()
        .expect_err("duplicate inbound event ids should be rejected");

    assert!(err.contains("duplicate inbound event id"));
}

#[test]
fn state_validation_rejects_queued_message_without_inbound_record() {
    let mut file = queued_state_fixture(1);
    file.inbound_events = WireField::Value(Vec::new());

    let err = store_with(file)
        .load()
        .expect_err("queued messages must retain their inbound ledger record");

    assert!(err.contains("has no inbound event record"));
}

#[test]
fn state_validation_rejects_queued_message_with_mismatched_received_at() {
    let mut file = queued_state_fixture(1);
    queued(&mut file)[0].received_at_unix = 11;

    let err = store_with(file)
        .load()
        .expect_err("queue and ledger receive times must match");

    assert!(err.contains("does not match inbound event received_at_unix"));
}

#[test]
fn state_validation_rejects_queueing_before_the_inbound_record() {
    let mut file = queued_state_fixture(1);
    queued(&mut file)[0].enqueued_at_unix = 10;

    let err = store_with(file)
        .load()
        .expect_err("queueing must not precede the durable inbound record");

    assert!(err.contains("before inbound event recorded_at_unix"));
}

#[test]
fn state_validation_rejects_out_of_order_queued_messages_for_a_session() {
    let mut file = queued_state_fixture(2);
    let updated_at_unix = file.updated_at_unix;
    queued(&mut file)[0].enqueued_at_unix = updated_at_unix + 2;
    queued(&mut file)[1].enqueued_at_unix = updated_at_unix + 1;
    file.updated_at_unix = updated_at_unix + 2;

    let err = store_with(file)
        .load()
        .expect_err("per-session queue order must be monotonic");

    assert!(err.contains("are not ordered by enqueued_at_unix"));
}

#[test]
fn state_validation_rejects_equal_timestamp_queue_order_that_disagrees_with_ledger() {
    let mut file = queued_state_fixture(2);
    let updated_at_unix = file.updated_at_unix;
    let queued_messages = queued(&mut file);
    for queued in queued_messages.iter_mut() {
        queued.enqueued_at_unix = updated_at_unix;
    }
    queued_messages.swap(0, 1);

    let err = store_with(file)
        .load()
        .expect_err("queue order must remain a subsequence of inbound ledger order");

    assert!(err.contains("is out of inbound ledger order"));
}

#[test]
fn state_validation_rejects_duplicate_outbound_delivery_ids() {
    let scope = SessionScope::new("lark", "chat:oc_123").expect("valid scope");
    let session = session_fixture(&scope, 1, 1);
    let delivery = outbound_delivery_fixture("out_1", session.id().clone(), 12);
    let mut file = empty_file(12);
    file.sessions = vec![session];
    file.outbound_deliveries = WireField::Value(vec![delivery.clone(), delivery]);

    let err = store_with(file)
        .load()
        .expect_err("duplicate outbound delivery ids should be rejected");

    assert!(err.contains("duplicate outbound delivery id"));
}

#[test]
fn state_validation_rejects_outbound_delivery_without_session() {
    let scope = SessionScope::new("lark", "chat:oc_123").expect("valid scope");
    let session_id = SessionId::for_scope(&scope);
    let delivery = outbound_delivery_fixture("out_1", session_id, 12);
    let mut file = empty_file(12);
    file.outbound_deliveries = WireField::Value(vec![delivery]);

    let err = store_with(file)
        .load()
        .expect_err("outbound delivery without known session should be rejected");

    assert!(err.contains("references unknown session"));
}

#[test]
fn state_load_rejects_session_id_scope_mismatch() {
    let scope = SessionScope::new("lark", "chat:oc_123").expect("valid scope");
    let mut session = session_fixture(&scope, 1, 1);
    session.id = SessionId {
        text: "session_wrong".to_owned(),
    };
    let mut file = empty_file(1);
    file.sessions = vec![session];

    let err = store_with(file)
        .load()
        .expect_err("session id should match derived scope id");

    assert!(err.contains("does not match derived id"));
}

#[test]
fn state_load_rejects_session_time_order_mismatch() {
    let scope = SessionScope::new("lark", "chat:oc_123").expect("valid scope");
    let session = session_fixture(&scope, 100, 1);
    assert_eq!(
        session.id().as_str(),
        "session_v1_4_6c61726b_b_636861743a6f635f313233"
    );
    let mut file = empty_file(1);
    file.sessions = vec![session];

    let err = store_with(file)
        .load()
        .expect_err("session updated_at should not be before created_at");

    assert!(err.contains("updated_at_unix before created_at_unix"));
}

/// A store whose file holds `file`.
fn store_with(file: RuntimeStateFileWire) -> StateStore {
    let mut store = StateStore::new("runtime.state.json");
    store.refresh(StateFileContent::Decoded(file));
    store
}

fn session_fixture(scope: &SessionScope, created_at_unix: u64, updated_at_unix: u64) -> Session {
    Session {
        id: SessionId::for_scope(scope),
        scope: scope.clone(),
        created_at_unix,
        updated_at_unix,
    }
}

/// A file of the current version without records.
fn empty_file(updated_at_unix: u64) -> RuntimeStateFileWire {
    RuntimeStateFileWire {
        version: RUNTIME_STATE_FILE_VERSION,
        sessions: Vec::new(),
        runs: WireField::Value(Vec::new()),
        run_inputs: WireField::Value(Vec::new()),
        inbound_events: WireField::Value(Vec::new()),
        queued_messages: WireField::Value(Vec::new()),
        outbound_deliveries: WireField::Value(Vec::new()),
        updated_at_unix,
    }
}

fn queued(file: &mut RuntimeStateFileWire) -> &mut Vec<QueuedMessage> {
    match &mut file.queued_messages {
        WireField::Value(queued) => queued,
        _ => panic!("the file should have queued messages"),
    }
}

fn event_fixture(id: &str, received_at_unix: u64) -> Event {
    let message = Message::user_text("msg_1", None, "hello", 1).expect("valid message");
    Event::new(
        EventId::new(id).expect("valid event id"),
        EventSource::Platform,
        EventKind::MessageReceived { message },
        received_at_unix,
    )
}

/// The file of a store into which messages of one session were persisted.
fn queued_state_fixture(message_count: usize) -> RuntimeStateFileWire {
    let mut store = StateStore::new("runtime.state.json");
    let session = Session::new(SessionScope::new("lark", "chat:queue").expect("valid scope"));
    let session_id = session.id().clone();
    let mut state = RuntimeState::new();
    state.upsert_session(session);
    let saved = store.save(&state).expect("session should persist");
    store
        .settle(saved, DiskReport::Done)
        .expect("session should persist");

    for index in 0..message_count {
        let event = Event::new(
            EventId::new(&format!("evt_{index}")).expect("valid event id"),
            EventSource::Platform,
            EventKind::MessageReceived {
                message: Message::user_text(
                    &format!("msg_{index}"),
                    Some(session_id.clone()),
                    "hello",
                    10 + index as u64,
                )
                .expect("valid message"),
            },
            10 + index as u64,
        );
        let persisted = store
            .persist_inbound_event(&event)
            .expect("queued message should persist");
        store
            .settle(persisted, DiskReport::Done)
            .expect("queued message should persist");
    }

    match store.content {
        StateFileContent::Decoded(file) => file,
        _ => panic!("the store should hold a state file"),
    }
}

fn state_event_record(event: &Event, recorded_at_unix: u64) -> Result<InboundEventRecord, String> {
    let record = InboundEventRecord::from_event(event, recorded_at_unix);
    record.validate()?;
    Ok(record)
}

fn outbound_delivery_fixture(
    id: &str,
    session_id: SessionId,
    created_at_unix: u64,
) -> OutboundDeliveryRecord {
    let message = Message::new(
        MessageId::new(&format!("msg_{id}")).expect("valid message id"),
        Some(session_id.clone()),
        MessageAuthor::Agent,
        MessageContent::text("hello").expect("valid text"),
        created_at_unix,
    );

    OutboundDeliveryRecord::new(
        OutboundDeliveryId::new(id).expect("valid outbound id"),
        session_id,
        message,
        created_at_unix,
    )
    .expect("valid outbound delivery")
}

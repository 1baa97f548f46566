use ferris_agent_bridge::format::current::{RuntimeStateFileWire, RUNTIME_STATE_FILE_VERSION};
use ferris_agent_bridge::format::wire::WireField;
use ferris_agent_bridge::message::{Message, MessageAuthor, MessageContent, MessageId};
use ferris_agent_bridge::outbox::{OutboundDeliveryId, OutboundDeliveryRecord};
use ferris_agent_bridge::run::{RunId, RunRecord};
use ferris_agent_bridge::session::{Session, SessionId, SessionScope};
use ferris_agent_bridge::state::RuntimeState;
use ferris_agent_bridge::store::{DiskReport, StateFileContent, StateStore};

#[test]
fn state_load_migrates_released_version_1_without_runs_or_inbound_event_records() {
    let state = store_with(bare_file(1))
        .load()
        .expect("released version 1 state should migrate");

    assert!(state.runs().is_empty());
    assert!(state.inbound_events().is_empty());
}

#[test]
fn state_load_migrates_version_1_stale_aggregate_updated_at() {
    let scope = SessionScope::new("lark", "chat:oc_123").expect("valid scope");
    let session = session_fixture(&scope, 10, 20);
    let mut file = bare_file(1);
    file.sessions = vec![session];

    let state = store_with(file)
        .load()
        .expect("version 1 state should normalize aggregate timestamps while migrating");

    assert_eq!(state.updated_at_unix(), 20);
    assert!(state.runs().is_empty());
    assert!(state.inbound_events().is_empty());
}

#[test]
fn state_load_rejects_version_1_with_run_records() {
    let mut file = bare_file(1);
    file.runs = WireField::Value(Vec::new());

    let err = store_with(file)
        .load()
        .expect_err("version 1 state must not carry run records");

    assert!(err.contains("version 1 must not contain run records"));
}

#[test]
fn state_load_rejects_version_1_with_null_run_records() {
    let mut file = bare_file(1);
    file.runs = WireField::Null;

    let err = store_with(file)
        .load()
        .expect_err("version 1 state must reject present null runs");

    assert!(err.contains("version 1 must not contain run records"));
}

#[test]
fn state_load_rejects_version_1_with_inbound_event_records() {
    let mut file = bare_file(1);
    file.inbound_events = WireField::Value(Vec::new());

    let err = store_with(file)
        .load()
        .expect_err("version 1 state must not carry inbound event records");

    assert!(err.contains("version 1 must not contain inbound event records"));
}

#[test]
fn state_load_migrates_version_2_without_inbound_event_records() {
    let mut file = bare_file(2);
    file.runs = WireField::Value(Vec::new());

    let state = store_with(file)
        .load()
        .expect("version 2 state without inbound event records should migrate");

    assert!(state.runs().is_empty());
    assert!(state.inbound_events().is_empty());
}

#[test]
fn state_load_migrates_version_2_stale_aggregate_updated_at() {
    let scope = SessionScope::new("lark", "chat:oc_123").expect("valid scope");
    let session = session_fixture(&scope, 1, 2);
    let run = RunRecord::new(
        RunId::new("run_1").expect("valid run id"),
        session.id().clone(),
        20,
    );
    let mut file = bare_file(2);
    file.sessions = vec![session];
    file.runs = WireField::Value(vec![run]);

    let state = store_with(file)
        .load()
        .expect("version 2 state should normalize aggregate timestamps while migrating");

    assert_eq!(state.updated_at_unix(), 20);
    assert_eq!(state.runs().len(), 1);
    assert!(state.inbound_events().is_empty());
}

#[test]
fn state_load_rejects_version_2_with_inbound_event_records() {
    let mut file = bare_file(2);
    file.runs = WireField::Value(Vec::new());
    file.inbound_events = WireField::Value(Vec::new());

    let err = store_with(file)
        .load()
        .expect_err("version 2 state must not carry inbound event records");

    assert!(err.contains("version 2 must not contain inbound event records"));
}

#[test]
fn state_load_rejects_version_2_with_null_inbound_event_records() {
    let mut file = bare_file(2);
    file.runs = WireField::Value(Vec::new());
    file.inbound_events = WireField::Null;

    let err = store_with(file)
        .load()
        .expect_err("version 2 state must reject present null inbound event records");

    assert!(err.contains("version 2 must not contain inbound event records"));
}

#[test]
fn state_load_migrates_version_3_without_outbound_deliveries() {
    let mut file = bare_file(3);
    file.runs = WireField::Value(Vec::new());
    file.inbound_events = WireField::Value(Vec::new());

    let state = store_with(file)
        .load()
        .expect("version 3 state without outbound deliveries should migrate");

    assert!(state.runs().is_empty());
    assert!(state.inbound_events().is_empty());
    assert!(state.outbound_deliveries().is_empty());
}

#[test]
fn state_load_rejects_version_3_with_outbound_deliveries() {
    let mut file = bare_file(3);
    file.runs = WireField::Value(Vec::new());
    file.inbound_events = WireField::Value(Vec::new());
    file.outbound_deliveries = WireField::Value(Vec::new());

    let err = store_with(file)
        .load()
        .expect_err("version 3 state must not carry outbound deliveries");

    assert!(err.contains("version 3 must not contain outbound deliveries"));
}

#[test]
fn state_load_migrates_version_4_without_queued_messages() {
    let mut file = bare_file(4);
    file.runs = WireField::Value(Vec::new());
    file.inbound_events = WireField::Value(Vec::new());
    file.outbound_deliveries = WireField::Value(Vec::new());

    let state = store_with(file)
        .load()
        .expect("version 4 state without queued messages should migrate");

    assert!(state.queued_messages().is_empty());
    assert!(state.outbound_deliveries().is_empty());
}

#[test]
fn state_load_rejects_version_4_with_queued_messages() {
    let mut file = bare_file(4);
    file.runs = WireField::Value(Vec::new());
    file.inbound_events = WireField::Value(Vec::new());
    file.queued_messages = WireField::Value(Vec::new());
    file.outbound_deliveries = WireField::Value(Vec::new());

    let err = store_with(file)
        .load()
        .expect_err("version 4 state must not carry queued messages");

    assert!(err.contains("version 4 must not contain queued messages"));
}

#[test]
fn state_load_migrates_version_5_without_run_inputs() {
    let mut file = current_file();
    file.version = 5;
    file.run_inputs = WireField::Missing;

    let state = store_with(file)
        .load()
        .expect("version 5 state should migrate with empty run inputs");

    assert!(state.run_inputs().is_empty());
}

#[test]
fn state_load_rejects_version_5_with_run_inputs() {
    let mut file = current_file();
    file.version = 5;

    let err = store_with(file)
        .load()
        .expect_err("version 5 must reject present run inputs");

    assert!(err.contains("version 5 must not contain run inputs"));
}

#[test]
fn version_5_reports_missing_queued_messages_before_missing_outbound_deliveries() {
    let mut file = current_file();
    file.version = 5;
    file.run_inputs = WireField::Missing;
    file.queued_messages = WireField::Missing;
    file.outbound_deliveries = WireField::Missing;

    let err = store_with(file).load().expect_err("both are required");

    assert_eq!(
        err,
        "failed to parse runtime.state.json: \
         runtime state version 5 must contain queued messages"
    );

    let mut file = current_file();
    file.queued_messages = WireField::Missing;
    file.outbound_deliveries = WireField::Missing;

    let err = store_with(file).load().expect_err("both are required");

    assert_eq!(
        err,
        "failed to parse runtime.state.json: \
         runtime state version 8 must contain outbound deliveries"
    );
}

#[test]
fn state_load_migrates_version_6_without_interrupted_runs() {
    let mut file = current_file();
    file.version = 6;
    let mut store = store_with(file);

    let state = store
        .load()
        .expect("version 6 state should migrate without changing collections");
    let saved = store.save(&state).expect("migrated state should save");
    store
        .settle(saved, DiskReport::Done)
        .expect("migrated state should save");

    assert_eq!(stored_file(&store).version, RUNTIME_STATE_FILE_VERSION);
    assert!(state.runs().is_empty());
    assert!(state.run_inputs().is_empty());
}

#[test]
fn state_load_rejects_interrupted_run_in_version_6() {
    let session =
        Session::new(SessionScope::new("lark", "chat:interrupted").expect("valid session scope"));
    let mut run = RunRecord::new(
        RunId::new("run_1").expect("valid run id"),
        session.id().clone(),
        10,
    );
    run.interrupt(11).expect("run should interrupt");
    let mut state = RuntimeState::new();
    state.upsert_session(session);
    state.add_run(run).expect("interrupted run should be valid");
    let mut file = RuntimeStateFileWire::of_state(state);
    file.version = 6;

    let err = store_with(file)
        .load()
        .expect_err("version 6 must not accept version 7 run statuses");

    assert!(err.contains("version 6 must not contain interrupted runs"));
}

#[test]
fn state_load_migrates_version_7_without_output_delivery_links() {
    let session = Session::new(SessionScope::new("lark", "chat:v7").expect("valid session scope"));
    let run_id = RunId::new("run_v7").expect("valid run id");
    let mut state = RuntimeState::new();
    state.upsert_session(session.clone());
    state
        .add_run(RunRecord::new(run_id.clone(), session.id().clone(), 10))
        .expect("version 7 pending run should be valid");
    let mut file = RuntimeStateFileWire::of_state(state);
    file.version = 7;
    let mut store = store_with(file);

    let state = store
        .load()
        .expect("version 7 state should migrate without output links");
    assert!(state
        .run(&run_id)
        .expect("migrated run should remain present")
        .output_delivery_ids()
        .is_empty());
    let saved = store.save(&state).expect("migrated state should save");
    store
        .settle(saved, DiskReport::Done)
        .expect("migrated state should save");

    assert_eq!(stored_file(&store).version, RUNTIME_STATE_FILE_VERSION);
    assert_eq!(store.load().expect("migrated state should load"), state);
}

#[test]
fn state_load_rejects_output_delivery_links_in_version_7() {
    let session =
        Session::new(SessionScope::new("lark", "chat:output").expect("valid session scope"));
    let run_id = RunId::new("run_1").expect("valid run id");
    let delivery_id = OutboundDeliveryId::new("out_1").expect("valid delivery id");
    let message = Message::new(
        MessageId::new("msg_1").expect("valid message id"),
        Some(session.id().clone()),
        MessageAuthor::Agent,
        MessageContent::text("done").expect("valid content"),
        12,
    );
    let delivery =
        OutboundDeliveryRecord::new(delivery_id.clone(), session.id().clone(), message, 12)
            .expect("valid delivery");
    let mut run = RunRecord::new(run_id, session.id().clone(), 10);
    run.start(11).expect("run should start");
    run.complete_with_output_deliveries(12, vec![delivery_id])
        .expect("run should complete with output ownership");
    let mut state = RuntimeState::new();
    state.upsert_session(session);
    state.add_run(run).expect("completed run should be valid");
    state
        .enqueue_outbound_delivery(delivery)
        .expect("linked output should enqueue");
    let mut file = RuntimeStateFileWire::of_state(state);
    file.version = 7;

    let err = store_with(file)
        .load()
        .expect_err("version 7 must not accept output delivery links");

    assert!(err.contains("version 7 must not contain run output delivery ids"));
}

#[test]
fn state_load_rejects_future_file_version() {
    let mut file = current_file();
    file.version = 9;
    file.run_inputs = WireField::Missing;
    file.queued_messages = WireField::Missing;

    let err = store_with(file)
        .load()
        .expect_err("future state versions should be rejected");

    assert!(err.contains("unsupported runtime state version 9; expected 8"));
}

#[test]
fn state_load_rejects_file_version_zero() {
    let err = store_with(bare_file(0))
        .load()
        .expect_err("there is no version 0");

    assert!(err.contains("unsupported runtime state version 0; expected 8"));
}

#[test]
fn state_load_rejects_current_version_without_run_records() {
    let mut file = current_file();
    file.runs = WireField::Missing;

    let err = store_with(file)
        .load()
        .expect_err("current version should require it");

    assert!(err.contains("must contain run records"));
}

#[test]
fn state_load_rejects_current_version_without_inbound_event_records() {
    let mut file = current_file();
    file.inbound_events = WireField::Missing;

    let err = store_with(file)
        .load()
        .expect_err("current version should require it");

    assert!(err.contains("must contain inbound event records"));
}

#[test]
fn state_load_rejects_current_version_with_null_inbound_event_records() {
    let mut file = current_file();
    file.inbound_events = WireField::Null;

    let err = store_with(file)
        .load()
        .expect_err("current version should require it");

    assert!(err.contains("must contain inbound event records"));
}

#[test]
fn state_load_rejects_current_version_without_queued_messages() {
    let mut file = current_file();
    file.queued_messages = WireField::Missing;

    let err = store_with(file)
        .load()
        .expect_err("current version should require it");

    assert!(err.contains("must contain queued messages"));
}

#[test]
fn state_load_rejects_current_version_with_null_queued_messages() {
    let mut file = current_file();
    file.queued_messages = WireField::Null;

    let err = store_with(file)
        .load()
        .expect_err("current version should require it");

    assert!(err.contains("must contain queued messages"));
}

#[test]
fn state_load_rejects_current_version_without_outbound_deliveries() {
    let mut file = current_file();
    file.outbound_deliveries = WireField::Missing;

    let err = store_with(file)
        .load()
        .expect_err("current version should require it");

    assert!(err.contains("must contain outbound deliveries"));
}

#[test]
fn state_load_rejects_current_version_with_null_outbound_deliveries() {
    let mut file = current_file();
    file.outbound_deliveries = WireField::Null;

    let err = store_with(file)
        .load()
        .expect_err("current version should require it");

    assert!(err.contains("must contain outbound deliveries"));
}

#[test]
fn state_load_rejects_current_version_without_run_inputs() {
    let mut file = current_file();
    file.run_inputs = WireField::Missing;

    let err = store_with(file)
        .load()
        .expect_err("current version should require it");

    assert!(err.contains("must contain run inputs"));
}

#[test]
fn state_load_rejects_current_version_with_null_run_inputs() {
    let mut file = current_file();
    file.run_inputs = WireField::Null;

    let err = store_with(file)
        .load()
        .expect_err("current version should require it");

    assert!(err.contains("must contain run inputs"));
}

/// A store whose file holds `file`.
fn store_with(file: RuntimeStateFileWire) -> StateStore {
    let mut store = StateStore::new("runtime.state.json");
    store.refresh(StateFileContent::Decoded(file));
    store
}

fn session_fixture(scope: &SessionScope, created_at_unix: u64, updated_at_unix: u64) -> Session {
    Session {
        id: SessionId::for_scope(scope),
        scope: scope.clone(),
        created_at_unix,
        updated_at_unix,
    }
}

fn stored_file(store: &StateStore) -> &RuntimeStateFileWire {
    match &store.content {
        StateFileContent::Decoded(file) => file,
        _ => panic!("the store should hold a state file"),
    }
}

/// A file without any collection but sessions.
fn bare_file(version: u32) -> RuntimeStateFileWire {
    RuntimeStateFileWire {
        version,
        sessions: Vec::new(),
        runs: WireField::Missing,
        run_inputs: WireField::Missing,
        inbound_events: WireField::Missing,
        queued_messages: WireField::Missing,
        outbound_deliveries: WireField::Missing,
        updated_at_unix: 1,
    }
}

/// A file of the current version without records.
fn current_file() -> RuntimeStateFileWire {
    RuntimeStateFileWire {
        version: RUNTIME_STATE_FILE_VERSION,
        sessions: Vec::new(),
        runs: WireField::Value(Vec::new()),
        run_inputs: WireField::Value(Vec::new()),
        inbound_events: WireField::Value(Vec::new()),
        queued_messages: WireField::Value(Vec::new()),
        outbound_deliveries: WireField::Value(Vec::new()),
        updated_at_unix: 1,
    }
}

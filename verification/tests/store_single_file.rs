use std::cell::RefCell;
use std::rc::Rc;

use ferris_agent_bridge::event::{
    Event, EventId, EventKind, EventSource, InboundEventRecord, InboundEventRecordStatus,
};
use ferris_agent_bridge::message::{Message, MessageAuthor, MessageContent, MessageId};
use ferris_agent_bridge::outbox::{
    OutboundDeliveryEnqueueStatus, OutboundDeliveryId, OutboundDeliveryRecord,
};
use ferris_agent_bridge::run::{RunId, RunRecord, RunStatus};
use ferris_agent_bridge::session::{Session, SessionId, SessionScope};
use ferris_agent_bridge::state::RuntimeState;
use ferris_agent_bridge::format::current::{RuntimeStateFileWire, RUNTIME_STATE_FILE_VERSION};
use ferris_agent_bridge::format::wire::WireField;
use ferris_agent_bridge::store::{
    DiskReport, StateFileContent, StateStore, StoreAction, Transition,
};

#[test]
fn store_state_store_round_trips_sessions() {
    let path = test_path("state-round-trip");
    let store = TestStore::new(&path);
    let scope = SessionScope::new("lark", "chat:oc_123").expect("valid scope");
    let session = Session::new(scope);
    let session_id = session.id().clone();
    let mut state = RuntimeState::new();
    state.upsert_session(session);

    store.save(&state).expect("state should save");
    let loaded = store.load().expect("state should load");

    assert!(loaded.session(&session_id).is_some());
    assert_eq!(loaded, state);
}

#[test]
fn store_state_store_round_trips_run_records() {
    let path = test_path("state-run-round-trip");
    let store = TestStore::new(&path);
    let scope = SessionScope::new("lark", "chat:oc_123").expect("valid scope");
    let session = Session::new(scope);
    let session_id = session.id().clone();
    let run_id = RunId::new("run_1").expect("valid run id");
    let mut run = RunRecord::new(run_id.clone(), session_id, 10);
    run.start(11).expect("run should start");
    run.complete(12).expect("run should complete");
    let mut state = RuntimeState::new();
    state.upsert_session(session);
    state.add_run(run).expect("run should be accepted");

    store.save(&state).expect("state should save");
    let loaded = store.load().expect("state should load");

    assert_eq!(
        loaded
            .run(&run_id)
            .expect("persisted run should exist")
            .status(),
        RunStatus::Completed
    );
    assert_eq!(loaded, state);
}

#[test]
fn store_state_store_round_trips_inbound_event_ledger() {
    let path = test_path("state-inbound-event-round-trip");
    let store = TestStore::new(&path);
    let event = event_fixture("evt_1", 10);
    let mut state = RuntimeState::new();

    assert_eq!(
        state
            .record_inbound_event(&event)
            .expect("event should record"),
        InboundEventRecordStatus::Recorded
    );

    store.save(&state).expect("state should save");
    let loaded = store.load().expect("state should load");

    let record = loaded
        .inbound_event(&event.id)
        .expect("inbound event record should exist");
    assert_eq!(record.received_at_unix(), 10);
    assert!(record.recorded_at_unix() >= 10);
    assert_eq!(loaded, state);
}

#[test]
fn store_state_store_round_trips_outbound_deliveries() {
    let path = test_path("state-outbound-delivery-round-trip");
    let store = TestStore::new(&path);
    let scope = SessionScope::new("lark", "chat:oc_123").expect("valid scope");
    let session = Session::new(scope);
    let session_id = session.id().clone();
    let delivery = outbound_delivery_fixture("out_1", session_id, 10);
    let mut state = RuntimeState::new();

    state.upsert_session(session);
    assert_eq!(
        state
            .enqueue_outbound_delivery(delivery.clone())
            .expect("delivery should enqueue"),
        OutboundDeliveryEnqueueStatus::Queued
    );

    store.save(&state).expect("state should save");
    let loaded = store.load().expect("state should load");

    assert_eq!(
        loaded
            .outbound_delivery(delivery.id())
            .expect("outbound delivery should exist"),
        &delivery
    );
    assert_eq!(loaded, state);
}

#[test]
fn store_state_store_persists_inbound_event_before_returning_status() {
    let path = test_path("state-inbound-event-ack-after-persist");
    let store = TestStore::new(&path);
    let event = event_fixture("evt_1", 10);

    let status = store
        .persist_inbound_event(&event)
        .expect("persisted event should return a status that may be acknowledged");

    assert_eq!(status, InboundEventRecordStatus::Recorded);

    let loaded = store.load().expect("state should load");
    let record = loaded
        .inbound_event(&event.id)
        .expect("status must only be returned after the event is persisted");
    assert_eq!(record.received_at_unix(), 10);
    assert!(record.recorded_at_unix() >= 10);
}

#[test]
fn store_state_store_enqueues_outbound_delivery_before_returning_status() {
    let path = test_path("state-outbound-delivery-before-send");
    let store = TestStore::new(&path);
    let session = Session::new(SessionScope::new("lark", "chat:oc_123").expect("valid scope"));
    let session_id = session.id().clone();
    let delivery = outbound_delivery_fixture("out_1", session_id, 10);
    let mut initial = RuntimeState::new();
    initial.upsert_session(session);
    store.save(&initial).expect("initial state should save");

    let status = store
        .enqueue_outbound_delivery(delivery.clone())
        .expect("queued delivery should return a status that may be sent");

    assert_eq!(status, OutboundDeliveryEnqueueStatus::Queued);

    let loaded = store.load().expect("state should load");
    assert_eq!(
        loaded.outbound_delivery(delivery.id()),
        Some(&delivery),
        "status must only be returned after the outbound delivery is persisted"
    );
}

#[test]
fn store_state_store_returns_duplicate_status_after_existing_outbound_delivery() {
    let path = test_path("state-outbound-delivery-duplicate");
    let store = TestStore::new(&path);
    let session = Session::new(SessionScope::new("lark", "chat:oc_123").expect("valid scope"));
    let session_id = session.id().clone();
    let delivery = outbound_delivery_fixture("out_1", session_id, 10);
    let mut initial = RuntimeState::new();
    initial.upsert_session(session);
    store.save(&initial).expect("initial state should save");

    let first = store
        .enqueue_outbound_delivery(delivery.clone())
        .expect("first delivery should persist");
    assert_eq!(first, OutboundDeliveryEnqueueStatus::Queued);

    let duplicate = store
        .enqueue_outbound_delivery(delivery.clone())
        .expect("duplicate delivery should still return a status");
    assert_eq!(duplicate, OutboundDeliveryEnqueueStatus::Duplicate);

    let loaded = store.load().expect("state should load");
    assert_eq!(loaded.outbound_deliveries(), &[delivery]);
}

#[test]
fn store_state_store_returns_duplicate_status_after_existing_record() {
    let path = test_path("state-inbound-event-duplicate-ack");
    let store = TestStore::new(&path);
    let event = event_fixture("evt_1", 10);

    let first = store
        .persist_inbound_event(&event)
        .expect("first event should persist");
    assert_eq!(first, InboundEventRecordStatus::Recorded);

    let before_duplicate = store.load().expect("state should load");
    let first_record = before_duplicate
        .inbound_event(&event.id)
        .expect("event should be persisted")
        .clone();

    let duplicate = store
        .persist_inbound_event(&event)
        .expect("duplicate event should still return a status that may be acknowledged");

    assert_eq!(duplicate, InboundEventRecordStatus::Duplicate);

    let loaded = store.load().expect("state should load");
    assert_eq!(loaded.inbound_events().len(), 1);
    assert_eq!(loaded.inbound_events()[0], first_record);
}

#[test]
fn store_state_store_save_preserves_inbound_events_from_stale_snapshot() {
    let path = test_path("state-stale-save-preserves-inbound");
    let stale_writer = TestStore::new(&path);
    let ack_writer = stale_writer.handle();
    let stale_snapshot = stale_writer.load().expect("empty state should load");
    let event = event_fixture("evt_1", 10);

    let status = ack_writer
        .persist_inbound_event(&event)
        .expect("event should persist before acknowledgement");
    assert_eq!(status, InboundEventRecordStatus::Recorded);

    stale_writer
        .save(&stale_snapshot)
        .expect("stale save should preserve acknowledged inbound records");

    let loaded = stale_writer.load().expect("state should load");
    assert!(
        loaded.has_inbound_event(&event.id),
        "stale save must not erase an acknowledged inbound record"
    );
}

#[test]
fn store_state_store_save_preserves_outbound_deliveries_from_stale_snapshot() {
    let path = test_path("state-stale-save-preserves-outbound");
    let stale_writer = TestStore::new(&path);
    let enqueue_writer = stale_writer.handle();
    let session = Session::new(SessionScope::new("lark", "chat:oc_123").expect("valid scope"));
    let session_id = session.id().clone();
    let delivery = outbound_delivery_fixture("out_1", session_id, 10);
    let mut initial = RuntimeState::new();
    initial.upsert_session(session);
    stale_writer
        .save(&initial)
        .expect("initial state should save");
    let stale_snapshot = stale_writer.load().expect("state should load");

    let status = enqueue_writer
        .enqueue_outbound_delivery(delivery.clone())
        .expect("delivery should persist before send");
    assert_eq!(status, OutboundDeliveryEnqueueStatus::Queued);

    stale_writer
        .save(&stale_snapshot)
        .expect("stale save should preserve queued outbound deliveries");

    let loaded = stale_writer.load().expect("state should load");
    assert!(
        loaded.outbound_delivery(delivery.id()).is_some(),
        "stale save must not erase a queued outbound delivery"
    );
}

#[test]
fn store_state_store_stale_save_fails_closed_when_outbound_session_is_missing() {
    let path =
        test_path("state-stale-save-missing-outbound-session");
    let stale_writer = TestStore::new(&path);
    let enqueue_writer = stale_writer.handle();
    let stale_snapshot = stale_writer.load().expect("missing state should load");
    let session = Session::new(SessionScope::new("lark", "chat:oc_123").expect("valid scope"));
    let session_id = session.id().clone();
    let delivery = outbound_delivery_fixture("out_1", session_id.clone(), 10);
    let mut current = RuntimeState::new();
    current.upsert_session(session);
    enqueue_writer
        .save(&current)
        .expect("current session state should save");
    let status = enqueue_writer
        .enqueue_outbound_delivery(delivery.clone())
        .expect("delivery should persist before send");
    assert_eq!(status, OutboundDeliveryEnqueueStatus::Queued);

    let err = stale_writer
        .save(&stale_snapshot)
        .expect_err("stale save without the referenced session should fail closed");

    assert!(err.contains("references unknown session"));
    let loaded = stale_writer.load().expect("state should load");
    assert!(loaded.session(&session_id).is_some());
    assert_eq!(loaded.outbound_delivery(delivery.id()), Some(&delivery));
}

#[test]
fn store_state_store_save_fails_closed_when_existing_state_is_invalid() {
    let path = test_path("state-save-invalid-existing");
    let store = TestStore::new(&path);
    let event = event_fixture("evt_1", 10);
    let record = state_event_record(&event, 12).expect("inbound event record should build");
    store.put(StateFileContent::Decoded(RuntimeStateFileWire {
        version: RUNTIME_STATE_FILE_VERSION,
        sessions: Vec::new(),
        runs: WireField::Value(Vec::new()),
        run_inputs: WireField::Value(Vec::new()),
        inbound_events: WireField::Value(vec![record.clone()]),
        queued_messages: WireField::Value(Vec::new()),
        outbound_deliveries: WireField::Value(Vec::new()),
        updated_at_unix: 1,
    }));

    let err = store
        .save(&RuntimeState::new())
        .expect_err("save should not overwrite invalid existing state");

    assert!(err.contains("before inbound event"));
    let StateFileContent::Decoded(existing) = &store.disk.store.borrow().content else {
        panic!("state file should remain readable");
    };
    assert_eq!(existing.inbound_events, WireField::Value(vec![record]));
    assert_eq!(event.id.as_str(), "evt_1");
}

#[test]
fn store_state_store_does_not_return_status_when_inbound_event_persist_fails() {
    let path = test_path("state-inbound-event-persist-failure");
    let store = TestStore::new(&path);
    let event = event_fixture("evt_1", 10);

    store
        .save(&RuntimeState::new())
        .expect("initial readable state should save");
    store.fail_next_write_before_replace();

    let result = store.persist_inbound_event(&event);

    let err = result.expect_err("failed persistence must not return an acknowledgeable status");
    assert!(err.contains("failed to save runtime state"));

    let loaded = store.load().expect("state should still load");
    assert!(
        loaded.inbound_events().is_empty(),
        "failed persistence must not leave an acknowledged inbound event on disk"
    );
}

#[test]
fn store_state_store_does_not_return_status_when_outbound_enqueue_fails() {
    let path = test_path("state-outbound-delivery-persist-failure");
    let store = TestStore::new(&path);
    let session = Session::new(SessionScope::new("lark", "chat:oc_123").expect("valid scope"));
    let session_id = session.id().clone();
    let delivery = outbound_delivery_fixture("out_1", session_id, 10);
    let mut initial = RuntimeState::new();
    initial.upsert_session(session);

    store.save(&initial).expect("initial state should save");
    store.fail_next_write_before_replace();

    let result = store.enqueue_outbound_delivery(delivery);

    let err = result.expect_err("failed persistence must not return a sendable status");
    assert!(err.contains("failed to save runtime state"));

    let loaded = store.load().expect("state should still load");
    assert!(
        loaded.outbound_deliveries().is_empty(),
        "failed persistence must not leave a sendable outbound delivery on disk"
    );
}

#[test]
fn store_state_store_replaces_existing_state_file() {
    let path = test_path("state-replace-existing");
    let store = TestStore::new(&path);
    let first_scope = SessionScope::new("lark", "chat:oc_123").expect("valid scope");
    let second_scope = SessionScope::new("lark", "chat:oc_456").expect("valid scope");
    let mut state = RuntimeState::new();
    state.upsert_session(Session::new(first_scope));
    store.save(&state).expect("initial state should save");

    state.upsert_session(Session::new(second_scope));
    store
        .save(&state)
        .expect("existing state file should be replaced");

    let loaded = store.load().expect("replaced state should load");
    assert_eq!(loaded.sessions().len(), 2);
}

#[test]
fn store_missing_state_loads_as_empty_state() {
    let path = test_path("missing-state");
    let store = TestStore::new(&path);
    let state = store.load().expect("missing state should be defaulted");

    assert!(state.sessions().is_empty());
    assert!(state.runs().is_empty());
    assert!(state.inbound_events().is_empty());
    assert!(state.outbound_deliveries().is_empty());
}

#[test]
fn store_state_load_does_not_default_non_not_found_path_errors() {
    let path = test_path("state-load-path-error/not-a-directory");
    let store = TestStore::new(&path);
    store.put(StateFileContent::Unreadable("Not a directory".to_owned()));

    let err = store
        .load()
        .expect_err("path errors must not be treated as missing state");

    assert!(err.contains("failed to read runtime state"));
}

fn event_fixture(id: &str, received_at_unix: u64) -> Event {
    let message = Message::user_text("msg_1", None, "hello", 1).expect("valid message");
    Event::new(
        EventId::new(id).expect("valid event id"),
        EventSource::Platform,
        EventKind::MessageReceived { message },
        received_at_unix,
    )
}

fn state_event_record(
    event: &Event,
    recorded_at_unix: u64,
) -> Result<InboundEventRecord, String> {
    let record = InboundEventRecord::from_event(event, recorded_at_unix);
    record.validate()?;
    Ok(record)
}

fn outbound_delivery_fixture(
    id: &str,
    session_id: SessionId,
    created_at_unix: u64,
) -> OutboundDeliveryRecord {
    let message = Message::new(
        MessageId::new(&format!("msg_{id}")).expect("valid message id"),
        Some(session_id.clone()),
        MessageAuthor::Agent,
        MessageContent::text("hello").expect("valid text"),
        created_at_unix,
    );

    OutboundDeliveryRecord::new(
        OutboundDeliveryId::new(id).expect("valid outbound id"),
        session_id,
        message,
        created_at_unix,
    )
    .expect("valid outbound delivery")
}

fn test_path(name: &str) -> String {
    format!("{name}/runtime.state.json")
}

/// A store whose file is held in memory, and whose next write can be made to fail.
struct TestStore {
    disk: Rc<Disk>,
}

struct Disk {
    store: RefCell<StateStore>,
    next_write: RefCell<Option<DiskReport>>,
    next_sync: RefCell<Option<DiskReport>>,
}

#[allow(dead_code)]
impl TestStore {
    fn new(path: &str) -> TestStore {
        TestStore {
            disk: Rc::new(Disk {
                store: RefCell::new(StateStore::new(path)),
                next_write: RefCell::new(None),
                next_sync: RefCell::new(None),
            }),
        }
    }

    /// Another handle on the same file.
    fn handle(&self) -> TestStore {
        TestStore {
            disk: Rc::clone(&self.disk),
        }
    }

    fn file_exists(&self) -> bool {
        !matches!(self.disk.store.borrow().content, StateFileContent::Missing)
    }

    fn put(&self, content: StateFileContent) {
        self.disk.store.borrow_mut().refresh(content);
    }

    fn fail_next_write_before_replace(&self) {
        self.disk
            .next_write
            .replace(Some(DiskReport::NotReplaced("injected failure".to_owned())));
    }

    fn fail_next_write_after_replace(&self) {
        self.disk
            .next_write
            .replace(Some(DiskReport::Replaced("injected failure".to_owned())));
    }

    fn fail_next_parent_sync(&self) {
        self.disk
            .next_sync
            .replace(Some(DiskReport::NotReplaced("injected failure".to_owned())));
    }

    fn settle<T>(&self, decided: Result<Transition<T>, String>) -> Result<T, String> {
        let transition = decided?;
        let report = match &transition.action {
            StoreAction::Keep => DiskReport::Done,
            StoreAction::ConfirmDurable => self.disk.next_sync.take().unwrap_or(DiskReport::Done),
            StoreAction::Write(_) => self.disk.next_write.take().unwrap_or(DiskReport::Done),
        };
        self.disk.store.borrow_mut().settle(transition, report)
    }

    fn load(&self) -> Result<RuntimeState, String> {
        self.disk.store.borrow().load()
    }

    fn save(&self, state: &RuntimeState) -> Result<(), String> {
        let decided = self.disk.store.borrow().save(state);
        self.settle(decided)
    }

    fn persist_inbound_event(&self, event: &Event) -> Result<InboundEventRecordStatus, String> {
        let decided = self.disk.store.borrow().persist_inbound_event(event);
        self.settle(decided)
    }

    fn enqueue_outbound_delivery(
        &self,
        delivery: OutboundDeliveryRecord,
    ) -> Result<OutboundDeliveryEnqueueStatus, String> {
        let decided = self.disk.store.borrow().enqueue_outbound_delivery(delivery);
        self.settle(decided)
    }
}

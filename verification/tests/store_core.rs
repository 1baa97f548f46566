use std::cell::RefCell;
use std::rc::Rc;

use ferris_agent_bridge::event::{Event, EventId, EventKind, EventSource, InboundEventRecord};
use ferris_agent_bridge::message::{Message, MessageAuthor, MessageContent, MessageId};
use ferris_agent_bridge::outbox::{
    OutboundDeliveryEnqueueStatus, OutboundDeliveryId, OutboundDeliveryRecord,
    OutboundDeliveryStatus,
};
use ferris_agent_bridge::run::{RunId, RunRecord, RunStatus};
use ferris_agent_bridge::session::{Session, SessionScope};
use ferris_agent_bridge::state::RuntimeState;
use ferris_agent_bridge::format::current::{RuntimeStateFileWire, RUNTIME_STATE_FILE_VERSION};
use ferris_agent_bridge::format::wire::WireField;
use ferris_agent_bridge::store::{
    DiskReport, StateFileContent, StateStore, StoreAction, Transition,
};

#[test]
fn core_state_store_round_trips_sessions() {
    let path = test_path("state-round-trip");
    let store = TestStore::new(&path);
    let scope = SessionScope::new("lark", "chat:oc_123").expect("valid scope");
    let session = Session::new(scope);
    let session_id = session.id().clone();
    let mut state = RuntimeState::new();
    state.upsert_session(session);

    store.save(&state).expect("state should save");
    let loaded = store.load().expect("state should load");

    assert!(loaded.session(&session_id).is_some());
    assert_eq!(loaded, state);
}

#[test]
fn core_state_store_round_trips_run_records() {
    let path = test_path("state-run-round-trip");
    let store = TestStore::new(&path);
    let scope = SessionScope::new("lark", "chat:oc_123").expect("valid scope");
    let session = Session::new(scope);
    let session_id = session.id().clone();
    let run_id = RunId::new("run_1").expect("valid run id");
    let mut run = RunRecord::new(run_id.clone(), session_id, 10);
    run.start(11).expect("run should start");
    run.complete(12).expect("run should complete");
    let mut state = RuntimeState::new();
    state.upsert_session(session);
    state.add_run(run).expect("run should be accepted");

    store.save(&state).expect("state should save");
    let loaded = store.load().expect("state should load");

    assert_eq!(
        loaded
            .run(&run_id)
            .expect("persisted run should exist")
            .status(),
        RunStatus::Completed
    );
    assert_eq!(loaded, state);
}

#[test]
fn state_store_snapshot_cannot_introduce_agent_run_output_ownership() {
    let path = test_path("state-snapshot-run-output");
    let store = TestStore::new(&path);
    let session = Session::new(SessionScope::new("lark", "chat:oc_123").expect("valid scope"));
    let run_id = RunId::new("run_1").expect("valid run id");
    let delivery_id = OutboundDeliveryId::new("out_1").expect("valid delivery id");
    let message = Message::new(
        MessageId::new("msg_1").expect("valid message id"),
        Some(session.id().clone()),
        MessageAuthor::Agent,
        MessageContent::text("done").expect("valid content"),
        12,
    );
    let delivery =
        OutboundDeliveryRecord::new(delivery_id.clone(), session.id().clone(), message, 12)
            .expect("valid delivery");
    let mut run = RunRecord::new(run_id, session.id().clone(), 10);
    run.start(11).expect("run should start");
    run.complete_with_output_deliveries(12, vec![delivery_id])
        .expect("candidate run should complete");
    let mut candidate = RuntimeState::new();
    candidate.upsert_session(session);
    candidate
        .add_run(run)
        .expect("candidate run should be accepted");
    candidate
        .enqueue_outbound_delivery(delivery)
        .expect("candidate output should be internally valid");

    let err = store
        .save(&candidate)
        .expect_err("snapshot save must not introduce agent output ownership");

    assert!(err.contains("cannot introduce or change output delivery ownership"));
    assert!(
        store
            .load()
            .expect("state should remain readable")
            .runs()
            .is_empty()
    );
}

#[test]
fn state_store_preserves_newer_run_transitions_from_stale_saves() {
    let path = test_path("state-stale-run-transition");
    let store = TestStore::new(&path);
    let session = Session::new(SessionScope::new("lark", "chat:oc_123").expect("valid scope"));
    let session_id = session.id().clone();
    let run_id = RunId::new("run_1").expect("valid run id");
    let mut initial = RuntimeState::new();
    initial.upsert_session(session);
    initial
        .add_run(RunRecord::new(run_id.clone(), session_id, 10))
        .expect("pending run should be accepted");
    store.save(&initial).expect("initial state should save");
    let stale = store.load().expect("stale state should load");
    let mut current = store.load().expect("current state should load");
    current.start_run(&run_id, 11).expect("run should start");
    store
        .save(&current)
        .expect("forward run transition should save");

    store
        .save(&stale)
        .expect("stale pending snapshot should preserve durable running state");

    assert_eq!(
        store
            .load()
            .expect("state should load")
            .run(&run_id)
            .expect("run should remain durable")
            .status(),
        RunStatus::Running
    );
}

#[test]
fn state_store_stale_save_rejects_divergent_run_outcomes() {
    let path = test_path("state-divergent-run-outcomes");
    let store = TestStore::new(&path);
    let session = Session::new(SessionScope::new("lark", "chat:oc_123").expect("valid scope"));
    let session_id = session.id().clone();
    let run_id = RunId::new("run_1").expect("valid run id");
    let mut initial = RuntimeState::new();
    initial.upsert_session(session);
    initial
        .add_run(RunRecord::new(run_id.clone(), session_id, 10))
        .expect("pending run should be accepted");
    store.save(&initial).expect("initial state should save");
    let mut failed = store.load().expect("failed writer should load");
    let mut cancelled = store.load().expect("cancelled writer should load");
    failed.fail_run(&run_id, 11).expect("run should fail");
    cancelled
        .cancel_run(&run_id, 11)
        .expect("run should cancel");
    store.save(&failed).expect("failed outcome should save");

    let err = store
        .save(&cancelled)
        .expect_err("divergent terminal outcome must fail closed");

    assert!(err.contains("conflicting run record"));
    assert_eq!(
        store
            .load()
            .expect("state should remain readable")
            .run(&run_id)
            .expect("run should remain durable")
            .status(),
        RunStatus::Failed
    );
}

#[test]
fn core_state_store_save_fails_closed_when_existing_state_is_invalid() {
    let path = test_path("state-save-invalid-existing");
    let store = TestStore::new(&path);
    let event = event_fixture("evt_1", 10);
    let record = state_event_record(&event, 12).expect("inbound event record should build");
    store.put(StateFileContent::Decoded(RuntimeStateFileWire {
        version: RUNTIME_STATE_FILE_VERSION,
        sessions: Vec::new(),
        runs: WireField::Value(Vec::new()),
        run_inputs: WireField::Value(Vec::new()),
        inbound_events: WireField::Value(vec![record.clone()]),
        queued_messages: WireField::Value(Vec::new()),
        outbound_deliveries: WireField::Value(Vec::new()),
        updated_at_unix: 1,
    }));

    let err = store
        .save(&RuntimeState::new())
        .expect_err("save should not overwrite invalid existing state");

    assert!(err.contains("before inbound event"));
    let StateFileContent::Decoded(existing) = &store.disk.store.borrow().content else {
        panic!("state file should remain readable");
    };
    assert_eq!(existing.inbound_events, WireField::Value(vec![record]));
    assert_eq!(event.id.as_str(), "evt_1");
}

#[test]
fn core_state_store_replaces_existing_state_file() {
    let path = test_path("state-replace-existing");
    let store = TestStore::new(&path);
    let first_scope = SessionScope::new("lark", "chat:oc_123").expect("valid scope");
    let second_scope = SessionScope::new("lark", "chat:oc_456").expect("valid scope");
    let mut state = RuntimeState::new();
    state.upsert_session(Session::new(first_scope));
    store.save(&state).expect("initial state should save");

    state.upsert_session(Session::new(second_scope));
    store
        .save(&state)
        .expect("existing state file should be replaced");

    let loaded = store.load().expect("replaced state should load");
    assert_eq!(loaded.sessions().len(), 2);
}

#[test]
fn state_store_save_accepts_new_pending_outbound_delivery() {
    let path = test_path("state-save-new-pending-outbound");
    let store = TestStore::new(&path);
    let state = state_with_outbound_status(OutboundDeliveryStatus::Pending);

    store.save(&state).expect("pending delivery should save");

    let loaded = store.load().expect("saved state should load");
    assert_eq!(loaded.outbound_deliveries().len(), 1);
    assert_eq!(
        loaded.outbound_deliveries()[0].status(),
        OutboundDeliveryStatus::Pending
    );
}

#[test]
fn state_store_save_rejects_new_non_pending_outbound_deliveries() {
    for status in [
        OutboundDeliveryStatus::Delivering,
        OutboundDeliveryStatus::Delivered,
        OutboundDeliveryStatus::Failed,
        OutboundDeliveryStatus::Uncertain,
    ] {
        let path = test_path(&format!("state-save-new-{status:?}-outbound"));
        let store = TestStore::new(&path);
        let state = state_with_outbound_status(status);

        let err = store
            .save(&state)
            .expect_err("non-pending delivery must not enter through snapshot save");

        assert!(err.contains("new snapshot deliveries must be pending"));
        assert!(err.contains(&format!("{status:?}")));
        assert!(!store.file_exists(), "rejected snapshot must not create state");
    }
}

#[test]
fn core_missing_state_loads_as_empty_state() {
    let path = test_path("missing-state");
    let store = TestStore::new(&path);
    let state = store.load().expect("missing state should be defaulted");

    assert!(state.sessions().is_empty());
    assert!(state.runs().is_empty());
    assert!(state.run_inputs().is_empty());
    assert!(state.inbound_events().is_empty());
    assert!(state.outbound_deliveries().is_empty());
}

#[test]
fn core_state_load_does_not_default_non_not_found_path_errors() {
    let path = test_path("state-load-path-error/not-a-directory");
    let store = TestStore::new(&path);
    store.put(StateFileContent::Unreadable("Not a directory".to_owned()));

    let err = store
        .load()
        .expect_err("path errors must not be treated as missing state");

    assert!(err.contains("failed to read runtime state"));
}

fn event_fixture(id: &str, received_at_unix: u64) -> Event {
    Event::new(
        EventId::new(id).expect("valid event id"),
        EventSource::Runtime,
        EventKind::RuntimeNotice {
            message: "notice".to_owned(),
        },
        received_at_unix,
    )
}

fn state_event_record(
    event: &Event,
    recorded_at_unix: u64,
) -> Result<InboundEventRecord, String> {
    let record = InboundEventRecord::from_event(event, recorded_at_unix);
    record.validate()?;
    Ok(record)
}

fn state_with_outbound_status(status: OutboundDeliveryStatus) -> RuntimeState {
    let scope = SessionScope::new("lark", "chat:oc_123").expect("valid scope");
    let session = Session::new(scope);
    let session_id = session.id().clone();
    let message = Message::new(
        MessageId::new("msg_out_1").expect("valid message id"),
        Some(session_id.clone()),
        MessageAuthor::Agent,
        MessageContent::text("reply").expect("valid text"),
        10,
    );
    let delivery = OutboundDeliveryRecord::new(
        OutboundDeliveryId::new("out_1").expect("valid delivery id"),
        session_id,
        message,
        10,
    )
    .expect("valid outbound delivery");
    let delivery_id = delivery.id().clone();
    let mut state = RuntimeState::new();
    state.upsert_session(session);
    state
        .enqueue_outbound_delivery(delivery)
        .expect("delivery should enqueue");

    if status != OutboundDeliveryStatus::Pending {
        state
            .claim_next_outbound_delivery(11)
            .expect("delivery should claim");
    }

    match status {
        OutboundDeliveryStatus::Pending | OutboundDeliveryStatus::Delivering => {}
        OutboundDeliveryStatus::Delivered => {
            state
                .mark_outbound_delivery_delivered(&delivery_id, 12)
                .expect("delivery should complete");
        }
        OutboundDeliveryStatus::Failed => {
            state
                .mark_outbound_delivery_failed(&delivery_id, 12, "transport failed")
                .expect("delivery should fail");
        }
        OutboundDeliveryStatus::Uncertain => {
            state
                .mark_outbound_delivery_uncertain(
                    &delivery_id,
                    12,
                    "provider acceptance is unknown",
                )
                .expect("delivery should become uncertain");
        }
    }

    state
}

fn test_path(name: &str) -> String {
    format!("{name}/runtime.state.json")
}

/// A store whose file is held in memory, and whose next write can be made to fail.
struct TestStore {
    disk: Rc<Disk>,
}

struct Disk {
    store: RefCell<StateStore>,
    next_write: RefCell<Option<DiskReport>>,
    next_sync: RefCell<Option<DiskReport>>,
}

#[allow(dead_code)]
impl TestStore {
    fn new(path: &str) -> TestStore {
        TestStore {
            disk: Rc::new(Disk {
                store: RefCell::new(StateStore::new(path)),
                next_write: RefCell::new(None),
                next_sync: RefCell::new(None),
            }),
        }
    }

    /// Another handle on the same file.
    fn handle(&self) -> TestStore {
        TestStore {
            disk: Rc::clone(&self.disk),
        }
    }

    fn file_exists(&self) -> bool {
        !matches!(self.disk.store.borrow().content, StateFileContent::Missing)
    }

    fn put(&self, content: StateFileContent) {
        self.disk.store.borrow_mut().refresh(content);
    }

    fn fail_next_write_before_replace(&self) {
        self.disk
            .next_write
            .replace(Some(DiskReport::NotReplaced("injected failure".to_owned())));
    }

    fn fail_next_write_after_replace(&self) {
        self.disk
            .next_write
            .replace(Some(DiskReport::Replaced("injected failure".to_owned())));
    }

    fn fail_next_parent_sync(&self) {
        self.disk
            .next_sync
            .replace(Some(DiskReport::NotReplaced("injected failure".to_owned())));
    }

    fn settle<T>(&self, decided: Result<Transition<T>, String>) -> Result<T, String> {
        let transition = decided?;
        let report = match &transition.action {
            StoreAction::Keep => DiskReport::Done,
            StoreAction::ConfirmDurable => self.disk.next_sync.take().unwrap_or(DiskReport::Done),
            StoreAction::Write(_) => self.disk.next_write.take().unwrap_or(DiskReport::Done),
        };
        self.disk.store.borrow_mut().settle(transition, report)
    }

    fn load(&self) -> Result<RuntimeState, String> {
        self.disk.store.borrow().load()
    }

    fn save(&self, state: &RuntimeState) -> Result<(), String> {
        let decided = self.disk.store.borrow().save(state);
        self.settle(decided)
    }

    fn enqueue_outbound_delivery(
        &self,
        delivery: OutboundDeliveryRecord,
    ) -> Result<OutboundDeliveryEnqueueStatus, String> {
        let decided = self.disk.store.borrow().enqueue_outbound_delivery(delivery);
        self.settle(decided)
    }

    fn claim_next_outbound_delivery(
        &self,
        at: u64,
    ) -> Result<Option<OutboundDeliveryRecord>, String> {
        let decided = self.disk.store.borrow().claim_next_outbound_delivery(at);
        self.settle(decided)
    }

    fn mark_outbound_delivery_delivered(
        &self,
        id: &OutboundDeliveryId,
        at: u64,
    ) -> Result<OutboundDeliveryRecord, String> {
        let decided = self.disk.store.borrow().mark_outbound_delivery_delivered(id, at);
        self.settle(decided)
    }

    fn mark_outbound_delivery_failed(
        &self,
        id: &OutboundDeliveryId,
        at: u64,
        error: &str,
    ) -> Result<OutboundDeliveryRecord, String> {
        let decided = self.disk.store.borrow().mark_outbound_delivery_failed(id, at, error);
        self.settle(decided)
    }

    fn mark_outbound_delivery_uncertain(
        &self,
        id: &OutboundDeliveryId,
        at: u64,
        error: &str,
    ) -> Result<OutboundDeliveryRecord, String> {
        let decided = self.disk.store.borrow().mark_outbound_delivery_uncertain(id, at, error);
        self.settle(decided)
    }
}

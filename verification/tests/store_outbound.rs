use std::cell::RefCell;
use std::rc::Rc;

use ferris_agent_bridge::message::{Message, MessageAuthor, MessageContent, MessageId};
use ferris_agent_bridge::outbox::{
    OutboundDeliveryEnqueueStatus, OutboundDeliveryId, OutboundDeliveryRecord,
};
use ferris_agent_bridge::session::{Session, SessionId, SessionScope};
use ferris_agent_bridge::state::RuntimeState;
use ferris_agent_bridge::store::{
    DiskReport, StateFileContent, StateStore, StoreAction, Transition,
};

#[test]
fn outbound_state_store_round_trips_outbound_deliveries() {
    let path = test_path("state-outbound-delivery-round-trip");
    let store = TestStore::new(&path);
    let scope = SessionScope::new("lark", "chat:oc_123").expect("valid scope");
    let session = Session::new(scope);
    let session_id = session.id().clone();
    let delivery = outbound_delivery_fixture("out_1", session_id, 10);
    let mut state = RuntimeState::new();

    state.upsert_session(session);
    assert_eq!(
        state
            .enqueue_outbound_delivery(delivery.clone())
            .expect("delivery should enqueue"),
        OutboundDeliveryEnqueueStatus::Queued
    );

    store.save(&state).expect("state should save");
    let loaded = store.load().expect("state should load");

    assert_eq!(
        loaded
            .outbound_delivery(delivery.id())
            .expect("outbound delivery should exist"),
        &delivery
    );
    assert_eq!(loaded, state);
}

#[test]
fn outbound_state_store_enqueues_outbound_delivery_before_returning_status() {
    let path = test_path("state-outbound-delivery-before-send");
    let store = TestStore::new(&path);
    let session = Session::new(SessionScope::new("lark", "chat:oc_123").expect("valid scope"));
    let session_id = session.id().clone();
    let delivery = outbound_delivery_fixture("out_1", session_id, 10);
    let mut initial = RuntimeState::new();
    initial.upsert_session(session);
    store.save(&initial).expect("initial state should save");

    let status = store
        .enqueue_outbound_delivery(delivery.clone())
        .expect("queued delivery should return a status that may be sent");

    assert_eq!(status, OutboundDeliveryEnqueueStatus::Queued);

    let loaded = store.load().expect("state should load");
    assert_eq!(
        loaded.outbound_delivery(delivery.id()),
        Some(&delivery),
        "status must only be returned after the outbound delivery is persisted"
    );
}

#[test]
fn outbound_state_store_returns_duplicate_status_after_existing_outbound_delivery() {
    let path = test_path("state-outbound-delivery-duplicate");
    let store = TestStore::new(&path);
    let session = Session::new(SessionScope::new("lark", "chat:oc_123").expect("valid scope"));
    let session_id = session.id().clone();
    let delivery = outbound_delivery_fixture("out_1", session_id, 10);
    let mut initial = RuntimeState::new();
    initial.upsert_session(session);
    store.save(&initial).expect("initial state should save");

    let first = store
        .enqueue_outbound_delivery(delivery.clone())
        .expect("first delivery should persist");
    assert_eq!(first, OutboundDeliveryEnqueueStatus::Queued);

    let duplicate = store
        .enqueue_outbound_delivery(delivery.clone())
        .expect("duplicate delivery should still return a status");
    assert_eq!(duplicate, OutboundDeliveryEnqueueStatus::Duplicate);

    let loaded = store.load().expect("state should load");
    assert_eq!(loaded.outbound_deliveries(), &[delivery]);
}

#[test]
fn outbound_state_store_save_preserves_outbound_deliveries_from_stale_snapshot() {
    let path = test_path("state-stale-save-preserves-outbound");
    let stale_writer = TestStore::new(&path);
    let enqueue_writer = stale_writer.handle();
    let session = Session::new(SessionScope::new("lark", "chat:oc_123").expect("valid scope"));
    let session_id = session.id().clone();
    let delivery = outbound_delivery_fixture("out_1", session_id, 10);
    let mut initial = RuntimeState::new();
    initial.upsert_session(session);
    stale_writer
        .save(&initial)
        .expect("initial state should save");
    let stale_snapshot = stale_writer.load().expect("state should load");

    let status = enqueue_writer
        .enqueue_outbound_delivery(delivery.clone())
        .expect("delivery should persist before send");
    assert_eq!(status, OutboundDeliveryEnqueueStatus::Queued);

    stale_writer
        .save(&stale_snapshot)
        .expect("stale save should preserve queued outbound deliveries");

    let loaded = stale_writer.load().expect("state should load");
    assert!(
        loaded.outbound_delivery(delivery.id()).is_some(),
        "stale save must not erase a queued outbound delivery"
    );
}

#[test]
fn state_store_stale_save_fails_closed_on_conflicting_outbound_delivery() {
    let path =
        test_path("state-stale-save-conflicting-outbound-delivery");
    let stale_writer = TestStore::new(&path);
    let enqueue_writer = stale_writer.handle();
    let session = Session::new(SessionScope::new("lark", "chat:oc_123").expect("valid scope"));
    let session_id = session.id().clone();
    let delivery = outbound_delivery_fixture("out_1", session_id.clone(), 10);
    let conflicting_delivery = outbound_delivery_fixture("out_1", session_id, 11);
    let mut initial = RuntimeState::new();
    initial.upsert_session(session);
    stale_writer
        .save(&initial)
        .expect("initial state should save");
    let mut stale_snapshot = stale_writer.load().expect("state should load");
    assert_eq!(
        stale_snapshot
            .enqueue_outbound_delivery(conflicting_delivery.clone())
            .expect("conflicting stale delivery should enqueue in the stale snapshot"),
        OutboundDeliveryEnqueueStatus::Queued
    );

    let status = enqueue_writer
        .enqueue_outbound_delivery(delivery.clone())
        .expect("current delivery should persist before send");
    assert_eq!(status, OutboundDeliveryEnqueueStatus::Queued);

    let err = stale_writer
        .save(&stale_snapshot)
        .expect_err("stale save with a conflicting outbound delivery should fail closed");

    assert!(err.contains("conflicting outbound delivery out_1"));
    let loaded = stale_writer.load().expect("state should load");
    assert_eq!(loaded.outbound_delivery(delivery.id()), Some(&delivery));
    assert_ne!(
        loaded.outbound_delivery(delivery.id()),
        Some(&conflicting_delivery)
    );
}

#[test]
fn outbound_state_store_stale_save_fails_closed_when_outbound_session_is_missing() {
    let path =
        test_path("state-stale-save-missing-outbound-session");
    let stale_writer = TestStore::new(&path);
    let enqueue_writer = stale_writer.handle();
    let stale_snapshot = stale_writer.load().expect("missing state should load");
    let session = Session::new(SessionScope::new("lark", "chat:oc_123").expect("valid scope"));
    let session_id = session.id().clone();
    let delivery = outbound_delivery_fixture("out_1", session_id.clone(), 10);
    let mut current = RuntimeState::new();
    current.upsert_session(session);
    enqueue_writer
        .save(&current)
        .expect("current session state should save");
    let status = enqueue_writer
        .enqueue_outbound_delivery(delivery.clone())
        .expect("delivery should persist before send");
    assert_eq!(status, OutboundDeliveryEnqueueStatus::Queued);

    let err = stale_writer
        .save(&stale_snapshot)
        .expect_err("stale save without the referenced session should fail closed");

    assert!(err.contains("references unknown session"));
    let loaded = stale_writer.load().expect("state should load");
    assert!(loaded.session(&session_id).is_some());
    assert_eq!(loaded.outbound_delivery(delivery.id()), Some(&delivery));
}

#[test]
fn outbound_state_store_does_not_return_status_when_outbound_enqueue_fails() {
    let path = test_path("state-outbound-delivery-persist-failure");
    let store = TestStore::new(&path);
    let session = Session::new(SessionScope::new("lark", "chat:oc_123").expect("valid scope"));
    let session_id = session.id().clone();
    let delivery = outbound_delivery_fixture("out_1", session_id, 10);
    let mut initial = RuntimeState::new();
    initial.upsert_session(session);

    store.save(&initial).expect("initial state should save");
    store.fail_next_write_before_replace();

    let result = store.enqueue_outbound_delivery(delivery);

    let err = result.expect_err("failed persistence must not return a sendable status");
    assert!(err.contains("failed to save runtime state"));

    let loaded = store.load().expect("state should still load");
    assert!(
        loaded.outbound_deliveries().is_empty(),
        "failed persistence must not leave a sendable outbound delivery on disk"
    );
}

fn outbound_delivery_fixture(
    id: &str,
    session_id: SessionId,
    created_at_unix: u64,
) -> OutboundDeliveryRecord {
    let message = Message::new(
        MessageId::new(&format!("msg_{id}")).expect("valid message id"),
        Some(session_id.clone()),
        MessageAuthor::Agent,
        MessageContent::text("hello").expect("valid text"),
        created_at_unix,
    );

    OutboundDeliveryRecord::new(
        OutboundDeliveryId::new(id).expect("valid outbound id"),
        session_id,
        message,
        created_at_unix,
    )
    .expect("valid outbound delivery")
}

fn test_path(name: &str) -> String {
    format!("{name}/runtime.state.json")
}

/// A store whose file is held in memory, and whose next write can be made to fail.
struct TestStore {
    disk: Rc<Disk>,
}

struct Disk {
    store: RefCell<StateStore>,
    next_write: RefCell<Option<DiskReport>>,
    next_sync: RefCell<Option<DiskReport>>,
}

#[allow(dead_code)]
impl TestStore {
    fn new(path: &str) -> TestStore {
        TestStore {
            disk: Rc::new(Disk {
                store: RefCell::new(StateStore::new(path)),
                next_write: RefCell::new(None),
                next_sync: RefCell::new(None),
            }),
        }
    }

    /// Another handle on the same file.
    fn handle(&self) -> TestStore {
        TestStore {
            disk: Rc::clone(&self.disk),
        }
    }

    fn file_exists(&self) -> bool {
        !matches!(self.disk.store.borrow().content, StateFileContent::Missing)
    }

    fn put(&self, content: StateFileContent) {
        self.disk.store.borrow_mut().refresh(content);
    }

    fn fail_next_write_before_replace(&self) {
        self.disk
            .next_write
            .replace(Some(DiskReport::NotReplaced("injected failure".to_owned())));
    }

    fn fail_next_write_after_replace(&self) {
        self.disk
            .next_write
            .replace(Some(DiskReport::Replaced("injected failure".to_owned())));
    }

    fn fail_next_parent_sync(&self) {
        self.disk
            .next_sync
            .replace(Some(DiskReport::NotReplaced("injected failure".to_owned())));
    }

    fn settle<T>(&self, decided: Result<Transition<T>, String>) -> Result<T, String> {
        let transition = decided?;
        let report = match &transition.action {
            StoreAction::Keep => DiskReport::Done,
            StoreAction::ConfirmDurable => self.disk.next_sync.take().unwrap_or(DiskReport::Done),
            StoreAction::Write(_) => self.disk.next_write.take().unwrap_or(DiskReport::Done),
        };
        self.disk.store.borrow_mut().settle(transition, report)
    }

    fn load(&self) -> Result<RuntimeState, String> {
        self.disk.store.borrow().load()
    }

    fn save(&self, state: &RuntimeState) -> Result<(), String> {
        let decided = self.disk.store.borrow().save(state);
        self.settle(decided)
    }

    fn enqueue_outbound_delivery(
        &self,
        delivery: OutboundDeliveryRecord,
    ) -> Result<OutboundDeliveryEnqueueStatus, String> {
        let decided = self.disk.store.borrow().enqueue_outbound_delivery(delivery);
        self.settle(decided)
    }
}

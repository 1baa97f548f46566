use std::cell::RefCell;
use std::rc::Rc;

use ferris_agent_bridge::event::{Event, EventId, EventKind, EventSource, InboundEventRecordStatus};
use ferris_agent_bridge::message::Message;
use ferris_agent_bridge::state::RuntimeState;
use ferris_agent_bridge::store::{
    DiskReport, StateFileContent, StateStore, StoreAction, Transition,
};

#[test]
fn inbound_state_store_round_trips_inbound_event_ledger() {
    let path = test_path("state-inbound-event-round-trip");
    let store = TestStore::new(&path);
    let event = event_fixture("evt_1", 10);
    let mut state = RuntimeState::new();

    assert_eq!(
        state
            .record_inbound_event(&event)
            .expect("event should record"),
        InboundEventRecordStatus::Recorded
    );

    store.save(&state).expect("state should save");
    let loaded = store.load().expect("state should load");

    let record = loaded
        .inbound_event(&event.id)
        .expect("inbound event record should exist");
    assert_eq!(record.received_at_unix(), 10);
    assert!(record.recorded_at_unix() >= 10);
    assert_eq!(loaded, state);
}

#[test]
fn inbound_state_store_persists_inbound_event_before_returning_status() {
    let path = test_path("state-inbound-event-ack-after-persist");
    let store = TestStore::new(&path);
    let event = event_fixture("evt_1", 10);

    let status = store
        .persist_inbound_event(&event)
        .expect("persisted event should return a status that may be acknowledged");

    assert_eq!(status, InboundEventRecordStatus::Recorded);

    let loaded = store.load().expect("state should load");
    let record = loaded
        .inbound_event(&event.id)
        .expect("status must only be returned after the event is persisted");
    assert_eq!(record.received_at_unix(), 10);
    assert!(record.recorded_at_unix() >= 10);
}

#[test]
fn inbound_state_store_returns_duplicate_status_after_existing_record() {
    let path = test_path("state-inbound-event-duplicate-ack");
    let store = TestStore::new(&path);
    let event = event_fixture("evt_1", 10);

    let first = store
        .persist_inbound_event(&event)
        .expect("first event should persist");
    assert_eq!(first, InboundEventRecordStatus::Recorded);

    let before_duplicate = store.load().expect("state should load");
    let first_record = before_duplicate
        .inbound_event(&event.id)
        .expect("event should be persisted")
        .clone();

    let duplicate = store
        .persist_inbound_event(&event)
        .expect("duplicate event should still return a status that may be acknowledged");

    assert_eq!(duplicate, InboundEventRecordStatus::Duplicate);

    let loaded = store.load().expect("state should load");
    assert_eq!(loaded.inbound_events().len(), 1);
    assert_eq!(loaded.inbound_events()[0], first_record);
}

#[test]
fn inbound_state_store_save_preserves_inbound_events_from_stale_snapshot() {
    let path = test_path("state-stale-save-preserves-inbound");
    let stale_writer = TestStore::new(&path);
    let ack_writer = stale_writer.handle();
    let stale_snapshot = stale_writer.load().expect("empty state should load");
    let event = event_fixture("evt_1", 10);

    let status = ack_writer
        .persist_inbound_event(&event)
        .expect("event should persist before acknowledgement");
    assert_eq!(status, InboundEventRecordStatus::Recorded);

    stale_writer
        .save(&stale_snapshot)
        .expect("stale save should preserve acknowledged inbound records");

    let loaded = stale_writer.load().expect("state should load");
    assert!(
        loaded.has_inbound_event(&event.id),
        "stale save must not erase an acknowledged inbound record"
    );
}

#[test]
fn inbound_state_store_does_not_return_status_when_inbound_event_persist_fails() {
    let path = test_path("state-inbound-event-persist-failure");
    let store = TestStore::new(&path);
    let event = event_fixture("evt_1", 10);

    store
        .save(&RuntimeState::new())
        .expect("initial readable state should save");
    store.fail_next_write_before_replace();

    let result = store.persist_inbound_event(&event);

    let err = result.expect_err("failed persistence must not return an acknowledgeable status");
    assert!(err.contains("failed to save runtime state"));

    let loaded = store.load().expect("state should still load");
    assert!(
        loaded.inbound_events().is_empty(),
        "failed persistence must not leave an acknowledged inbound event on disk"
    );
}

fn event_fixture(id: &str, received_at_unix: u64) -> Event {
    let message = Message::user_text("msg_1", None, "hello", 1).expect("valid message");
    Event::new(
        EventId::new(id).expect("valid event id"),
        EventSource::Platform,
        EventKind::MessageReceived { message },
        received_at_unix,
    )
}

fn test_path(name: &str) -> String {
    format!("{name}/runtime.state.json")
}

/// A store whose file is held in memory, and whose next write can be made to fail.
struct TestStore {
    disk: Rc<Disk>,
}

struct Disk {
    store: RefCell<StateStore>,
    next_write: RefCell<Option<DiskReport>>,
    next_sync: RefCell<Option<DiskReport>>,
}

#[allow(dead_code)]
impl TestStore {
    fn new(path: &str) -> TestStore {
        TestStore {
            disk: Rc::new(Disk {
                store: RefCell::new(StateStore::new(path)),
                next_write: RefCell::new(None),
                next_sync: RefCell::new(None),
            }),
        }
    }

    /// Another handle on the same file.
    fn handle(&self) -> TestStore {
        TestStore {
            disk: Rc::clone(&self.disk),
        }
    }

    fn file_exists(&self) -> bool {
        !matches!(self.disk.store.borrow().content, StateFileContent::Missing)
    }

    fn put(&self, content: StateFileContent) {
        self.disk.store.borrow_mut().refresh(content);
    }

    fn fail_next_write_before_replace(&self) {
        self.disk
            .next_write
            .replace(Some(DiskReport::NotReplaced("injected failure".to_owned())));
    }

    fn fail_next_write_after_replace(&self) {
        self.disk
            .next_write
            .replace(Some(DiskReport::Replaced("injected failure".to_owned())));
    }

    fn fail_next_parent_sync(&self) {
        self.disk
            .next_sync
            .replace(Some(DiskReport::NotReplaced("injected failure".to_owned())));
    }

    fn settle<T>(&self, decided: Result<Transition<T>, String>) -> Result<T, String> {
        let transition = decided?;
        let report = match &transition.action {
            StoreAction::Keep => DiskReport::Done,
            StoreAction::ConfirmDurable => self.disk.next_sync.take().unwrap_or(DiskReport::Done),
            StoreAction::Write(_) => self.disk.next_write.take().unwrap_or(DiskReport::Done),
        };
        self.disk.store.borrow_mut().settle(transition, report)
    }

    fn load(&self) -> Result<RuntimeState, String> {
        self.disk.store.borrow().load()
    }

    fn save(&self, state: &RuntimeState) -> Result<(), String> {
        let decided = self.disk.store.borrow().save(state);
        self.settle(decided)
    }

    fn persist_inbound_event(&self, event: &Event) -> Result<InboundEventRecordStatus, String> {
        let decided = self.disk.store.borrow().persist_inbound_event(event);
        self.settle(decided)
    }
}

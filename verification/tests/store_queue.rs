use std::cell::RefCell;
use std::rc::Rc;

use ferris_agent_bridge::event::{Event, EventId, EventKind, EventSource, InboundEventRecordStatus};
use ferris_agent_bridge::message::{Message, MessageAuthor, MessageContent, MessageId};
use ferris_agent_bridge::session::{Session, SessionId, SessionScope};
use ferris_agent_bridge::state::RuntimeState;
use ferris_agent_bridge::store::{
    DiskReport, StateFileContent, StateStore, StoreAction, Transition,
};

#[test]
fn inbound_message_persistence_records_ledger_and_queue_together() {
    let (store, session_id) = state_store_with_session("queue-persist", "chat:a");
    let event = message_event("evt_1", "msg_1", &session_id, 10);

    let status = store
        .persist_inbound_event(&event)
        .expect("message should persist");

    assert_eq!(status, InboundEventRecordStatus::Recorded);
    let state = store.load().expect("state should load");
    assert!(state.has_inbound_event(&event.id));
    assert_eq!(state.queued_messages().len(), 1);
    assert_eq!(state.queued_messages()[0].event_id(), &event.id);
    assert_eq!(state.queued_messages()[0].message().id.as_str(), "msg_1");
}

#[test]
fn duplicate_inbound_message_does_not_duplicate_the_queue() {
    let (store, session_id) = state_store_with_session("queue-duplicate", "chat:a");
    let event = message_event("evt_1", "msg_1", &session_id, 10);

    assert_eq!(
        store
            .persist_inbound_event(&event)
            .expect("first message should persist"),
        InboundEventRecordStatus::Recorded
    );
    assert_eq!(
        store
            .persist_inbound_event(&event)
            .expect("duplicate message should be recognized"),
        InboundEventRecordStatus::Duplicate
    );

    let state = store.load().expect("state should load");
    assert_eq!(state.inbound_events().len(), 1);
    assert_eq!(state.queued_messages().len(), 1);
}

#[test]
fn duplicate_inbound_messages_still_validate_shape_ownership_and_identity() {
    let (store, session_id) = state_store_with_session("queue-invalid-duplicate", "chat:a");
    let original = message_event("evt_1", "msg_1", &session_id, 10);
    store
        .persist_inbound_event(&original)
        .expect("original message should persist");

    let changed_kind = Event::new(
        original.id.clone(),
        EventSource::Platform,
        EventKind::RuntimeNotice {
            message: "changed kind".to_owned(),
        },
        10,
    );
    let err = store
        .persist_inbound_event(&changed_kind)
        .expect_err("queued message identity must not become a non-message event");
    assert!(err.contains("conflicts with a queued message record"));

    let missing_session = Event::new(
        original.id.clone(),
        EventSource::Platform,
        EventKind::MessageReceived {
            message: Message::user_text("msg_1", None, "hello", 10)
                .expect("valid unbound message"),
        },
        10,
    );
    let err = store
        .persist_inbound_event(&missing_session)
        .expect_err("duplicate message without a session must fail closed");
    assert!(err.contains("must reference a session"));

    let missing_scope = SessionScope::new("lark", "chat:missing").expect("valid scope");
    let unknown_session =
        message_event("evt_1", "msg_1", &SessionId::for_scope(&missing_scope), 10);
    let err = store
        .persist_inbound_event(&unknown_session)
        .expect_err("duplicate message for an unknown session must fail closed");
    assert!(err.contains("references unknown session"));

    let wrong_source = Event::new(
        original.id.clone(),
        EventSource::Runtime,
        EventKind::MessageReceived {
            message: Message::user_text("msg_1", Some(session_id.clone()), "hello", 10)
                .expect("valid message"),
        },
        10,
    );
    let err = store
        .persist_inbound_event(&wrong_source)
        .expect_err("duplicate message from a non-platform source must fail closed");
    assert!(err.contains("must come from a platform"));

    let non_user = Event::new(
        original.id.clone(),
        EventSource::Platform,
        EventKind::MessageReceived {
            message: Message::new(
                MessageId::new("msg_1").expect("valid message id"),
                Some(session_id.clone()),
                MessageAuthor::Agent,
                MessageContent::text("hello").expect("valid text"),
                10,
            ),
        },
        10,
    );
    let err = store
        .persist_inbound_event(&non_user)
        .expect_err("duplicate non-user message must fail closed");
    assert!(err.contains("must contain a user-authored message"));

    let conflicting_payload = Event::new(
        original.id.clone(),
        EventSource::Platform,
        EventKind::MessageReceived {
            message: Message::user_text(
                "msg_1",
                Some(session_id.clone()),
                "different payload",
                10,
            )
            .expect("valid conflicting message"),
        },
        10,
    );
    let err = store
        .persist_inbound_event(&conflicting_payload)
        .expect_err("duplicate id with a different payload must fail closed");
    assert!(err.contains("conflicting queued message event"));

    let conflicting_receive_time = Event::new(
        original.id.clone(),
        EventSource::Platform,
        EventKind::MessageReceived {
            message: Message::user_text("msg_1", Some(session_id), "hello", 10)
                .expect("valid message"),
        },
        11,
    );
    let err = store
        .persist_inbound_event(&conflicting_receive_time)
        .expect_err("duplicate id with a different receive time must fail closed");
    assert!(err.contains("conflicting inbound event"));

    let state = store.load().expect("state should remain readable");
    assert_eq!(state.inbound_events().len(), 1);
    assert_eq!(state.queued_messages().len(), 1);
    assert_eq!(state.queued_messages()[0].event_id(), &original.id);
}

#[test]
fn message_duplicate_without_an_existing_queue_record_fails_closed() {
    let (store, session_id) =
        state_store_with_session("queue-duplicate-without-record", "chat:a");
    let notice = Event::new(
        EventId::new("evt_1").expect("valid event id"),
        EventSource::Runtime,
        EventKind::RuntimeNotice {
            message: "notice".to_owned(),
        },
        10,
    );
    store
        .persist_inbound_event(&notice)
        .expect("non-message event should persist without queue work");
    let message = message_event("evt_1", "msg_1", &session_id, 10);

    let err = store
        .persist_inbound_event(&message)
        .expect_err("message identity without an existing queue record must fail closed");

    assert!(err.contains("has no queued message record"));
    let state = store.load().expect("state should remain readable");
    assert_eq!(state.inbound_events().len(), 1);
    assert!(state.queued_messages().is_empty());
}

#[test]
fn inbound_message_requires_a_known_session_before_persistence() {
    let store = TestStore::new(&test_path("queue-unknown-session"));
    let scope = SessionScope::new("lark", "chat:missing").expect("valid scope");
    let event = message_event("evt_1", "msg_1", &SessionId::for_scope(&scope), 10);

    let err = store
        .persist_inbound_event(&event)
        .expect_err("unknown session must reject queue persistence");

    assert!(err.contains("references unknown session"));
    let state = store.load().expect("state should remain readable");
    assert!(state.inbound_events().is_empty());
    assert!(state.queued_messages().is_empty());
}

#[test]
fn persistence_failure_returns_no_acknowledgeable_status_or_queue_entry() {
    let (store, session_id) = state_store_with_session("queue-persist-failure", "chat:a");
    let event = message_event("evt_1", "msg_1", &session_id, 10);
    store.fail_next_write_before_replace();

    let err = store
        .persist_inbound_event(&event)
        .expect_err("failed persistence must not return a status");

    assert!(err.contains("failed to save runtime state"));
    let state = store.load().expect("previous state should remain readable");
    assert!(state.inbound_events().is_empty());
    assert!(state.queued_messages().is_empty());
}

#[test]
fn stale_snapshot_save_preserves_durably_queued_messages() {
    let (store, session_id) = state_store_with_session("queue-stale-save", "chat:a");
    let stale_snapshot = store.load().expect("state should load");
    let event = message_event("evt_1", "msg_1", &session_id, 10);
    store
        .persist_inbound_event(&event)
        .expect("message should persist");

    store
        .save(&stale_snapshot)
        .expect("stale save should preserve queue additions");

    let state = store.load().expect("state should load");
    assert!(state.has_inbound_event(&event.id));
    assert_eq!(state.queued_messages().len(), 1);
    assert_eq!(state.queued_messages()[0].event_id(), &event.id);
}

#[test]
fn stale_snapshot_save_keeps_durable_messages_before_candidate_additions() {
    const FUTURE_UNIX: u64 = 4_102_444_800;

    let (store, session_id) = state_store_with_session("queue-stale-order", "chat:a");
    let mut stale_snapshot = store.load().expect("state should load");
    let durable_event = message_event("evt_durable", "msg_durable", &session_id, FUTURE_UNIX);
    let candidate_event =
        message_event("evt_candidate", "msg_candidate", &session_id, FUTURE_UNIX);
    store
        .persist_inbound_event(&durable_event)
        .expect("durable message should persist first");
    stale_snapshot
        .record_inbound_event(&candidate_event)
        .expect("candidate message should record in the stale snapshot");

    store
        .save(&stale_snapshot)
        .expect("stale save should append candidate work after durable work");

    let state = store.load().expect("state should load");
    let inbound_ids = state
        .inbound_events()
        .iter()
        .map(|event| event.id().as_str())
        .collect::<Vec<_>>();
    let queued_ids = state
        .queued_messages()
        .iter()
        .map(|queued| queued.event_id().as_str())
        .collect::<Vec<_>>();
    assert_eq!(inbound_ids, ["evt_durable", "evt_candidate"]);
    assert_eq!(queued_ids, ["evt_durable", "evt_candidate"]);
}

#[test]
fn stale_snapshot_rebases_candidate_enqueue_time_after_durable_tail() {
    const FUTURE_UNIX: u64 = 4_102_444_800;

    let (store, session_id) = state_store_with_session("queue-stale-rebase", "chat:a");
    let mut stale_snapshot = store.load().expect("state should load");
    let candidate_event =
        message_event("evt_candidate", "msg_candidate", &session_id, FUTURE_UNIX);
    let durable_event =
        message_event("evt_durable", "msg_durable", &session_id, FUTURE_UNIX + 10);
    stale_snapshot
        .record_inbound_event(&candidate_event)
        .expect("candidate message should record at the earlier time");
    store
        .persist_inbound_event(&durable_event)
        .expect("newer durable message should persist first");

    store
        .save(&stale_snapshot)
        .expect("stale candidate should rebase after the durable queue tail");

    let state = store.load().expect("state should load");
    let queued = state.queued_messages();
    assert_eq!(queued[0].event_id(), &durable_event.id);
    assert_eq!(queued[1].event_id(), &candidate_event.id);
    assert_eq!(queued[0].enqueued_at_unix(), FUTURE_UNIX + 10);
    assert_eq!(queued[1].enqueued_at_unix(), FUTURE_UNIX + 10);
}

#[test]
fn stale_snapshot_without_queue_session_fails_closed() {
    let path = test_path("queue-stale-save-missing-session");
    let stale_writer = TestStore::new(&path);
    let current_writer = stale_writer.handle();
    let stale_snapshot = stale_writer.load().expect("missing state should load");
    let session = Session::new(SessionScope::new("lark", "chat:a").expect("valid scope"));
    let session_id = session.id().clone();
    let event = message_event("evt_1", "msg_1", &session_id, 10);
    let mut current = RuntimeState::new();
    current.upsert_session(session);
    current_writer
        .save(&current)
        .expect("current session should persist");
    current_writer
        .persist_inbound_event(&event)
        .expect("current message should persist");

    let err = stale_writer
        .save(&stale_snapshot)
        .expect_err("stale state without the queue session must fail closed");

    assert!(err.contains("references unknown session"));
    let state = current_writer
        .load()
        .expect("current state should remain readable");
    assert!(state.session(&session_id).is_some());
    assert!(state.has_inbound_event(&event.id));
    assert_eq!(state.queued_messages().len(), 1);
    assert_eq!(state.queued_messages()[0].event_id(), &event.id);
}

#[test]
fn stale_snapshot_save_rejects_shared_event_ids_with_different_queue_presence() {
    const FUTURE_UNIX: u64 = 4_102_444_800;

    for (label, save_message_first) in [
        ("queue-stale-kind-message-first", true),
        ("queue-stale-kind-notice-first", false),
    ] {
        let (store, session_id) = state_store_with_session(label, "chat:a");
        let initial = store.load().expect("state should load");
        let mut message_snapshot = initial.clone();
        let mut notice_snapshot = initial;
        let message = message_event("evt_shared", "msg_shared", &session_id, FUTURE_UNIX);
        let notice = Event::new(
            EventId::new("evt_shared").expect("valid event id"),
            EventSource::Runtime,
            EventKind::RuntimeNotice {
                message: "notice".to_owned(),
            },
            FUTURE_UNIX,
        );
        message_snapshot
            .record_inbound_event(&message)
            .expect("message snapshot should record");
        notice_snapshot
            .record_inbound_event(&notice)
            .expect("notice snapshot should record");

        let (winner, conflicting) = if save_message_first {
            (&message_snapshot, &notice_snapshot)
        } else {
            (&notice_snapshot, &message_snapshot)
        };
        store.save(winner).expect("first snapshot should persist");
        let err = store
            .save(conflicting)
            .expect_err("shared event id with different queue presence must fail closed");

        assert!(err.contains("conflicting inbound event queue identity"));
        let state = store.load().expect("winning state should remain readable");
        assert_eq!(state.inbound_events().len(), 1);
        assert_eq!(
            state.queued_messages().len(),
            usize::from(save_message_first)
        );
    }
}

#[test]
fn stale_snapshot_save_rejects_conflicting_shared_message_payloads() {
    const FUTURE_UNIX: u64 = 4_102_444_800;

    let (store, session_id) = state_store_with_session("queue-stale-payload", "chat:a");
    let initial = store.load().expect("state should load");
    let mut first_snapshot = initial.clone();
    let mut second_snapshot = initial;
    let first = message_event("evt_shared", "msg_shared", &session_id, FUTURE_UNIX);
    let second = Event::new(
        EventId::new("evt_shared").expect("valid event id"),
        EventSource::Platform,
        EventKind::MessageReceived {
            message: Message::user_text(
                "msg_shared",
                Some(session_id),
                "different payload",
                FUTURE_UNIX,
            )
            .expect("valid conflicting message"),
        },
        FUTURE_UNIX,
    );
    first_snapshot
        .record_inbound_event(&first)
        .expect("first snapshot should record");
    second_snapshot
        .record_inbound_event(&second)
        .expect("second snapshot should record");
    store
        .save(&first_snapshot)
        .expect("first snapshot should persist");

    let err = store
        .save(&second_snapshot)
        .expect_err("conflicting shared queue payload must fail closed");

    assert!(err.contains("conflicting inbound event queue identity"));
    let state = store.load().expect("first state should remain readable");
    assert_eq!(
        state.queued_messages()[0].message().content.as_text(),
        Some("hello")
    );
}

#[test]
fn stale_snapshot_keeps_durable_time_for_compatible_shared_queue_record() {
    const FUTURE_UNIX: u64 = 4_102_444_800;

    let (store, session_id) =
        state_store_with_session("queue-stale-shared-enqueue-time", "chat:a");
    let initial = store.load().expect("state should load");
    let mut durable_snapshot = initial.clone();
    let mut stale_snapshot = initial;
    let shared_event = message_event("evt_shared", "msg_shared", &session_id, FUTURE_UNIX);
    let candidate_only_event = message_event(
        "evt_candidate",
        "msg_candidate",
        &session_id,
        FUTURE_UNIX + 10,
    );
    durable_snapshot
        .record_inbound_event(&shared_event)
        .expect("durable snapshot should record the shared event");
    stale_snapshot
        .record_inbound_event(&candidate_only_event)
        .expect("stale snapshot should record candidate-only work");
    stale_snapshot
        .record_inbound_event(&shared_event)
        .expect("stale snapshot should record the shared event at its later queue tail");
    assert_eq!(
        stale_snapshot.queued_messages()[1].enqueued_at_unix(),
        FUTURE_UNIX + 10
    );
    store
        .save(&durable_snapshot)
        .expect("durable snapshot should persist first");

    store
        .save(&stale_snapshot)
        .expect("compatible shared identity should keep the durable queue record");

    let state = store.load().expect("merged state should load");
    let queued = state.queued_messages();
    assert_eq!(queued.len(), 2);
    assert_eq!(queued[0].event_id(), &shared_event.id);
    assert_eq!(queued[0].enqueued_at_unix(), FUTURE_UNIX);
    assert_eq!(queued[1].event_id(), &candidate_only_event.id);
    assert_eq!(queued[1].enqueued_at_unix(), FUTURE_UNIX + 10);
}

fn state_store_with_session(label: &str, scope: &str) -> (TestStore, SessionId) {
    let store = TestStore::new(&test_path(label));
    let session = Session::new(SessionScope::new("lark", scope).expect("valid scope"));
    let session_id = session.id().clone();
    let mut state = RuntimeState::new();
    state.upsert_session(session);
    store.save(&state).expect("session should persist");
    (store, session_id)
}

fn message_event(
    event_id: &str,
    message_id: &str,
    session_id: &SessionId,
    received_at_unix: u64,
) -> Event {
    Event::new(
        EventId::new(event_id).expect("valid event id"),
        EventSource::Platform,
        EventKind::MessageReceived {
            message: Message::user_text(
                message_id,
                Some(session_id.clone()),
                "hello",
                received_at_unix,
            )
            .expect("valid message"),
        },
        received_at_unix,
    )
}

fn test_path(name: &str) -> String {
    format!("{name}/runtime.state.json")
}

/// A store whose file is held in memory, and whose next write can be made to fail.
struct TestStore {
    disk: Rc<Disk>,
}

struct Disk {
    store: RefCell<StateStore>,
    next_write: RefCell<Option<DiskReport>>,
    next_sync: RefCell<Option<DiskReport>>,
}

#[allow(dead_code)]
impl TestStore {
    fn new(path: &str) -> TestStore {
        TestStore {
            disk: Rc::new(Disk {
                store: RefCell::new(StateStore::new(path)),
                next_write: RefCell::new(None),
                next_sync: RefCell::new(None),
            }),
        }
    }

    /// Another handle on the same file.
    fn handle(&self) -> TestStore {
        TestStore {
            disk: Rc::clone(&self.disk),
        }
    }

    fn file_exists(&self) -> bool {
        !matches!(self.disk.store.borrow().content, StateFileContent::Missing)
    }

    fn put(&self, content: StateFileContent) {
        self.disk.store.borrow_mut().refresh(content);
    }

    fn fail_next_write_before_replace(&self) {
        self.disk
            .next_write
            .replace(Some(DiskReport::NotReplaced("injected failure".to_owned())));
    }

    fn fail_next_write_after_replace(&self) {
        self.disk
            .next_write
            .replace(Some(DiskReport::Replaced("injected failure".to_owned())));
    }

    fn fail_next_parent_sync(&self) {
        self.disk
            .next_sync
            .replace(Some(DiskReport::NotReplaced("injected failure".to_owned())));
    }

    fn settle<T>(&self, decided: Result<Transition<T>, String>) -> Result<T, String> {
        let transition = decided?;
        let report = match &transition.action {
            StoreAction::Keep => DiskReport::Done,
            StoreAction::ConfirmDurable => self.disk.next_sync.take().unwrap_or(DiskReport::Done),
            StoreAction::Write(_) => self.disk.next_write.take().unwrap_or(DiskReport::Done),
        };
        self.disk.store.borrow_mut().settle(transition, report)
    }

    fn load(&self) -> Result<RuntimeState, String> {
        self.disk.store.borrow().load()
    }

    fn save(&self, state: &RuntimeState) -> Result<(), String> {
        let decided = self.disk.store.borrow().save(state);
        self.settle(decided)
    }

    fn persist_inbound_event(&self, event: &Event) -> Result<InboundEventRecordStatus, String> {
        let decided = self.disk.store.borrow().persist_inbound_event(event);
        self.settle(decided)
    }
}

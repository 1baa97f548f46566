use std::cell::RefCell;
use std::rc::Rc;

use ferris_agent_bridge::message::{Message, MessageAuthor, MessageContent, MessageId};
use ferris_agent_bridge::outbox::{
    OutboundDeliveryEnqueueStatus, OutboundDeliveryId, OutboundDeliveryRecord,
    OutboundDeliveryStatus, OutboundRetryPolicy,
};
use ferris_agent_bridge::session::{Session, SessionId, SessionScope};
use ferris_agent_bridge::state::RuntimeState;
use ferris_agent_bridge::store::{
    DiskReport, StateFileContent, StateStore, StoreAction, Transition,
};

const FUTURE_UNIX: u64 = 4_102_444_800;

const CONFIRMED_NOT_ACCEPTED: &str = "provider confirmed non-acceptance";

#[test]
fn explicit_resolution_persists_confirmed_outcomes() {
    let store = state_store_with_session("outbound-resolution-outcomes");
    let session_id = only_session_id(&store);
    let delivered_id = OutboundDeliveryId::new("out_delivered").expect("valid id");
    let failed_id = OutboundDeliveryId::new("out_failed").expect("valid id");
    make_uncertain(&store, &delivered_id, &session_id, FUTURE_UNIX);
    make_uncertain(&store, &failed_id, &session_id, FUTURE_UNIX + 10);

    let delivered = store
        .resolve_outbound_delivery_as_delivered(&delivered_id, FUTURE_UNIX + 3)
        .expect("confirmed acceptance should persist");
    let failed = store
        .resolve_outbound_delivery_as_failed(
            &failed_id,
            FUTURE_UNIX + 13,
            CONFIRMED_NOT_ACCEPTED,
        )
        .expect("confirmed non-acceptance should persist");

    assert_eq!(delivered.status(), OutboundDeliveryStatus::Delivered);
    assert_eq!(delivered.delivery_attempts(), 1);
    assert_eq!(delivered.delivered_at_unix(), Some(FUTURE_UNIX + 3));
    assert_eq!(delivered.last_error(), None);
    assert_eq!(failed.status(), OutboundDeliveryStatus::Failed);
    assert_eq!(failed.delivery_attempts(), 1);
    assert_eq!(failed.updated_at_unix(), FUTURE_UNIX + 13);
    assert_eq!(failed.last_error(), Some(CONFIRMED_NOT_ACCEPTED));
    let policy = OutboundRetryPolicy::new(2, 10, 40).expect("valid retry policy");
    assert_eq!(policy.next_attempt_at_unix(&failed), Some(FUTURE_UNIX + 23));
    let reloaded = store.load().expect("resolved state should load");
    assert_eq!(reloaded.outbound_delivery(&delivered_id), Some(&delivered));
    assert_eq!(reloaded.outbound_delivery(&failed_id), Some(&failed));
}

#[test]
fn resolution_rejects_invalid_sources_and_empty_reason_without_writing() {
    let store = state_store_with_session("outbound-resolution-invalid");
    let session_id = only_session_id(&store);
    let pending_id = OutboundDeliveryId::new("out_pending").expect("valid id");
    enqueue(&store, &pending_id, &session_id, FUTURE_UNIX);
    let pending_before = store.load().expect("pending state should load");

    let err = store
        .resolve_outbound_delivery_as_delivered(&pending_id, FUTURE_UNIX + 1)
        .expect_err("pending delivery cannot be resolved");
    assert!(err.contains("from Pending"));
    assert_eq!(store.load().expect("state should load"), pending_before);

    let err = store
        .resolve_outbound_delivery_as_failed(
            &pending_id,
            FUTURE_UNIX + 1,
            CONFIRMED_NOT_ACCEPTED,
        )
        .expect_err("pending delivery cannot be resolved as failed");
    assert!(err.contains("from Pending"));
    assert_eq!(store.load().expect("state should load"), pending_before);

    let (uncertain_store, uncertain_id) =
        state_store_with_uncertain("outbound-resolution-empty-reason");
    let uncertain_before = uncertain_store.load().expect("uncertain state should load");
    let err = uncertain_store
        .resolve_outbound_delivery_as_failed(&uncertain_id, FUTURE_UNIX + 13, "  ")
        .expect_err("failed resolution requires a reason");
    assert!(err.contains("resolution failure is empty"));
    assert_eq!(
        uncertain_store.load().expect("state should load"),
        uncertain_before
    );
}

#[test]
fn delivered_resolution_pre_replace_failure_leaves_uncertain_state() {
    let (store, delivery_id) = state_store_with_uncertain("outbound-resolution-pre-failure");
    store.fail_next_write_before_replace();

    let err = store
        .resolve_outbound_delivery_as_delivered(&delivery_id, FUTURE_UNIX + 3)
        .expect_err("pre-replace failure must return no resolution");

    assert!(err.contains("failed to save runtime state"));
    assert_eq!(
        delivery_status(&store, &delivery_id),
        OutboundDeliveryStatus::Uncertain
    );
    let resolved = store
        .resolve_outbound_delivery_as_delivered(&delivery_id, FUTURE_UNIX + 3)
        .expect("retry should resolve the still-uncertain record");
    assert_eq!(resolved.status(), OutboundDeliveryStatus::Delivered);
}

#[test]
fn delivered_resolution_post_replace_replay_confirms_durability() {
    let (store, delivery_id) =
        state_store_with_uncertain("outbound-resolution-delivered-replay");
    store.fail_next_write_after_replace();

    let err = store
        .resolve_outbound_delivery_as_delivered(&delivery_id, FUTURE_UNIX + 3)
        .expect_err("post-replace failure must return no resolution");

    assert!(err.contains("failed to save runtime state"));
    assert_eq!(
        delivery_status(&store, &delivery_id),
        OutboundDeliveryStatus::Delivered
    );
    let conflict = store
        .resolve_outbound_delivery_as_delivered(&delivery_id, FUTURE_UNIX + 4)
        .expect_err("replay timestamp must match the persisted resolution");
    assert!(conflict.contains("timestamp conflicts"));

    store.fail_next_parent_sync();
    let retry_err = store
        .resolve_outbound_delivery_as_delivered(&delivery_id, FUTURE_UNIX + 3)
        .expect_err("matching replay must confirm durability");
    assert!(retry_err.contains("failed to confirm runtime state"));
    let replayed = store
        .resolve_outbound_delivery_as_delivered(&delivery_id, FUTURE_UNIX + 3)
        .expect("matching replay should succeed after durability confirmation");
    assert_eq!(replayed.status(), OutboundDeliveryStatus::Delivered);
    assert_eq!(replayed.delivered_at_unix(), Some(FUTURE_UNIX + 3));
}

#[test]
fn failed_resolution_post_replace_replay_requires_exact_evidence() {
    let (store, delivery_id) = state_store_with_uncertain("outbound-resolution-failed-replay");
    store.fail_next_write_after_replace();

    let err = store
        .resolve_outbound_delivery_as_failed(
            &delivery_id,
            FUTURE_UNIX + 3,
            CONFIRMED_NOT_ACCEPTED,
        )
        .expect_err("post-replace failure must return no resolution");

    assert!(err.contains("failed to save runtime state"));
    assert_eq!(
        delivery_status(&store, &delivery_id),
        OutboundDeliveryStatus::Failed
    );
    let time_conflict = store
        .resolve_outbound_delivery_as_failed(
            &delivery_id,
            FUTURE_UNIX + 4,
            CONFIRMED_NOT_ACCEPTED,
        )
        .expect_err("replay timestamp must match");
    assert!(time_conflict.contains("conflicts with persisted state"));
    let reason_conflict = store
        .resolve_outbound_delivery_as_failed(
            &delivery_id,
            FUTURE_UNIX + 3,
            "different evidence",
        )
        .expect_err("replay reason must match");
    assert!(reason_conflict.contains("conflicts with persisted state"));

    store.fail_next_parent_sync();
    let retry_err = store
        .resolve_outbound_delivery_as_failed(
            &delivery_id,
            FUTURE_UNIX + 3,
            CONFIRMED_NOT_ACCEPTED,
        )
        .expect_err("matching replay must confirm durability");
    assert!(retry_err.contains("failed to confirm runtime state"));
    let replayed = store
        .resolve_outbound_delivery_as_failed(
            &delivery_id,
            FUTURE_UNIX + 3,
            CONFIRMED_NOT_ACCEPTED,
        )
        .expect("matching replay should succeed after durability confirmation");
    assert_eq!(replayed.status(), OutboundDeliveryStatus::Failed);
    assert_eq!(replayed.last_error(), Some(CONFIRMED_NOT_ACCEPTED));
}

#[test]
fn resolution_does_not_create_missing_state() {
    let store =
        TestStore::new(&test_path("outbound-resolution-missing"));
    let delivery_id = OutboundDeliveryId::new("out_missing").expect("valid id");

    let delivered_err = store
        .resolve_outbound_delivery_as_delivered(&delivery_id, FUTURE_UNIX)
        .expect_err("missing delivery cannot resolve");
    let failed_err = store
        .resolve_outbound_delivery_as_failed(&delivery_id, FUTURE_UNIX, CONFIRMED_NOT_ACCEPTED)
        .expect_err("missing delivery cannot resolve");

    assert!(delivered_err.contains("unknown outbound delivery id"));
    assert!(failed_err.contains("unknown outbound delivery id"));
    assert!(!store.file_exists());
}

#[test]
fn stale_uncertain_snapshot_cannot_restore_resolved_state() {
    let (store, delivery_id) = state_store_with_uncertain("outbound-resolution-stale-save");
    let stale = store.load().expect("uncertain snapshot should load");
    store
        .resolve_outbound_delivery_as_delivered(&delivery_id, FUTURE_UNIX + 3)
        .expect("delivery should resolve");

    let err = store
        .save(&stale)
        .expect_err("stale uncertain snapshot must fail closed");

    assert!(err.contains("conflicting outbound delivery"));
    assert_eq!(
        delivery_status(&store, &delivery_id),
        OutboundDeliveryStatus::Delivered
    );
}

fn state_store_with_uncertain(label: &str) -> (TestStore, OutboundDeliveryId) {
    let store = state_store_with_session(label);
    let session_id = only_session_id(&store);
    let delivery_id = OutboundDeliveryId::new("out_uncertain").expect("valid id");
    make_uncertain(&store, &delivery_id, &session_id, FUTURE_UNIX);
    (store, delivery_id)
}

fn state_store_with_session(label: &str) -> TestStore {
    let store = TestStore::new(&test_path(label));
    let mut state = RuntimeState::new();
    state.upsert_session(Session::new(
        SessionScope::new("lark", "chat:oc_123").expect("valid scope"),
    ));
    store.save(&state).expect("session should persist");
    store
}

fn only_session_id(store: &TestStore) -> SessionId {
    store
        .load()
        .expect("state should load")
        .sessions()
        .first()
        .expect("session should exist")
        .id()
        .clone()
}

fn make_uncertain(
    store: &TestStore,
    id: &OutboundDeliveryId,
    session_id: &SessionId,
    created_at_unix: u64,
) {
    enqueue(store, id, session_id, created_at_unix);
    store
        .claim_next_outbound_delivery(created_at_unix + 1)
        .expect("delivery should claim");
    store
        .mark_outbound_delivery_uncertain(
            id,
            created_at_unix + 2,
            "provider acceptance is unknown",
        )
        .expect("delivery should become uncertain");
}

fn enqueue(
    store: &TestStore,
    id: &OutboundDeliveryId,
    session_id: &SessionId,
    created_at_unix: u64,
) {
    let message = Message::new(
        MessageId::new(&format!("msg_{}", id.as_str())).expect("valid message id"),
        Some(session_id.clone()),
        MessageAuthor::Agent,
        MessageContent::text("reply").expect("valid text"),
        created_at_unix,
    );
    store
        .enqueue_outbound_delivery(
            OutboundDeliveryRecord::new(
                id.clone(),
                session_id.clone(),
                message,
                created_at_unix,
            )
            .expect("valid outbound delivery"),
        )
        .expect("delivery should enqueue");
}

fn delivery_status(store: &TestStore, id: &OutboundDeliveryId) -> OutboundDeliveryStatus {
    store
        .load()
        .expect("state should load")
        .outbound_delivery(id)
        .expect("delivery should exist")
        .status()
}

fn test_path(name: &str) -> String {
    format!("{name}/runtime.state.json")
}

/// A store whose file is held in memory, and whose next write can be made to fail.
struct TestStore {
    disk: Rc<Disk>,
}

struct Disk {
    store: RefCell<StateStore>,
    next_write: RefCell<Option<DiskReport>>,
    next_sync: RefCell<Option<DiskReport>>,
}

#[allow(dead_code)]
impl TestStore {
    fn new(path: &str) -> TestStore {
        TestStore {
            disk: Rc::new(Disk {
                store: RefCell::new(StateStore::new(path)),
                next_write: RefCell::new(None),
                next_sync: RefCell::new(None),
            }),
        }
    }

    /// Another handle on the same file.
    fn handle(&self) -> TestStore {
        TestStore {
            disk: Rc::clone(&self.disk),
        }
    }

    fn file_exists(&self) -> bool {
        !matches!(self.disk.store.borrow().content, StateFileContent::Missing)
    }

    fn put(&self, content: StateFileContent) {
        self.disk.store.borrow_mut().refresh(content);
    }

    fn fail_next_write_before_replace(&self) {
        self.disk
            .next_write
            .replace(Some(DiskReport::NotReplaced("injected failure".to_owned())));
    }

    fn fail_next_write_after_replace(&self) {
        self.disk
            .next_write
            .replace(Some(DiskReport::Replaced("injected failure".to_owned())));
    }

    fn fail_next_parent_sync(&self) {
        self.disk
            .next_sync
            .replace(Some(DiskReport::NotReplaced("injected failure".to_owned())));
    }

    fn settle<T>(&self, decided: Result<Transition<T>, String>) -> Result<T, String> {
        let transition = decided?;
        let report = match &transition.action {
            StoreAction::Keep => DiskReport::Done,
            StoreAction::ConfirmDurable => self.disk.next_sync.take().unwrap_or(DiskReport::Done),
            StoreAction::Write(_) => self.disk.next_write.take().unwrap_or(DiskReport::Done),
        };
        self.disk.store.borrow_mut().settle(transition, report)
    }

    fn load(&self) -> Result<RuntimeState, String> {
        self.disk.store.borrow().load()
    }

    fn save(&self, state: &RuntimeState) -> Result<(), String> {
        let decided = self.disk.store.borrow().save(state);
        self.settle(decided)
    }

    fn enqueue_outbound_delivery(
        &self,
        delivery: OutboundDeliveryRecord,
    ) -> Result<OutboundDeliveryEnqueueStatus, String> {
        let decided = self.disk.store.borrow().enqueue_outbound_delivery(delivery);
        self.settle(decided)
    }

    fn claim_next_outbound_delivery(
        &self,
        at: u64,
    ) -> Result<Option<OutboundDeliveryRecord>, String> {
        let decided = self.disk.store.borrow().claim_next_outbound_delivery(at);
        self.settle(decided)
    }

    fn mark_outbound_delivery_uncertain(
        &self,
        id: &OutboundDeliveryId,
        at: u64,
        error: &str,
    ) -> Result<OutboundDeliveryRecord, String> {
        let decided = self.disk.store.borrow().mark_outbound_delivery_uncertain(id, at, error);
        self.settle(decided)
    }

    fn resolve_outbound_delivery_as_delivered(
        &self,
        id: &OutboundDeliveryId,
        at: u64,
    ) -> Result<OutboundDeliveryRecord, String> {
        let decided = self.disk.store.borrow().resolve_outbound_delivery_as_delivered(id, at);
        self.settle(decided)
    }

    fn resolve_outbound_delivery_as_failed(
        &self,
        id: &OutboundDeliveryId,
        at: u64,
        reason: &str,
    ) -> Result<OutboundDeliveryRecord, String> {
        let decided = self.disk.store.borrow().resolve_outbound_delivery_as_failed(id, at, reason);
        self.settle(decided)
    }
}

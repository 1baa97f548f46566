use std::cell::RefCell;
use std::rc::Rc;

use ferris_agent_bridge::message::{Message, MessageAuthor, MessageContent, MessageId};
use ferris_agent_bridge::outbox::{
    OutboundDeliveryEnqueueStatus, OutboundDeliveryId, OutboundDeliveryRecord,
    OutboundDeliveryStatus, OutboundDeliveryStartupRecoveryReport,
};
use ferris_agent_bridge::session::{Session, SessionId, SessionScope};
use ferris_agent_bridge::state::RuntimeState;
use ferris_agent_bridge::store::{
    DiskReport, StateFileContent, StateStore, StoreAction, Transition,
};

const FUTURE_UNIX: u64 = 4_102_444_800;

#[test]
fn startup_recovery_classifies_ambiguous_outbound_deliveries_without_retrying() {
    let store = state_store_with_session("outbound-recovery-classification");
    let session_id = only_session_id(&store);
    let delivering_id = OutboundDeliveryId::new("out_delivering").expect("valid id");
    let later_delivering_id =
        OutboundDeliveryId::new("out_delivering_later").expect("valid id");
    let uncertain_id = OutboundDeliveryId::new("out_uncertain").expect("valid id");
    let failed_id = OutboundDeliveryId::new("out_failed").expect("valid id");
    let delivered_id = OutboundDeliveryId::new("out_delivered").expect("valid id");
    let pending_id = OutboundDeliveryId::new("out_pending").expect("valid id");

    enqueue(&store, &delivering_id, &session_id, FUTURE_UNIX);
    store
        .claim_next_outbound_delivery(FUTURE_UNIX + 10)
        .expect("delivery should claim");

    enqueue(&store, &later_delivering_id, &session_id, FUTURE_UNIX + 11);
    store
        .claim_next_outbound_delivery(FUTURE_UNIX + 12)
        .expect("later delivery should claim");

    enqueue(&store, &uncertain_id, &session_id, FUTURE_UNIX + 20);
    store
        .claim_next_outbound_delivery(FUTURE_UNIX + 21)
        .expect("delivery should claim");
    store
        .mark_outbound_delivery_uncertain(
            &uncertain_id,
            FUTURE_UNIX + 22,
            "provider acceptance is unknown",
        )
        .expect("delivery should become uncertain");

    enqueue(&store, &delivered_id, &session_id, FUTURE_UNIX + 30);
    store
        .claim_next_outbound_delivery(FUTURE_UNIX + 31)
        .expect("delivery should claim");
    store
        .mark_outbound_delivery_delivered(&delivered_id, FUTURE_UNIX + 32)
        .expect("delivery should complete");

    enqueue(&store, &failed_id, &session_id, FUTURE_UNIX + 40);
    store
        .claim_next_outbound_delivery(FUTURE_UNIX + 41)
        .expect("delivery should claim");
    store
        .mark_outbound_delivery_failed(
            &failed_id,
            FUTURE_UNIX + 42,
            "provider rejected request",
        )
        .expect("delivery should fail");

    enqueue(&store, &pending_id, &session_id, FUTURE_UNIX + 50);
    let before = store.load().expect("fixture should load");
    let delivering_before = before
        .outbound_delivery(&delivering_id)
        .expect("delivering record should exist")
        .clone();
    let later_delivering_before = before
        .outbound_delivery(&later_delivering_id)
        .expect("later delivering record should exist")
        .clone();
    let uncertain_before = before
        .outbound_delivery(&uncertain_id)
        .expect("uncertain record should exist")
        .clone();
    let failed_before = before
        .outbound_delivery(&failed_id)
        .expect("failed record should exist")
        .clone();
    let delivered_before = before
        .outbound_delivery(&delivered_id)
        .expect("delivered record should exist")
        .clone();
    let pending_before = before
        .outbound_delivery(&pending_id)
        .expect("pending record should exist")
        .clone();

    let report = store
        .reconcile_outbound_deliveries_at_startup(FUTURE_UNIX)
        .expect("startup recovery should tolerate clock rollback");

    assert_eq!(
        report.reconciliation_required_delivery_ids(),
        &[
            delivering_id.clone(),
            later_delivering_id.clone(),
            uncertain_id.clone(),
        ]
    );
    assert!(!report.is_empty());
    let recovered = store.load().expect("recovered state should load");
    let recovered_delivering = recovered
        .outbound_delivery(&delivering_id)
        .expect("recovered delivery should exist");
    assert_eq!(
        recovered_delivering.status(),
        OutboundDeliveryStatus::Uncertain
    );
    assert_eq!(
        recovered_delivering.updated_at_unix(),
        delivering_before.updated_at_unix()
    );
    assert_eq!(
        recovered_delivering.delivery_attempts(),
        delivering_before.delivery_attempts()
    );
    assert!(
        recovered_delivering
            .last_error()
            .is_some_and(|error| !error.trim().is_empty())
    );
    let recovered_later_delivering = recovered
        .outbound_delivery(&later_delivering_id)
        .expect("later recovered delivery should exist");
    assert_eq!(
        recovered_later_delivering.status(),
        OutboundDeliveryStatus::Uncertain
    );
    assert_eq!(
        recovered_later_delivering.updated_at_unix(),
        later_delivering_before.updated_at_unix()
    );
    assert_eq!(
        recovered_later_delivering.delivery_attempts(),
        later_delivering_before.delivery_attempts()
    );
    assert_eq!(
        recovered
            .outbound_delivery(&uncertain_id)
            .expect("existing uncertain delivery should remain"),
        &uncertain_before
    );
    assert_eq!(
        recovered
            .outbound_delivery(&failed_id)
            .expect("failed delivery should remain"),
        &failed_before
    );
    assert_eq!(
        recovered
            .outbound_delivery(&delivered_id)
            .expect("delivered delivery should remain"),
        &delivered_before
    );
    assert_eq!(
        recovered
            .outbound_delivery(&pending_id)
            .expect("pending delivery should remain"),
        &pending_before
    );

    let repeated = store
        .reconcile_outbound_deliveries_at_startup(FUTURE_UNIX + 100)
        .expect("repeated recovery should be stable");
    assert_eq!(repeated, report);
    assert_eq!(store.load().expect("state should load"), recovered);
}

#[test]
fn outbound_recovery_startup_recovery_does_not_create_missing_state() {
    let store =
        TestStore::new(&test_path("outbound-recovery-missing"));

    let report = store
        .reconcile_outbound_deliveries_at_startup(FUTURE_UNIX)
        .expect("missing state should recover as empty");

    assert!(report.is_empty());
    assert!(!store.file_exists());
}

#[test]
fn startup_recovery_pre_replace_failure_leaves_delivering_state() {
    let (store, delivery_id) = state_store_with_delivering("outbound-recovery-pre-failure");
    store.fail_next_write_before_replace();

    let err = store
        .reconcile_outbound_deliveries_at_startup(FUTURE_UNIX + 2)
        .expect_err("pre-replace failure must return no report");

    assert!(err.contains("failed to save runtime state"));
    assert_eq!(
        delivery_status(&store, &delivery_id),
        OutboundDeliveryStatus::Delivering
    );
    let retried = store
        .reconcile_outbound_deliveries_at_startup(FUTURE_UNIX + 2)
        .expect("retry should recover the delivering record");
    assert_eq!(
        retried.reconciliation_required_delivery_ids(),
        std::slice::from_ref(&delivery_id)
    );
}

#[test]
fn startup_recovery_post_replace_failure_reestablishes_durability() {
    let (store, delivery_id) = state_store_with_delivering("outbound-recovery-post-failure");
    store.fail_next_write_after_replace();

    let err = store
        .reconcile_outbound_deliveries_at_startup(FUTURE_UNIX + 2)
        .expect_err("post-replace failure must return no report");

    assert!(err.contains("failed to save runtime state"));
    assert_eq!(
        delivery_status(&store, &delivery_id),
        OutboundDeliveryStatus::Uncertain
    );
    store.fail_next_parent_sync();
    let retry_err = store
        .reconcile_outbound_deliveries_at_startup(FUTURE_UNIX + 3)
        .expect_err("retry must confirm the visible replacement is durable");
    assert!(retry_err.contains("failed to confirm runtime state"));

    let retried = store
        .reconcile_outbound_deliveries_at_startup(FUTURE_UNIX + 3)
        .expect("retry should rebuild the report after durability confirmation");
    assert_eq!(
        retried.reconciliation_required_delivery_ids(),
        std::slice::from_ref(&delivery_id)
    );
}

#[test]
fn stale_delivering_snapshot_cannot_restore_recovered_state() {
    let (store, delivery_id) = state_store_with_delivering("outbound-recovery-stale-save");
    let stale = store.load().expect("delivering snapshot should load");
    store
        .reconcile_outbound_deliveries_at_startup(FUTURE_UNIX + 2)
        .expect("startup recovery should succeed");

    let err = store
        .save(&stale)
        .expect_err("stale snapshot must fail closed");

    assert!(err.contains("conflicting outbound delivery"));
    assert_eq!(
        delivery_status(&store, &delivery_id),
        OutboundDeliveryStatus::Uncertain
    );
}

fn state_store_with_delivering(label: &str) -> (TestStore, OutboundDeliveryId) {
    let store = state_store_with_session(label);
    let session_id = only_session_id(&store);
    let delivery_id = OutboundDeliveryId::new("out_delivering").expect("valid id");
    enqueue(&store, &delivery_id, &session_id, FUTURE_UNIX);
    store
        .claim_next_outbound_delivery(FUTURE_UNIX + 1)
        .expect("delivery should claim");
    (store, delivery_id)
}

fn state_store_with_session(label: &str) -> TestStore {
    let store = TestStore::new(&test_path(label));
    let mut state = RuntimeState::new();
    state.upsert_session(Session::new(
        SessionScope::new("lark", "chat:oc_123").expect("valid scope"),
    ));
    store.save(&state).expect("session should persist");
    store
}

fn only_session_id(store: &TestStore) -> SessionId {
    store
        .load()
        .expect("state should load")
        .sessions()
        .first()
        .expect("session should exist")
        .id()
        .clone()
}

fn enqueue(
    store: &TestStore,
    id: &OutboundDeliveryId,
    session_id: &SessionId,
    created_at_unix: u64,
) {
    let message = Message::new(
        MessageId::new(&format!("msg_{}", id.as_str())).expect("valid message id"),
        Some(session_id.clone()),
        MessageAuthor::Agent,
        MessageContent::text("reply").expect("valid text"),
        created_at_unix,
    );
    store
        .enqueue_outbound_delivery(
            OutboundDeliveryRecord::new(
                id.clone(),
                session_id.clone(),
                message,
                created_at_unix,
            )
            .expect("valid outbound delivery"),
        )
        .expect("delivery should enqueue");
}

fn delivery_status(store: &TestStore, id: &OutboundDeliveryId) -> OutboundDeliveryStatus {
    store
        .load()
        .expect("state should load")
        .outbound_delivery(id)
        .expect("delivery should exist")
        .status()
}

fn test_path(name: &str) -> String {
    format!("{name}/runtime.state.json")
}

/// A store whose file is held in memory, and whose next write can be made to fail.
struct TestStore {
    disk: Rc<Disk>,
}

struct Disk {
    store: RefCell<StateStore>,
    next_write: RefCell<Option<DiskReport>>,
    next_sync: RefCell<Option<DiskReport>>,
}

#[allow(dead_code)]
impl TestStore {
    fn new(path: &str) -> TestStore {
        TestStore {
            disk: Rc::new(Disk {
                store: RefCell::new(StateStore::new(path)),
                next_write: RefCell::new(None),
                next_sync: RefCell::new(None),
            }),
        }
    }

    /// Another handle on the same file.
    fn handle(&self) -> TestStore {
        TestStore {
            disk: Rc::clone(&self.disk),
        }
    }

    fn file_exists(&self) -> bool {
        !matches!(self.disk.store.borrow().content, StateFileContent::Missing)
    }

    fn put(&self, content: StateFileContent) {
        self.disk.store.borrow_mut().refresh(content);
    }

    fn fail_next_write_before_replace(&self) {
        self.disk
            .next_write
            .replace(Some(DiskReport::NotReplaced("injected failure".to_owned())));
    }

    fn fail_next_write_after_replace(&self) {
        self.disk
            .next_write
            .replace(Some(DiskReport::Replaced("injected failure".to_owned())));
    }

    fn fail_next_parent_sync(&self) {
        self.disk
            .next_sync
            .replace(Some(DiskReport::NotReplaced("injected failure".to_owned())));
    }

    fn settle<T>(&self, decided: Result<Transition<T>, String>) -> Result<T, String> {
        let transition = decided?;
        let report = match &transition.action {
            StoreAction::Keep => DiskReport::Done,
            StoreAction::ConfirmDurable => self.disk.next_sync.take().unwrap_or(DiskReport::Done),
            StoreAction::Write(_) => self.disk.next_write.take().unwrap_or(DiskReport::Done),
        };
        self.disk.store.borrow_mut().settle(transition, report)
    }

    fn load(&self) -> Result<RuntimeState, String> {
        self.disk.store.borrow().load()
    }

    fn save(&self, state: &RuntimeState) -> Result<(), String> {
        let decided = self.disk.store.borrow().save(state);
        self.settle(decided)
    }

    fn enqueue_outbound_delivery(
        &self,
        delivery: OutboundDeliveryRecord,
    ) -> Result<OutboundDeliveryEnqueueStatus, String> {
        let decided = self.disk.store.borrow().enqueue_outbound_delivery(delivery);
        self.settle(decided)
    }

    fn claim_next_outbound_delivery(
        &self,
        at: u64,
    ) -> Result<Option<OutboundDeliveryRecord>, String> {
        let decided = self.disk.store.borrow().claim_next_outbound_delivery(at);
        self.settle(decided)
    }

    fn mark_outbound_delivery_delivered(
        &self,
        id: &OutboundDeliveryId,
        at: u64,
    ) -> Result<OutboundDeliveryRecord, String> {
        let decided = self.disk.store.borrow().mark_outbound_delivery_delivered(id, at);
        self.settle(decided)
    }

    fn mark_outbound_delivery_failed(
        &self,
        id: &OutboundDeliveryId,
        at: u64,
        error: &str,
    ) -> Result<OutboundDeliveryRecord, String> {
        let decided = self.disk.store.borrow().mark_outbound_delivery_failed(id, at, error);
        self.settle(decided)
    }

    fn mark_outbound_delivery_uncertain(
        &self,
        id: &OutboundDeliveryId,
        at: u64,
        error: &str,
    ) -> Result<OutboundDeliveryRecord, String> {
        let decided = self.disk.store.borrow().mark_outbound_delivery_uncertain(id, at, error);
        self.settle(decided)
    }

    fn reconcile_outbound_deliveries_at_startup(
        &self,
        at: u64,
    ) -> Result<OutboundDeliveryStartupRecoveryReport, String> {
        let decided = self.disk.store.borrow().reconcile_outbound_deliveries_at_startup(at);
        self.settle(decided)
    }
}

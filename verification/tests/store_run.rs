use std::cell::RefCell;
use std::rc::Rc;

use ferris_agent_bridge::event::{Event, EventId, EventKind, EventSource, InboundEventRecordStatus};
use ferris_agent_bridge::message::{Message, MessageAuthor, MessageContent, MessageId};
use ferris_agent_bridge::outbox::{
    OutboundDeliveryId, OutboundDeliveryRecord, OutboundDeliveryStatus,
};
use ferris_agent_bridge::queue::{MessageBatchClaimOutcome, MessageQueuePolicy, RunInputRecord};
use ferris_agent_bridge::run::{RunId, RunRecord, RunStatus};
use ferris_agent_bridge::session::{Session, SessionId, SessionScope};
use ferris_agent_bridge::state::RuntimeState;
use ferris_agent_bridge::store::{
    DiskReport, StateFileContent, StateStore, StoreAction, Transition,
};

const FUTURE_UNIX: u64 = 4_102_444_800;

#[test]
fn start_agent_run_persists_running_before_returning_input() {
    let (store, run_id, input, _) = pending_agent_run("start-before-handoff");

    let returned = store
        .start_agent_run(&run_id, FUTURE_UNIX + 1)
        .expect("pending run should start");

    assert_eq!(returned, input);
    let state = store.load().expect("state should load");
    let run = state.run(&run_id).expect("run should remain durable");
    assert_eq!(run.status(), RunStatus::Running);
    assert_eq!(run.started_at_unix(), Some(FUTURE_UNIX + 1));
    assert_eq!(state.run_input(&run_id), Some(&input));
}

#[test]
fn snapshot_save_cannot_advance_a_durable_agent_run() {
    let (store, run_id, _, _) = pending_agent_run("snapshot-lifecycle-bypass");
    let stale_pending = store.load().expect("pending state should load");
    let mut starting = store.load().expect("pending state should load");
    starting
        .start_run(&run_id, FUTURE_UNIX + 1)
        .expect("snapshot can represent a running run in memory");

    let err = store
        .save(&starting)
        .expect_err("snapshot save must not create an agent handoff");
    assert!(err.contains("cannot create a handoff or completion"));
    assert_eq!(
        store
            .load()
            .expect("state should remain readable")
            .run(&run_id)
            .expect("run should remain durable")
            .status(),
        RunStatus::Pending
    );

    store
        .start_agent_run(&run_id, FUTURE_UNIX + 1)
        .expect("store transition should start the run");
    store
        .save(&stale_pending)
        .expect("stale ancestor should preserve the durable running run");
    let mut completing = store.load().expect("running state should load");
    completing
        .complete_run(&run_id, FUTURE_UNIX + 2)
        .expect("snapshot can represent outputless completion in memory");

    let err = store
        .save(&completing)
        .expect_err("snapshot save must not bypass atomic output completion");
    assert!(err.contains("cannot create a handoff or completion"));
    assert_eq!(
        store
            .load()
            .expect("state should remain readable")
            .run(&run_id)
            .expect("run should remain durable")
            .status(),
        RunStatus::Running
    );
}

#[test]
fn start_agent_run_requires_input_and_returns_no_handoff_on_write_failure() {
    let missing_input_store = state_store_with_session("start-missing-input");
    let session_id = only_session_id(&missing_input_store);
    let missing_input_id = RunId::new("run_missing_input").expect("valid run id");
    let mut state = missing_input_store.load().expect("state should load");
    state
        .add_run(RunRecord::new(
            missing_input_id.clone(),
            session_id,
            FUTURE_UNIX,
        ))
        .expect("pending run should be accepted");
    missing_input_store
        .save(&state)
        .expect("pending run should save");

    let err = missing_input_store
        .start_agent_run(&missing_input_id, FUTURE_UNIX + 1)
        .expect_err("input-less run must not produce a handoff");
    assert!(err.contains("no durable input"));

    let (pre_store, pre_run_id, _, _) = pending_agent_run("start-pre-replace");
    pre_store.fail_next_write_before_replace();
    assert!(
        pre_store
            .start_agent_run(&pre_run_id, FUTURE_UNIX + 1)
            .is_err()
    );
    assert_eq!(
        pre_store
            .load()
            .expect("pre-replace state should load")
            .run(&pre_run_id)
            .expect("run should remain durable")
            .status(),
        RunStatus::Pending
    );

    let (post_store, post_run_id, _, _) = pending_agent_run("start-post-replace");
    post_store.fail_next_write_after_replace();
    assert!(
        post_store
            .start_agent_run(&post_run_id, FUTURE_UNIX + 1)
            .is_err()
    );
    assert_eq!(
        post_store
            .load()
            .expect("post-replace state should load")
            .run(&post_run_id)
            .expect("run should remain durable")
            .status(),
        RunStatus::Running
    );
    assert!(
        post_store
            .start_agent_run(&post_run_id, FUTURE_UNIX + 1)
            .is_err(),
        "a visible running state must not return a second handoff"
    );
}

#[test]
fn completion_atomically_links_pending_outbox_records_to_the_run() {
    let (store, run_id, _, session_id) = running_agent_run("complete-output");
    let output = vec![
        agent_message("reply_1", &session_id, "first", FUTURE_UNIX + 2),
        agent_message("reply_2", &session_id, "second", FUTURE_UNIX + 2),
    ];

    let deliveries = store
        .complete_agent_run(&run_id, &output, FUTURE_UNIX + 3)
        .expect("agent output should complete atomically");

    assert_eq!(deliveries.len(), 2);
    assert!(
        deliveries
            .iter()
            .all(|delivery| delivery.status() == OutboundDeliveryStatus::Pending)
    );
    let state = store.load().expect("completed state should load");
    let run = state.run(&run_id).expect("run should remain durable");
    assert_eq!(run.status(), RunStatus::Completed);
    assert_eq!(run.finished_at_unix(), Some(FUTURE_UNIX + 3));
    assert_eq!(
        run.output_delivery_ids(),
        deliveries
            .iter()
            .map(|delivery| delivery.id().clone())
            .collect::<Vec<_>>()
    );
    for (delivery, message) in deliveries.iter().zip(output) {
        assert_eq!(delivery.message(), &message);
        assert_eq!(state.outbound_delivery(delivery.id()), Some(delivery));
    }
}

#[test]
fn completion_rejects_invalid_output_without_changing_running_state() {
    let (store, run_id, _, session_id) = running_agent_run("complete-invalid-output");

    assert!(
        store
            .complete_agent_run(&run_id, &[], FUTURE_UNIX + 3)
            .is_err()
    );
    let user = Message::user_text(
        "reply_user",
        Some(session_id.clone()),
        "not agent output",
        FUTURE_UNIX + 2,
    )
    .expect("valid user message");
    assert!(
        store
            .complete_agent_run(&run_id, &[user], FUTURE_UNIX + 3)
            .is_err()
    );
    let other_session =
        SessionId::for_scope(&SessionScope::new("lark", "chat:other").expect("valid scope"));
    assert!(
        store
            .complete_agent_run(
                &run_id,
                &[agent_message(
                    "reply_other",
                    &other_session,
                    "wrong session",
                    FUTURE_UNIX + 2,
                )],
                FUTURE_UNIX + 3,
            )
            .is_err()
    );
    assert!(
        store
            .complete_agent_run(
                &run_id,
                &[agent_message(
                    "reply_future",
                    &session_id,
                    "future message",
                    FUTURE_UNIX + 4,
                )],
                FUTURE_UNIX + 3,
            )
            .is_err()
    );

    let state = store.load().expect("state should remain readable");
    assert_eq!(
        state
            .run(&run_id)
            .expect("run should remain durable")
            .status(),
        RunStatus::Running
    );
    assert!(state.outbound_deliveries().is_empty());
}

#[test]
fn completion_write_failures_preserve_atomic_state_and_exact_replay() {
    let (pre_store, pre_run_id, _, pre_session_id) = running_agent_run("complete-pre-replace");
    let pre_output = [agent_message(
        "reply_pre",
        &pre_session_id,
        "pre",
        FUTURE_UNIX + 2,
    )];
    pre_store.fail_next_write_before_replace();
    assert!(
        pre_store
            .complete_agent_run(&pre_run_id, &pre_output, FUTURE_UNIX + 3)
            .is_err()
    );
    let pre_state = pre_store.load().expect("pre-replace state should load");
    assert_eq!(
        pre_state
            .run(&pre_run_id)
            .expect("run should remain durable")
            .status(),
        RunStatus::Running
    );
    assert!(pre_state.outbound_deliveries().is_empty());

    let (post_store, post_run_id, _, post_session_id) =
        running_agent_run("complete-post-replace");
    let post_output = [agent_message(
        "reply_post",
        &post_session_id,
        "post",
        FUTURE_UNIX + 2,
    )];
    post_store.fail_next_write_after_replace();
    assert!(
        post_store
            .complete_agent_run(&post_run_id, &post_output, FUTURE_UNIX + 3)
            .is_err()
    );
    let post_state = post_store.load().expect("post-replace state should load");
    assert_eq!(
        post_state
            .run(&post_run_id)
            .expect("run should remain durable")
            .status(),
        RunStatus::Completed
    );
    assert_eq!(post_state.outbound_deliveries().len(), 1);

    let replayed = post_store
        .complete_agent_run(&post_run_id, &post_output, FUTURE_UNIX + 3)
        .expect("exact completion replay should confirm durability");
    assert_eq!(replayed.len(), 1);

    post_store.fail_next_parent_sync();
    assert!(
        post_store
            .complete_agent_run(&post_run_id, &post_output, FUTURE_UNIX + 3)
            .is_err(),
        "replay must report a failed durability barrier"
    );
    post_store
        .complete_agent_run(&post_run_id, &post_output, FUTURE_UNIX + 3)
        .expect("later exact replay should re-establish durability");
}

#[test]
fn completion_replay_rejects_changed_output_or_timestamp() {
    let (store, run_id, _, session_id) = running_agent_run("complete-conflict");
    let output = [agent_message(
        "reply_1",
        &session_id,
        "original",
        FUTURE_UNIX + 2,
    )];
    store
        .complete_agent_run(&run_id, &output, FUTURE_UNIX + 3)
        .expect("first completion should persist");

    let changed = [agent_message(
        "reply_1",
        &session_id,
        "changed",
        FUTURE_UNIX + 2,
    )];
    assert!(
        store
            .complete_agent_run(&run_id, &changed, FUTURE_UNIX + 3)
            .is_err()
    );
    assert!(
        store
            .complete_agent_run(&run_id, &output, FUTURE_UNIX + 4)
            .is_err()
    );
}

#[test]
fn completion_replay_accepts_output_after_delivery_status_advances() {
    for target_status in [
        OutboundDeliveryStatus::Delivering,
        OutboundDeliveryStatus::Delivered,
        OutboundDeliveryStatus::Failed,
        OutboundDeliveryStatus::Uncertain,
    ] {
        let label = format!("complete-progressed-{target_status:?}");
        let (store, run_id, _, session_id) = running_agent_run(&label);
        let output = [agent_message(
            &format!("reply_{target_status:?}"),
            &session_id,
            "progressed",
            FUTURE_UNIX + 2,
        )];
        let completed = store
            .complete_agent_run(&run_id, &output, FUTURE_UNIX + 3)
            .expect("first completion should persist");
        let delivery_id = completed[0].id().clone();

        let claimed = store
            .claim_next_outbound_delivery(FUTURE_UNIX + 4)
            .expect("pending output should be claimable")
            .expect("completed run should own one pending output");
        assert_eq!(claimed.id(), &delivery_id);
        match target_status {
            OutboundDeliveryStatus::Delivering => {}
            OutboundDeliveryStatus::Delivered => {
                store
                    .mark_outbound_delivery_delivered(&delivery_id, FUTURE_UNIX + 5)
                    .expect("claimed output should become delivered");
            }
            OutboundDeliveryStatus::Failed => {
                store
                    .mark_outbound_delivery_failed(
                        &delivery_id,
                        FUTURE_UNIX + 5,
                        "retryable failure",
                    )
                    .expect("claimed output should become failed");
            }
            OutboundDeliveryStatus::Uncertain => {
                store
                    .mark_outbound_delivery_uncertain(
                        &delivery_id,
                        FUTURE_UNIX + 5,
                        "uncertain delivery",
                    )
                    .expect("claimed output should become uncertain");
            }
            OutboundDeliveryStatus::Pending => unreachable!("target status is progressed"),
        }

        let replayed = store
            .complete_agent_run(&run_id, &output, FUTURE_UNIX + 3)
            .expect("exact completion replay should ignore mutable delivery status");
        assert_eq!(replayed.len(), 1);
        assert_eq!(replayed[0].status(), target_status);
        assert_eq!(replayed[0].id(), &delivery_id);
    }
}

#[test]
fn definite_and_uncertain_outcomes_release_or_preserve_ownership() {
    let (failed_store, failed_run_id, _, _) = running_agent_run("definite-failure");
    let failed = failed_store
        .fail_agent_run(&failed_run_id, FUTURE_UNIX + 2)
        .expect("definite failure should persist");
    assert_eq!(failed.status(), RunStatus::Failed);
    assert!(failed.is_terminal());
    assert!(failed.output_delivery_ids().is_empty());
    assert_eq!(
        failed_store
            .fail_agent_run(&failed_run_id, FUTURE_UNIX + 2)
            .expect("exact failed replay should confirm durability"),
        failed
    );
    assert!(
        failed_store
            .fail_agent_run(&failed_run_id, FUTURE_UNIX + 3)
            .is_err()
    );

    let (interrupted_store, interrupted_run_id, _, _) = running_agent_run("uncertain-failure");
    let interrupted = interrupted_store
        .interrupt_agent_run(&interrupted_run_id, FUTURE_UNIX + 2)
        .expect("uncertain failure should preserve ownership");
    assert_eq!(interrupted.status(), RunStatus::Interrupted);
    assert!(!interrupted.is_terminal());
    assert!(interrupted.output_delivery_ids().is_empty());
    assert_eq!(
        interrupted_store
            .interrupt_agent_run(&interrupted_run_id, FUTURE_UNIX + 2)
            .expect("exact interrupted replay should confirm durability"),
        interrupted
    );
    assert!(
        interrupted_store
            .interrupt_agent_run(&interrupted_run_id, FUTURE_UNIX + 3)
            .is_err()
    );
}

#[test]
fn failed_outcome_writes_return_no_false_success_and_support_exact_replay() {
    let (pre_store, pre_run_id, _, _) = running_agent_run("failure-pre-replace");
    pre_store.fail_next_write_before_replace();
    assert!(
        pre_store
            .fail_agent_run(&pre_run_id, FUTURE_UNIX + 2)
            .is_err()
    );
    assert_eq!(
        pre_store
            .load()
            .expect("pre-replace state should load")
            .run(&pre_run_id)
            .expect("run should remain durable")
            .status(),
        RunStatus::Running
    );

    let (failed_store, failed_run_id, _, _) = running_agent_run("failure-post-replace");
    failed_store.fail_next_write_after_replace();
    assert!(
        failed_store
            .fail_agent_run(&failed_run_id, FUTURE_UNIX + 2)
            .is_err()
    );
    assert_eq!(
        failed_store
            .load()
            .expect("post-replace failed state should load")
            .run(&failed_run_id)
            .expect("run should remain durable")
            .status(),
        RunStatus::Failed
    );
    failed_store
        .fail_agent_run(&failed_run_id, FUTURE_UNIX + 2)
        .expect("exact failed replay should confirm durability");

    let (interrupted_store, interrupted_run_id, _, _) =
        running_agent_run("interrupt-post-replace");
    interrupted_store.fail_next_write_after_replace();
    assert!(
        interrupted_store
            .interrupt_agent_run(&interrupted_run_id, FUTURE_UNIX + 2)
            .is_err()
    );
    assert_eq!(
        interrupted_store
            .load()
            .expect("post-replace interrupted state should load")
            .run(&interrupted_run_id)
            .expect("run should remain durable")
            .status(),
        RunStatus::Interrupted
    );
    interrupted_store
        .interrupt_agent_run(&interrupted_run_id, FUTURE_UNIX + 2)
        .expect("exact interrupted replay should confirm durability");
}

#[test]
fn stale_snapshot_cannot_undo_completion_or_erase_linked_output() {
    let (store, run_id, _, session_id) = running_agent_run("completion-stale-save");
    let stale = store.load().expect("stale running state should load");
    let output = [agent_message(
        "reply_1",
        &session_id,
        "durable",
        FUTURE_UNIX + 2,
    )];
    let deliveries = store
        .complete_agent_run(&run_id, &output, FUTURE_UNIX + 3)
        .expect("completion should persist");

    store
        .save(&stale)
        .expect("stale save should preserve durable descendants");

    let state = store.load().expect("merged state should load");
    let run = state.run(&run_id).expect("run should remain durable");
    assert_eq!(run.status(), RunStatus::Completed);
    assert_eq!(run.output_delivery_ids(), [deliveries[0].id().clone()]);
    assert_eq!(
        state.outbound_delivery(deliveries[0].id()),
        Some(&deliveries[0])
    );
}

fn pending_agent_run(label: &str) -> (TestStore, RunId, RunInputRecord, SessionId) {
    let store = state_store_with_session(label);
    let session_id = only_session_id(&store);
    let event = Event::new(
        EventId::new(&format!("evt_{label}")).expect("valid event id"),
        EventSource::Platform,
        EventKind::MessageReceived {
            message: Message::user_text(
                &format!("msg_{label}"),
                Some(session_id.clone()),
                "hello",
                FUTURE_UNIX,
            )
            .expect("valid user message"),
        },
        FUTURE_UNIX,
    );
    store
        .persist_inbound_event(&event)
        .expect("inbound message should persist");
    let run_id = RunId::new(&format!("run_{label}")).expect("valid run id");
    let policy = MessageQueuePolicy::new(0, 10).expect("valid queue policy");
    let MessageBatchClaimOutcome::Claimed { input, .. } = store
        .claim_message_batch(run_id.clone(), &policy, FUTURE_UNIX)
        .expect("message batch claim should persist")
    else {
        panic!("message batch should be ready");
    };

    (store, run_id, input, session_id)
}

fn running_agent_run(label: &str) -> (TestStore, RunId, RunInputRecord, SessionId) {
    let (store, run_id, input, session_id) = pending_agent_run(label);
    store
        .start_agent_run(&run_id, FUTURE_UNIX + 1)
        .expect("claimed run should start");
    (store, run_id, input, session_id)
}

fn state_store_with_session(label: &str) -> TestStore {
    let store = TestStore::new(&test_path(label));
    let session =
        Session::new(SessionScope::new("lark", &format!("chat:{label}")).expect("valid scope"));
    let mut state = RuntimeState::new();
    state.upsert_session(session);
    store.save(&state).expect("session should persist");
    store
}

fn only_session_id(store: &TestStore) -> SessionId {
    store
        .load()
        .expect("state should load")
        .sessions()
        .first()
        .expect("session should exist")
        .id()
        .clone()
}

fn agent_message(id: &str, session_id: &SessionId, text: &str, created_at: u64) -> Message {
    Message::new(
        MessageId::new(id).expect("valid message id"),
        Some(session_id.clone()),
        MessageAuthor::Agent,
        MessageContent::text(text).expect("valid content"),
        created_at,
    )
}

fn test_path(name: &str) -> String {
    format!("{name}/runtime.state.json")
}

/// A store whose file is held in memory, and whose next write can be made to fail.
struct TestStore {
    disk: Rc<Disk>,
}

struct Disk {
    store: RefCell<StateStore>,
    next_write: RefCell<Option<DiskReport>>,
    next_sync: RefCell<Option<DiskReport>>,
}

#[allow(dead_code)]
impl TestStore {
    fn new(path: &str) -> TestStore {
        TestStore {
            disk: Rc::new(Disk {
                store: RefCell::new(StateStore::new(path)),
                next_write: RefCell::new(None),
                next_sync: RefCell::new(None),
            }),
        }
    }

    /// Another handle on the same file.
    fn handle(&self) -> TestStore {
        TestStore {
            disk: Rc::clone(&self.disk),
        }
    }

    fn file_exists(&self) -> bool {
        !matches!(self.disk.store.borrow().content, StateFileContent::Missing)
    }

    fn put(&self, content: StateFileContent) {
        self.disk.store.borrow_mut().refresh(content);
    }

    fn fail_next_write_before_replace(&self) {
        self.disk
            .next_write
            .replace(Some(DiskReport::NotReplaced("injected failure".to_owned())));
    }

    fn fail_next_write_after_replace(&self) {
        self.disk
            .next_write
            .replace(Some(DiskReport::Replaced("injected failure".to_owned())));
    }

    fn fail_next_parent_sync(&self) {
        self.disk
            .next_sync
            .replace(Some(DiskReport::NotReplaced("injected failure".to_owned())));
    }

    fn settle<T>(&self, decided: Result<Transition<T>, String>) -> Result<T, String> {
        let transition = decided?;
        let report = match &transition.action {
            StoreAction::Keep => DiskReport::Done,
            StoreAction::ConfirmDurable => self.disk.next_sync.take().unwrap_or(DiskReport::Done),
            StoreAction::Write(_) => self.disk.next_write.take().unwrap_or(DiskReport::Done),
        };
        self.disk.store.borrow_mut().settle(transition, report)
    }

    fn load(&self) -> Result<RuntimeState, String> {
        self.disk.store.borrow().load()
    }

    fn save(&self, state: &RuntimeState) -> Result<(), String> {
        let decided = self.disk.store.borrow().save(state);
        self.settle(decided)
    }

    fn persist_inbound_event(&self, event: &Event) -> Result<InboundEventRecordStatus, String> {
        let decided = self.disk.store.borrow().persist_inbound_event(event);
        self.settle(decided)
    }

    fn claim_message_batch(
        &self,
        run_id: RunId,
        policy: &MessageQueuePolicy,
        now: u64,
    ) -> Result<MessageBatchClaimOutcome, String> {
        let decided = self.disk.store.borrow().claim_message_batch(run_id, policy, now);
        self.settle(decided)
    }

    fn claim_next_outbound_delivery(
        &self,
        at: u64,
    ) -> Result<Option<OutboundDeliveryRecord>, String> {
        let decided = self.disk.store.borrow().claim_next_outbound_delivery(at);
        self.settle(decided)
    }

    fn mark_outbound_delivery_delivered(
        &self,
        id: &OutboundDeliveryId,
        at: u64,
    ) -> Result<OutboundDeliveryRecord, String> {
        let decided = self.disk.store.borrow().mark_outbound_delivery_delivered(id, at);
        self.settle(decided)
    }

    fn mark_outbound_delivery_failed(
        &self,
        id: &OutboundDeliveryId,
        at: u64,
        error: &str,
    ) -> Result<OutboundDeliveryRecord, String> {
        let decided = self.disk.store.borrow().mark_outbound_delivery_failed(id, at, error);
        self.settle(decided)
    }

    fn mark_outbound_delivery_uncertain(
        &self,
        id: &OutboundDeliveryId,
        at: u64,
        error: &str,
    ) -> Result<OutboundDeliveryRecord, String> {
        let decided = self.disk.store.borrow().mark_outbound_delivery_uncertain(id, at, error);
        self.settle(decided)
    }

    fn start_agent_run(&self, id: &RunId, at: u64) -> Result<RunInputRecord, String> {
        let decided = self.disk.store.borrow().start_agent_run(id, at);
        self.settle(decided)
    }

    fn complete_agent_run(
        &self,
        id: &RunId,
        messages: &[Message],
        at: u64,
    ) -> Result<Vec<OutboundDeliveryRecord>, String> {
        let decided = self.disk.store.borrow().complete_agent_run(id, messages, at);
        self.settle(decided)
    }

    fn fail_agent_run(&self, id: &RunId, at: u64) -> Result<RunRecord, String> {
        let decided = self.disk.store.borrow().fail_agent_run(id, at);
        self.settle(decided)
    }

    fn interrupt_agent_run(&self, id: &RunId, at: u64) -> Result<RunRecord, String> {
        let decided = self.disk.store.borrow().interrupt_agent_run(id, at);
        self.settle(decided)
    }
}

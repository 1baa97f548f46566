use ferris_agent_bridge::event::{Event, EventId, EventKind, EventSource, InboundEventRecordStatus};
use ferris_agent_bridge::message::{Message, MessageAuthor, MessageContent, MessageId};
use ferris_agent_bridge::outbox::{
    OutboundDeliveryEnqueueStatus, OutboundDeliveryId, OutboundDeliveryRecord,
    OutboundDeliveryStatus,
};
use ferris_agent_bridge::run::{RunId, RunRecord, RunStatus};
use ferris_agent_bridge::session::{Session, SessionId, SessionScope};
use ferris_agent_bridge::state::RuntimeState;

const FUTURE_UNIX: u64 = 4_102_444_800;

#[test]
fn state_records_inbound_events_idempotently() {
    let event = event_fixture("evt_1", 10);
    let mut state = RuntimeState::new();
    state.updated_at_unix = 20;

    assert_eq!(
        state
            .record_inbound_event_at(&event, 12)
            .expect("event should record"),
        InboundEventRecordStatus::Recorded
    );
    assert!(state.has_inbound_event(&event.id));
    assert_eq!(state.inbound_events().len(), 1);
    assert_eq!(state.updated_at_unix(), 20);

    assert_eq!(
        state
            .record_inbound_event_at(&event, 30)
            .expect("duplicate event should not fail"),
        InboundEventRecordStatus::Duplicate
    );
    assert_eq!(state.inbound_events().len(), 1);
    assert_eq!(state.updated_at_unix(), 20);
}

#[test]
fn state_enqueues_outbound_deliveries_idempotently() {
    let scope = SessionScope::new("lark", "chat:oc_123").expect("valid scope");
    let session = session_fixture(&scope, 10, 10);
    let session_id = session.id().clone();
    let delivery = outbound_delivery_fixture("out_1", session_id.clone(), 12);
    let mut state = RuntimeState::new();
    state.upsert_session(session);
    state.updated_at_unix = FUTURE_UNIX;
    let updated_before_enqueue = state.updated_at_unix();

    assert_eq!(
        state
            .enqueue_outbound_delivery(delivery.clone())
            .expect("delivery should enqueue"),
        OutboundDeliveryEnqueueStatus::Queued
    );
    assert!(state.outbound_delivery(delivery.id()).is_some());
    assert_eq!(state.outbound_deliveries().len(), 1);
    assert_eq!(state.updated_at_unix(), updated_before_enqueue);

    assert_eq!(
        state
            .enqueue_outbound_delivery(delivery.clone())
            .expect("duplicate delivery should not fail"),
        OutboundDeliveryEnqueueStatus::Duplicate
    );
    assert_eq!(state.outbound_deliveries().len(), 1);
    assert_eq!(state.updated_at_unix(), updated_before_enqueue);

    let conflicting = outbound_delivery_fixture("out_1", session_id, 13);
    let err = state
        .enqueue_outbound_delivery(conflicting)
        .expect_err("same id with different payload should fail closed");
    assert!(err.contains("conflicting outbound delivery"));
}

#[test]
fn state_rejects_outbound_delivery_without_known_session() {
    let scope = SessionScope::new("lark", "chat:oc_missing").expect("valid scope");
    let delivery = outbound_delivery_fixture("out_missing", SessionId::for_scope(&scope), 12);
    let mut state = RuntimeState::new();

    let err = state
        .enqueue_outbound_delivery(delivery)
        .expect_err("delivery without a known session should fail");

    assert!(err.contains("references unknown session"));
    assert!(state.outbound_deliveries().is_empty());
}

#[test]
fn state_rejects_non_pending_outbound_delivery_enqueue() {
    let scope = SessionScope::new("lark", "chat:oc_123").expect("valid scope");
    let session = session_fixture(&scope, 10, 10);
    let session_id = session.id().clone();
    let mut delivery = outbound_delivery_fixture("out_1", session_id, 12);
    delivery
        .begin_delivery(13)
        .expect("delivery can enter delivering state");
    let mut state = RuntimeState::new();
    state.upsert_session(session);

    let err = state
        .enqueue_outbound_delivery(delivery)
        .expect_err("enqueue should only accept pending deliveries");

    assert!(err.contains("cannot enqueue from Delivering"));
    assert!(state.outbound_deliveries().is_empty());
}

#[test]
fn state_claims_pending_and_failed_outbound_deliveries() {
    let scope = SessionScope::new("lark", "chat:oc_123").expect("valid scope");
    let session = session_fixture(&scope, 10, 10);
    let session_id = session.id().clone();
    let pending = outbound_delivery_fixture("out_pending", session_id.clone(), 12);
    let mut failed = outbound_delivery_fixture("out_failed", session_id, 13);
    failed.begin_delivery(14).expect("delivery should start");
    failed
        .mark_failed(15, "transport failed")
        .expect("delivery should fail");
    let mut state = RuntimeState::new();
    state.upsert_session(session);
    state
        .enqueue_outbound_delivery(pending.clone())
        .expect("pending delivery should enqueue");
    state.outbound_deliveries.push(failed.clone());

    let claimed = state
        .claim_next_outbound_delivery(16)
        .expect("pending delivery should claim")
        .expect("pending delivery should be returned");
    assert_eq!(claimed.id(), pending.id());
    assert_eq!(claimed.status(), OutboundDeliveryStatus::Delivering);
    assert_eq!(claimed.delivery_attempts(), 1);

    let claimed = state
        .claim_next_outbound_delivery(17)
        .expect("failed delivery should be retryable")
        .expect("failed delivery should be returned");
    assert_eq!(claimed.id(), failed.id());
    assert_eq!(claimed.status(), OutboundDeliveryStatus::Delivering);
    assert_eq!(claimed.delivery_attempts(), 2);

    assert!(
        state
            .claim_next_outbound_delivery(18)
            .expect("no eligible delivery should be ok")
            .is_none()
    );
    state.validate().expect("state should remain valid");
}

#[test]
fn state_marks_claimed_outbound_deliveries_delivered_or_failed() {
    let scope = SessionScope::new("lark", "chat:oc_123").expect("valid scope");
    let session = session_fixture(&scope, 10, 10);
    let session_id = session.id().clone();
    let delivered_id = OutboundDeliveryId::new("out_delivered").expect("valid id");
    let failed_id = OutboundDeliveryId::new("out_failed").expect("valid id");
    let delivered = outbound_delivery_fixture(delivered_id.as_str(), session_id.clone(), 12);
    let failed = outbound_delivery_fixture(failed_id.as_str(), session_id, 13);
    let mut state = RuntimeState::new();
    state.upsert_session(session);
    state
        .enqueue_outbound_delivery(delivered)
        .expect("delivery should enqueue");
    state
        .enqueue_outbound_delivery(failed)
        .expect("delivery should enqueue");

    state
        .claim_next_outbound_delivery(14)
        .expect("delivery should claim");
    let delivered = state
        .mark_outbound_delivery_delivered(&delivered_id, 15)
        .expect("claimed delivery should complete");
    assert_eq!(delivered.status(), OutboundDeliveryStatus::Delivered);
    assert_eq!(delivered.delivered_at_unix(), Some(15));

    state
        .claim_next_outbound_delivery(16)
        .expect("delivery should claim");
    let failed = state
        .mark_outbound_delivery_failed(&failed_id, 17, "transport failed")
        .expect("claimed delivery should fail");
    assert_eq!(failed.status(), OutboundDeliveryStatus::Failed);
    assert_eq!(failed.last_error(), Some("transport failed"));
    state.validate().expect("state should remain valid");
}

#[test]
fn state_marks_uncertain_outbound_delivery_as_non_retryable() {
    let scope = SessionScope::new("lark", "chat:oc_123").expect("valid scope");
    let session = session_fixture(&scope, 10, 10);
    let delivery_id = OutboundDeliveryId::new("out_uncertain").expect("valid id");
    let delivery = outbound_delivery_fixture(delivery_id.as_str(), session.id().clone(), 12);
    let mut state = RuntimeState::new();
    state.upsert_session(session);
    state
        .enqueue_outbound_delivery(delivery)
        .expect("delivery should enqueue");
    state
        .claim_next_outbound_delivery(13)
        .expect("delivery should claim");

    let uncertain = state
        .mark_outbound_delivery_uncertain(&delivery_id, 14, "provider acceptance is unknown")
        .expect("uncertain outcome should persist in state");

    assert_eq!(uncertain.status(), OutboundDeliveryStatus::Uncertain);
    assert_eq!(
        uncertain.last_error(),
        Some("provider acceptance is unknown")
    );
    assert!(
        state
            .claim_next_outbound_delivery(u64::MAX)
            .expect("uncertain delivery should be skipped")
            .is_none()
    );
    state.validate().expect("state should remain valid");
}

#[test]
fn state_rejects_invalid_outbound_consumption_transitions() {
    let scope = SessionScope::new("lark", "chat:oc_123").expect("valid scope");
    let session = session_fixture(&scope, 10, 10);
    let session_id = session.id().clone();
    let delivery_id = OutboundDeliveryId::new("out_1").expect("valid id");
    let delivery = outbound_delivery_fixture(delivery_id.as_str(), session_id, 12);
    let mut state = RuntimeState::new();
    state.upsert_session(session);
    state
        .enqueue_outbound_delivery(delivery)
        .expect("delivery should enqueue");

    let err = state
        .mark_outbound_delivery_delivered(&delivery_id, 13)
        .expect_err("pending delivery should not complete");
    assert!(err.contains("cannot complete from Pending"));

    let unknown_id = OutboundDeliveryId::new("out_missing").expect("valid id");
    let err = state
        .mark_outbound_delivery_failed(&unknown_id, 13, "transport failed")
        .expect_err("unknown delivery should not fail");
    assert!(err.contains("unknown outbound delivery id"));

    state
        .claim_next_outbound_delivery(13)
        .expect("delivery should claim");
    state
        .mark_outbound_delivery_delivered(&delivery_id, 14)
        .expect("claimed delivery should complete");
    let err = state
        .claim_next_outbound_delivery(15)
        .expect("terminal deliveries are not retryable");
    assert!(err.is_none());
}

#[test]
fn state_transitions_persisted_run_records() {
    let (mut state, run_id) = state_with_pending_run("run_1");

    state.start_run(&run_id, 11).expect("run should start");
    state
        .complete_run(&run_id, 12)
        .expect("run should complete");

    let run = state.run(&run_id).expect("run should exist");
    assert_eq!(run.status(), RunStatus::Completed);
    assert_eq!(run.started_at_unix(), Some(11));
    assert_eq!(run.finished_at_unix(), Some(12));
}

#[test]
fn state_transitions_can_fail_or_cancel_persisted_run_records() {
    let (mut failed, failed_id) = state_with_pending_run("run_failed");
    failed
        .fail_run(&failed_id, 11)
        .expect("pending run can fail");
    assert_eq!(
        failed.run(&failed_id).expect("run should exist").status(),
        RunStatus::Failed
    );

    let (mut cancelled, cancelled_id) = state_with_pending_run("run_cancelled");
    cancelled
        .start_run(&cancelled_id, 11)
        .expect("run should start");
    cancelled
        .cancel_run(&cancelled_id, 12)
        .expect("running run can cancel");
    assert_eq!(
        cancelled
            .run(&cancelled_id)
            .expect("run should exist")
            .status(),
        RunStatus::Cancelled
    );
}

#[test]
fn state_transitions_reject_invalid_or_unknown_runs() {
    let (mut state, run_id) = state_with_pending_run("run_1");
    let unknown_id = RunId::new("run_missing").expect("valid run id");

    let err = state
        .complete_run(&run_id, 11)
        .expect_err("pending run should not complete");
    assert!(err.contains("cannot complete from Pending"));

    let err = state
        .start_run(&unknown_id, 11)
        .expect_err("unknown run should not start");
    assert!(err.contains("unknown run id"));

    state.start_run(&run_id, 11).expect("run should start");
    state
        .complete_run(&run_id, 12)
        .expect("run should complete");

    let err = state
        .start_run(&run_id, 13)
        .expect_err("terminal run should not restart");
    assert!(err.contains("cannot start from Completed"));
}

#[test]
fn state_allows_only_one_active_run_per_session() {
    let scope = SessionScope::new("lark", "chat:oc_123").expect("valid scope");
    let session = Session::new(scope);
    let session_id = session.id().clone();
    let first_id = RunId::new("run_1").expect("valid run id");
    let second_id = RunId::new("run_2").expect("valid run id");
    let mut state = RuntimeState::new();
    state.upsert_session(session);
    state
        .add_run(RunRecord::new(first_id.clone(), session_id.clone(), 10))
        .expect("first active run should be accepted");

    let err = state
        .add_run(RunRecord::new(second_id.clone(), session_id.clone(), 11))
        .expect_err("second active run in the same session must be rejected");
    assert!(err.contains("already has active run"));
    assert!(err.contains(first_id.as_str()));

    state
        .interrupt_run(&first_id, 12)
        .expect("interrupted run should remain active");
    let err = state
        .add_run(RunRecord::new(second_id.clone(), session_id.clone(), 13))
        .expect_err("interrupted ownership must continue blocking the session");
    assert!(err.contains("already has active run"));

    state
        .fail_run(&first_id, 14)
        .expect("terminal run should release the session");
    state
        .add_run(RunRecord::new(second_id, session_id, 15))
        .expect("terminal history must not block a new active run");
}

#[test]
fn state_validation_rejects_multiple_active_runs_for_a_session() {
    let (mut state, _) = state_with_pending_run("run_1");
    let session_id = state.sessions()[0].id().clone();
    state.runs.push(RunRecord::new(
        RunId::new("run_2").expect("valid run id"),
        session_id,
        11,
    ));

    let err = state
        .validate()
        .expect_err("persisted state must reject multiple active runs per session");

    assert!(err.contains("multiple active runs"));
}

#[test]
fn upsert_session_preserves_created_at_for_existing_session() {
    let scope = SessionScope::new("lark", "chat:oc_123").expect("valid scope");
    let session_id = SessionId::for_scope(&scope);
    let first = session_fixture(&scope, 10, 20);
    let second = session_fixture(&scope, 30, 40);
    let mut state = RuntimeState::new();

    state.upsert_session(first);
    state.upsert_session(second);

    let session = state.session(&session_id).expect("session should exist");
    assert_eq!(session.created_at_unix(), 10);
    assert_eq!(session.updated_at_unix(), 40);

    state.upsert_session(session_fixture(&scope, 5, 15));
    let session = state.session(&session_id).expect("session should exist");
    assert_eq!(session.created_at_unix(), 10);
    assert_eq!(session.updated_at_unix(), 40);

    state.validate().expect("state should remain valid");
}

#[test]
fn add_outbound_delivery_advances_state_updated_at_to_delivery_record() {
    let scope = SessionScope::new("lark", "chat:oc_123").expect("valid scope");
    let session = session_fixture(&scope, 10, 10);
    let session_id = session.id().clone();
    let delivery = outbound_delivery_fixture("out_future", session_id, FUTURE_UNIX);
    let mut state = RuntimeState::new();

    state.upsert_session(session);
    state
        .enqueue_outbound_delivery(delivery)
        .expect("delivery should be accepted");

    assert!(state.updated_at_unix() >= FUTURE_UNIX);
    state.validate().expect("state should remain valid");
}

#[test]
fn upsert_session_advances_state_updated_at_to_inserted_session() {
    let scope = SessionScope::new("lark", "chat:oc_123").expect("valid scope");
    let session = session_fixture(&scope, 10, FUTURE_UNIX);
    let mut state = RuntimeState::new();

    state.upsert_session(session);

    assert!(state.updated_at_unix() >= FUTURE_UNIX);
    state.validate().expect("state should remain valid");
}

#[test]
fn upsert_session_advances_state_updated_at_to_refreshed_session() {
    let scope = SessionScope::new("lark", "chat:oc_123").expect("valid scope");
    let first = session_fixture(&scope, 10, 20);
    let replacement = session_fixture(&scope, 10, FUTURE_UNIX);
    let mut state = RuntimeState::new();

    state.upsert_session(first);
    state.upsert_session(replacement);

    assert!(state.updated_at_unix() >= FUTURE_UNIX);
    state.validate().expect("state should remain valid");
}

#[test]
fn add_run_advances_state_updated_at_to_run_record() {
    let scope = SessionScope::new("lark", "chat:oc_123").expect("valid scope");
    let session = session_fixture(&scope, 10, 10);
    let session_id = session.id().clone();
    let run = RunRecord::new(
        RunId::new("run_future").expect("valid run id"),
        session_id,
        FUTURE_UNIX,
    );
    let mut state = RuntimeState::new();

    state.upsert_session(session);
    state.add_run(run).expect("run should be accepted");

    assert!(state.updated_at_unix() >= FUTURE_UNIX);
    state.validate().expect("state should remain valid");
}

fn session_fixture(
    scope: &SessionScope,
    created_at_unix: u64,
    updated_at_unix: u64,
) -> Session {
    let session = Session {
        id: SessionId::for_scope(scope),
        scope: scope.clone(),
        created_at_unix,
        updated_at_unix,
    };
    session.validate().expect("session fixture should be valid");
    session
}

fn event_fixture(id: &str, received_at_unix: u64) -> Event {
    Event::new(
        EventId::new(id).expect("valid event id"),
        EventSource::Runtime,
        EventKind::RuntimeNotice {
            message: "notice".to_owned(),
        },
        received_at_unix,
    )
}

fn outbound_delivery_fixture(
    id: &str,
    session_id: SessionId,
    created_at_unix: u64,
) -> OutboundDeliveryRecord {
    let message = Message::new(
        MessageId::new(&format!("msg_{id}")).expect("valid message id"),
        Some(session_id.clone()),
        MessageAuthor::Agent,
        MessageContent::text("hello").expect("valid text"),
        created_at_unix,
    );

    OutboundDeliveryRecord::new(
        OutboundDeliveryId::new(id).expect("valid outbound id"),
        session_id,
        message,
        created_at_unix,
    )
    .expect("valid outbound delivery")
}

fn state_with_pending_run(run_id: &str) -> (RuntimeState, RunId) {
    let scope = SessionScope::new("lark", "chat:oc_123").expect("valid scope");
    let session = Session::new(scope);
    let session_id = session.id().clone();
    let run_id = RunId::new(run_id).expect("valid run id");
    let run = RunRecord::new(run_id.clone(), session_id, 10);
    let mut state = RuntimeState::new();
    state.upsert_session(session);
    state.add_run(run).expect("run should be accepted");

    (state, run_id)
}

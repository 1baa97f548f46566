use ferris_agent_bridge::event::{Event, EventId, EventKind, EventSource, InboundEventRecord};
use ferris_agent_bridge::message::{Message, MessageAuthor, MessageContent, MessageId};
use ferris_agent_bridge::outbox::{
    OutboundDeliveryId, OutboundDeliveryRecord, OutboundDeliveryStatus, OutboundRetryPolicy,
};
use ferris_agent_bridge::queue::{
    MessageQueuePolicy, MessageQueuePoll, QueuedMessage, RunInputRecord,
};
use ferris_agent_bridge::run::{RunId, RunRecord, RunStatus};
use ferris_agent_bridge::session::{Session, SessionId, SessionScope};

fn session_id(scope: &str) -> SessionId {
    SessionId::for_scope(&SessionScope::new("lark", scope).expect("valid scope"))
}

fn run_id(id: &str) -> RunId {
    RunId::new(id).expect("valid run id")
}

fn agent_message(session_id: &SessionId, created_at_unix: u64) -> Message {
    Message::new(
        MessageId::new("msg_1").expect("valid message id"),
        Some(session_id.clone()),
        MessageAuthor::Agent,
        MessageContent::text("reply").expect("valid text"),
        created_at_unix,
    )
}

fn delivery(created_at_unix: u64) -> OutboundDeliveryRecord {
    let session_id = session_id("chat:a");
    OutboundDeliveryRecord::new(
        OutboundDeliveryId::new("out_1").expect("valid delivery id"),
        session_id.clone(),
        agent_message(&session_id, created_at_unix),
        created_at_unix,
    )
    .expect("valid delivery")
}

fn message_event(id: &str, session_id: &SessionId, received_at_unix: u64) -> Event {
    Event::new(
        EventId::new(id).expect("valid event id"),
        EventSource::Platform,
        EventKind::MessageReceived {
            message: Message::user_text("msg_1", Some(session_id.clone()), "hello", 1)
                .expect("valid message"),
        },
        received_at_unix,
    )
}

fn queued(id: &str, session_id: &SessionId, enqueued_at_unix: u64) -> QueuedMessage {
    QueuedMessage::from_event(&message_event(id, session_id, 1), enqueued_at_unix)
        .expect("valid queue entry")
}

#[test]
fn blank_names_are_refused() {
    for blank in ["", " ", "\t\r\n", "\u{3000}\u{2003}\u{85}\u{a0}\u{2028}"] {
        assert_eq!(EventId::new(blank), Err("event id is empty".to_owned()));
        assert_eq!(RunId::new(blank), Err("run id is empty".to_owned()));
        assert_eq!(MessageId::new(blank), Err("message id is empty".to_owned()));
        assert_eq!(
            OutboundDeliveryId::new(blank),
            Err("outbound delivery id is empty".to_owned())
        );
        assert_eq!(
            MessageContent::text(blank),
            Err("message text is empty".to_owned())
        );
        assert_eq!(
            SessionScope::new(blank, "chat:a"),
            Err("session platform is empty".to_owned())
        );
        assert_eq!(
            SessionScope::new("lark", blank),
            Err("session scope is empty".to_owned())
        );
        assert_eq!(
            Message::user_text("msg_1", None, blank, 1),
            Err("message text is empty".to_owned())
        );
        assert_eq!(
            Message::user_text(blank, None, blank, 1),
            Err("message id is empty".to_owned())
        );
    }
    assert_eq!(
        EventId::new(" \u{200b}").expect("no white space").as_str(),
        " \u{200b}"
    );
}

#[test]
fn session_ids_are_derived_from_the_scope() {
    assert_eq!(
        session_id("chat:oc_123").as_str(),
        "session_v1_4_6c61726b_b_636861743a6f635f313233"
    );
    let umlaut = SessionScope::new("m\u{fc}", "x").expect("valid scope");
    assert_eq!(
        SessionId::for_scope(&umlaut).as_str(),
        "session_v1_3_6dc3bc_1_78"
    );
    let long = SessionScope::new("p", "aaaaaaaaaaaaaaaaaaaa").expect("valid scope");
    assert_eq!(
        SessionId::for_scope(&long).as_str(),
        "session_v1_1_70_14_6161616161616161616161616161616161616161"
    );
    let left = SessionScope::new("a", "b_c").expect("valid scope");
    let right = SessionScope::new("a_b", "c").expect("valid scope");
    assert_ne!(SessionId::for_scope(&left), SessionId::for_scope(&right));
}

#[test]
fn session_records_are_checked() {
    let mut session = Session::new_at(SessionScope::new("lark", "chat:a").expect("valid"), 10);
    assert_eq!(session.validate(), Ok(()));
    session.created_at_unix = 11;
    assert_eq!(
        session.validate(),
        Err(format!(
            "session {} has updated_at_unix before created_at_unix",
            session.id().as_str()
        ))
    );
    session.id = session_id("chat:b");
    assert_eq!(
        session.validate(),
        Err(format!(
            "session {} does not match derived id",
            session.id().as_str()
        ))
    );
}

#[test]
fn run_steps_are_refused_from_the_wrong_status_or_too_early() {
    let mut run = RunRecord::new(run_id("run_1"), session_id("chat:a"), 10);
    assert_eq!(
        run.complete(11),
        Err("run run_1 cannot complete from Pending".to_owned())
    );
    assert_eq!(
        run.start(9),
        Err("run run_1 cannot start before updated_at_unix".to_owned())
    );
    run.start(10).expect("a pending run starts");
    assert_eq!(
        run.start(11),
        Err("run run_1 cannot start from Running".to_owned())
    );
    run.interrupt(12).expect("a running run is interrupted");
    assert_eq!(
        run.interrupt(13),
        Err("run run_1 cannot interrupt from Interrupted".to_owned())
    );
    assert_eq!(
        run.complete(13),
        Err("run run_1 cannot complete from Interrupted".to_owned())
    );
    assert_eq!(
        run.fail(11),
        Err("run run_1 cannot fail before updated_at_unix".to_owned())
    );
    run.fail(12).expect("an interrupted run can fail");
    assert_eq!(
        run.cancel(13),
        Err("run run_1 cannot cancel from Failed".to_owned())
    );
    assert_eq!(run.started_at_unix(), Some(10));
    assert_eq!(run.finished_at_unix(), Some(12));
    assert_eq!(run.validate(), Ok(()));
}

#[test]
fn run_records_are_checked() {
    let sound = {
        let mut run = RunRecord::new(run_id("run_1"), session_id("chat:a"), 10);
        run.start(11).expect("run should start");
        run.complete_with_output_deliveries(
            12,
            vec![
                OutboundDeliveryId::new("out_1").expect("valid id"),
                OutboundDeliveryId::new("out_2").expect("valid id"),
            ],
        )
        .expect("run should complete");
        run
    };
    assert_eq!(sound.validate(), Ok(()));

    let mut run = sound.clone();
    run.updated_at_unix = 9;
    assert_eq!(
        run.validate(),
        Err("run run_1 has updated_at_unix before created_at_unix".to_owned())
    );
    let mut run = sound.clone();
    run.started_at_unix = Some(9);
    assert_eq!(
        run.validate(),
        Err("run run_1 has started_at_unix out of range".to_owned())
    );
    let mut run = sound.clone();
    run.finished_at_unix = Some(10);
    assert_eq!(
        run.validate(),
        Err("run run_1 has finished_at_unix out of range".to_owned())
    );
    let mut run = sound.clone();
    run.started_at_unix = None;
    assert_eq!(
        run.validate(),
        Err("run run_1 has started_at_unix that does not fit its status".to_owned())
    );
    let mut run = sound.clone();
    run.finished_at_unix = None;
    assert_eq!(
        run.validate(),
        Err("run run_1 has finished_at_unix that does not fit its status".to_owned())
    );
    let mut run = sound.clone();
    run.status = RunStatus::Failed;
    assert_eq!(
        run.validate(),
        Err("run run_1 has output deliveries without being completed".to_owned())
    );
    let mut run = sound.clone();
    run.output_delivery_ids[1] = run.output_delivery_ids[0].clone();
    assert_eq!(
        run.validate(),
        Err("run run_1 has duplicate output delivery ids".to_owned())
    );
}

#[test]
fn later_stages_of_a_run_descend_from_earlier_ones() {
    let pending = RunRecord::new(run_id("run_1"), session_id("chat:a"), 10);
    let mut running = pending.clone();
    running.start(11).expect("run should start");
    let mut interrupted = running.clone();
    interrupted.interrupt(12).expect("run should be interrupted");
    let mut failed = interrupted.clone();
    failed.fail(13).expect("run should fail");
    let mut completed = running.clone();
    completed.complete(12).expect("run should complete");

    let stages = [&pending, &running, &interrupted, &failed];
    for (i, later) in stages.iter().enumerate() {
        for (j, earlier) in stages.iter().enumerate() {
            assert_eq!(later.is_descendant_of(earlier), j < i);
        }
    }
    assert!(completed.is_descendant_of(&pending));
    assert!(completed.is_descendant_of(&running));
    assert!(!completed.is_descendant_of(&interrupted));
    assert!(!failed.is_descendant_of(&completed));

    let mut restarted = completed.clone();
    restarted.started_at_unix = Some(10);
    assert!(!restarted.is_descendant_of(&running));
    let mut other = completed.clone();
    other.id = run_id("run_2");
    assert!(!other.is_descendant_of(&running));
}

#[test]
fn delivery_steps_are_refused_from_the_wrong_status_too_early_or_without_a_reason() {
    let mut record = delivery(10);
    assert_eq!(
        record.mark_delivered(11),
        Err("outbound delivery out_1 cannot complete from Pending".to_owned())
    );
    assert_eq!(
        record.mark_failed(11, "lost"),
        Err("outbound delivery out_1 cannot fail from Pending".to_owned())
    );
    assert_eq!(
        record.mark_uncertain(11, "lost"),
        Err("outbound delivery out_1 cannot become uncertain from Pending".to_owned())
    );
    assert_eq!(
        record.begin_delivery(9),
        Err("outbound delivery out_1 cannot begin delivery before updated_at_unix".to_owned())
    );
    record.begin_delivery(11).expect("a pending delivery is tried");
    assert_eq!(
        record.begin_delivery(12),
        Err("outbound delivery out_1 cannot begin delivery from Delivering".to_owned())
    );
    assert_eq!(
        record.mark_failed(12, " \n"),
        Err("outbound delivery out_1 delivery error is empty".to_owned())
    );
    record.mark_uncertain(12, "lost").expect("outcome is unknown");
    assert_eq!(
        record.resolve_as_failed(13, "\u{3000}"),
        Err("outbound delivery out_1 resolution failure is empty".to_owned())
    );
    assert_eq!(
        record.resolve_as_delivered(11),
        Err(
            "outbound delivery out_1 cannot resolve as delivered before updated_at_unix".to_owned()
        )
    );
    record.resolve_as_failed(13, "refused").expect("settled");
    assert_eq!(record.status(), OutboundDeliveryStatus::Failed);
    assert_eq!(record.last_error(), Some("refused"));
    assert_eq!(
        record.resolve_as_failed(14, "refused"),
        Err("outbound delivery out_1 cannot resolve as failed from Failed".to_owned())
    );
    record.begin_delivery(14).expect("a failed delivery is tried again");
    assert_eq!(record.delivery_attempts(), 2);
    assert_eq!(record.last_error(), None);
    record.mark_delivered(15).expect("accepted");
    assert_eq!(record.delivered_at_unix(), Some(15));
    assert_eq!(record.validate(), Ok(()));

    let mut exhausted = delivery(10);
    exhausted.delivery_attempts = u32::MAX;
    assert_eq!(
        exhausted.begin_delivery(11),
        Err("outbound delivery out_1 has no delivery attempts left".to_owned())
    );
}

#[test]
fn delivery_records_are_checked() {
    let own = session_id("chat:a");
    let other = session_id("chat:b");
    let id = OutboundDeliveryId::new("out_1").expect("valid id");
    assert_eq!(
        OutboundDeliveryRecord::new(id.clone(), other, agent_message(&own, 10), 10),
        Err("outbound delivery out_1 message does not match its session".to_owned())
    );
    assert_eq!(
        OutboundDeliveryRecord::new(id, own.clone(), agent_message(&own, 11), 10),
        Err("outbound delivery out_1 has created_at_unix before message created_at_unix".to_owned())
    );
    let mut record = delivery(10);
    record.updated_at_unix = 9;
    assert_eq!(
        record.validate(),
        Err("outbound delivery out_1 has updated_at_unix before created_at_unix".to_owned())
    );
    for status in [
        OutboundDeliveryStatus::Delivering,
        OutboundDeliveryStatus::Delivered,
        OutboundDeliveryStatus::Failed,
        OutboundDeliveryStatus::Uncertain,
    ] {
        let mut record = delivery(10);
        record.status = status;
        assert_eq!(
            record.validate(),
            Err("outbound delivery out_1 has fields that do not fit its status".to_owned())
        );
    }
}

#[test]
fn failed_deliveries_are_retried_with_growing_pauses() {
    assert_eq!(
        OutboundRetryPolicy::new(0, 10, 40),
        Err("outbound retry policy must allow at least one attempt".to_owned())
    );
    assert_eq!(
        OutboundRetryPolicy::new(3, 10, 9),
        Err("outbound retry policy has a longest delay below its first".to_owned())
    );
    let policy = OutboundRetryPolicy::new(6, 10, 35).expect("valid policy");
    let mut record = delivery(100);
    assert_eq!(policy.next_attempt_at_unix(&record), None);
    let mut pauses = Vec::new();
    let mut at = 100;
    for _ in 0..6 {
        record.begin_delivery(at).expect("delivery is tried");
        record.mark_failed(at, "refused").expect("delivery fails");
        match policy.next_attempt_at_unix(&record) {
            Some(next) => {
                pauses.push(next - at);
                at = next;
            }
            None => pauses.push(0),
        }
    }
    assert_eq!(pauses, [10, 20, 35, 35, 35, 0]);
    record.delivery_attempts = 1;
    record.updated_at_unix = u64::MAX;
    assert_eq!(policy.next_attempt_at_unix(&record), Some(u64::MAX));
}

#[test]
fn ledger_entries_are_never_recorded_before_they_are_received() {
    let event = message_event("evt_1", &session_id("chat:a"), 10);
    assert_eq!(InboundEventRecord::from_event(&event, 3).recorded_at_unix(), 10);
    let mut record = InboundEventRecord::from_event(&event, 12);
    assert_eq!(record.recorded_at_unix(), 12);
    record.recorded_at_unix = 9;
    assert_eq!(
        record.validate(),
        Err("inbound event evt_1 has recorded_at_unix before received_at_unix".to_owned())
    );
}

#[test]
fn only_bound_user_messages_from_a_platform_are_queued() {
    let own = session_id("chat:a");
    let mut event = message_event("evt_1", &own, 10);
    assert_eq!(
        QueuedMessage::from_event(&event, 3)
            .expect("valid queue entry")
            .enqueued_at_unix(),
        10
    );
    event.source = EventSource::Runtime;
    assert_eq!(
        QueuedMessage::from_event(&event, 12),
        Err("queued message event evt_1 must come from a platform".to_owned())
    );
    event.source = EventSource::Platform;
    event.kind = EventKind::RuntimeNotice {
        message: "notice".to_owned(),
    };
    assert_eq!(
        QueuedMessage::from_event(&event, 12),
        Err("queued message event evt_1 must contain a user-authored message".to_owned())
    );
    event.kind = EventKind::MessageReceived {
        message: agent_message(&own, 1),
    };
    assert_eq!(
        QueuedMessage::from_event(&event, 12),
        Err("queued message event evt_1 must contain a user-authored message".to_owned())
    );
    event.kind = EventKind::MessageReceived {
        message: Message::user_text("msg_1", None, "hello", 1).expect("valid message"),
    };
    assert_eq!(
        QueuedMessage::from_event(&event, 12),
        Err("queued message event evt_1 must reference a session".to_owned())
    );
}

#[test]
fn queue_entries_are_checked() {
    let sound = queued("evt_1", &session_id("chat:a"), 10);
    assert_eq!(sound.validate(), Ok(()));
    let mut entry = sound.clone();
    entry.session_id = session_id("chat:b");
    assert_eq!(
        entry.validate(),
        Err("queued message event evt_1 message does not match its session".to_owned())
    );
    let mut entry = sound.clone();
    entry.message.author = MessageAuthor::Agent;
    assert_eq!(
        entry.validate(),
        Err("queued message event evt_1 must contain a user-authored message".to_owned())
    );
    let mut entry = sound.clone();
    entry.enqueued_at_unix = 0;
    assert_eq!(
        entry.validate(),
        Err("queued message event evt_1 has enqueued_at_unix before received_at_unix".to_owned())
    );
    let mut entry = sound.clone();
    entry.rebase_enqueued_at_unix(4);
    assert_eq!(entry, sound);
    entry.rebase_enqueued_at_unix(40);
    assert_eq!(entry.enqueued_at_unix(), 40);
    assert!(entry.has_same_identity(&sound));
}

#[test]
fn polling_gives_the_first_due_session_up_to_the_limit() {
    assert_eq!(
        MessageQueuePolicy::new(5, 0),
        Err("message queue policy must allow at least one message".to_owned())
    );
    let policy = MessageQueuePolicy::new(5, 2).expect("valid policy");
    let a = session_id("chat:a");
    let b = session_id("chat:b");
    let queue = vec![
        queued("evt_b1", &b, 20),
        queued("evt_a1", &a, 10),
        queued("evt_a2", &a, 11),
        queued("evt_a3", &a, 12),
    ];

    assert_eq!(
        policy.poll(&queue, 14),
        MessageQueuePoll::Waiting {
            next_ready_at_unix: Some(15)
        }
    );
    let MessageQueuePoll::Ready(batch) = policy.poll(&queue, 15) else {
        panic!("a message is due");
    };
    assert_eq!(batch.session_id(), &a);
    assert_eq!(batch.messages(), &queue[1..2]);
    let MessageQueuePoll::Ready(batch) = policy.poll(&queue, 24) else {
        panic!("a message is due");
    };
    assert_eq!(batch.messages(), &queue[1..3]);
    let MessageQueuePoll::Ready(batch) = policy.poll(&queue, 25) else {
        panic!("a message is due");
    };
    assert_eq!(batch.session_id(), &b);
    assert_eq!(
        policy.poll_where_free(&queue, 24, &vec![a.clone()]),
        MessageQueuePoll::Waiting {
            next_ready_at_unix: Some(25)
        }
    );
    assert_eq!(
        policy.poll_where_free(&queue, 24, &vec![a, b]),
        MessageQueuePoll::Waiting {
            next_ready_at_unix: None
        }
    );
    let late = vec![queued("evt_1", &session_id("chat:a"), u64::MAX - 1)];
    assert_eq!(
        policy.poll(&late, 7),
        MessageQueuePoll::Waiting {
            next_ready_at_unix: Some(u64::MAX)
        }
    );
}

#[test]
fn run_inputs_are_checked() {
    let own = session_id("chat:a");
    let input = RunInputRecord {
        run_id: run_id("run_1"),
        session_id: own.clone(),
        messages: vec![queued("evt_1", &own, 10), queued("evt_2", &own, 11)],
        claimed_at_unix: 11,
    };
    assert_eq!(input.validate(), Ok(()));
    let mut empty = input.clone();
    empty.messages.clear();
    assert_eq!(
        empty.validate(),
        Err("run input run_1 has no messages".to_owned())
    );
    let mut early = input.clone();
    early.claimed_at_unix = 10;
    assert_eq!(
        early.validate(),
        Err("run input run_1 message event evt_2 was claimed before it was enqueued".to_owned())
    );
    let mut foreign = input.clone();
    foreign.messages[0] = queued("evt_1", &session_id("chat:b"), 10);
    assert_eq!(
        foreign.validate(),
        Err("run input run_1 message event evt_1 does not match its session".to_owned())
    );
}

use ferris_agent_bridge::event::{Event, EventId, EventKind, EventSource};
use ferris_agent_bridge::message::Message;
use ferris_agent_bridge::queue::MessageQueuePolicy;
use ferris_agent_bridge::run::{RunId, RunRecord};
use ferris_agent_bridge::session::{Session, SessionId, SessionScope};
use ferris_agent_bridge::state::RuntimeState;

fn session_id(scope: &str) -> SessionId {
    SessionId::for_scope(&SessionScope::new("lark", scope).expect("valid scope"))
}

fn run_id(id: &str) -> RunId {
    RunId::new(id).expect("valid run id")
}

fn message_event(id: &str, scope: &str, received_at_unix: u64) -> Event {
    Event::new(
        EventId::new(id).expect("valid event id"),
        EventSource::Platform,
        EventKind::MessageReceived {
            message: Message::user_text("msg_1", Some(session_id(scope)), "hello", 1)
                .expect("valid message"),
        },
        received_at_unix,
    )
}

/// A state with two taken messages of one run, and one queued message, all of one
/// session, next to a second session without messages.
fn claimed_state() -> RuntimeState {
    let mut state = RuntimeState::new_at(1);
    for scope in ["chat:a", "chat:b"] {
        let scope = SessionScope::new("lark", scope).expect("valid scope");
        state.upsert_session_at(Session::new_at(scope, 1), 1);
    }
    for (id, at) in [("evt_1", 10), ("evt_2", 20), ("evt_3", 30)] {
        state
            .record_inbound_event_at(&message_event(id, "chat:a", at), at)
            .expect("event should record");
    }
    let policy = MessageQueuePolicy::new(0, 2).expect("valid policy");
    state
        .claim_message_batch_at(run_id("run_1"), &policy, 40, 40)
        .expect("batch should be claimed");
    assert_eq!(state.run_inputs()[0].messages().len(), 2);
    assert_eq!(state.queued_messages().len(), 1);
    assert_eq!(state.validate(), Ok(()));
    state
}

fn rejected(change: impl FnOnce(&mut RuntimeState)) -> String {
    let mut state = claimed_state();
    change(&mut state);
    state.validate().expect_err("the state is not valid")
}

#[test]
fn claimed_messages_are_not_queued_any_more() {
    assert_eq!(
        rejected(|state| {
            let message = state.run_inputs[0].messages[1].clone();
            state.queued_messages.insert(0, message);
        }),
        "run input run_1 event evt_2 is still present in the message queue"
    );
}

#[test]
fn a_message_is_claimed_once() {
    assert_eq!(
        rejected(|state| {
            let message = state.run_inputs[0].messages[0].clone();
            state.run_inputs[0].messages.push(message);
        }),
        "queued message event evt_1 is claimed by multiple runs"
    );
}

#[test]
fn claimed_messages_agree_with_the_ledger() {
    assert_eq!(
        rejected(|state| {
            state.inbound_events.remove(0);
        }),
        "run input run_1 message event evt_1 has no inbound event record"
    );
    assert_eq!(
        rejected(|state| state.run_inputs[0].messages[0].received_at_unix = 9),
        "run input run_1 message event evt_1 does not match inbound event received_at_unix"
    );
    assert_eq!(
        rejected(|state| state.inbound_events[1].recorded_at_unix = 21),
        "run input run_1 message event evt_2 was enqueued before its inbound event record"
    );
}

#[test]
fn claimed_messages_keep_the_order_of_their_session() {
    assert_eq!(
        rejected(|state| state.run_inputs[0].messages[0].enqueued_at_unix = 25),
        "run input run_1 message event evt_2 is out of session enqueue order"
    );
    assert_eq!(
        rejected(|state| {
            for message in state.run_inputs[0].messages.iter_mut() {
                message.enqueued_at_unix = 25;
            }
            state.run_inputs[0].messages.swap(0, 1);
        }),
        "run input run_1 message event evt_1 is out of session ownership order"
    );
}

#[test]
fn queued_messages_follow_claimed_ones() {
    assert_eq!(
        rejected(|state| state.run_inputs[0].messages[1].enqueued_at_unix = 35),
        format!(
            "queued message event evt_3 is before already claimed enqueue time for session {}",
            session_id("chat:a").as_str()
        )
    );
    assert_eq!(
        rejected(|state| {
            state.inbound_events.swap(1, 2);
            state.run_inputs[0].messages[1].enqueued_at_unix = 30;
        }),
        format!(
            "queued message event evt_3 is before already claimed work for session {}",
            session_id("chat:a").as_str()
        )
    );
}

#[test]
fn run_inputs_belong_to_their_runs() {
    assert_eq!(
        rejected(|state| {
            let input = state.run_inputs[0].clone();
            state.run_inputs.push(input);
        }),
        "duplicate run input id run_1"
    );
    assert_eq!(
        rejected(|state| {
            state.runs.clear();
        }),
        "run input run_1 references unknown run"
    );
    assert_eq!(
        rejected(|state| state.runs[0].session_id = session_id("chat:b")),
        format!(
            "run input run_1 does not match run session {}",
            session_id("chat:b").as_str()
        )
    );
    assert_eq!(
        rejected(|state| state.runs[0].created_at_unix = 39),
        "run input run_1 claimed_at_unix does not match run created_at_unix"
    );
    assert_eq!(
        rejected(|state| state.run_inputs[0].messages.clear()),
        "run input run_1 has no messages"
    );
}

#[test]
fn the_state_is_not_older_than_its_records() {
    assert_eq!(
        rejected(|state| state.updated_at_unix = 0),
        format!(
            "runtime state updated_at_unix before session {} updated_at_unix",
            session_id("chat:a").as_str()
        )
    );
    assert_eq!(
        rejected(|state| state.updated_at_unix = 39),
        "runtime state updated_at_unix before run run_1 updated_at_unix"
    );
    assert_eq!(
        rejected(|state| {
            state.runs.clear();
            state.run_inputs.clear();
            state.queued_messages[0].enqueued_at_unix = 41;
        }),
        "runtime state updated_at_unix before queued message event evt_3 enqueued_at_unix"
    );
    assert_eq!(
        rejected(|state| {
            state.runs.clear();
            state.updated_at_unix = 29;
        }),
        "runtime state updated_at_unix before inbound event evt_3 recorded_at_unix"
    );
}

#[test]
fn the_first_fault_is_reported() {
    assert_eq!(
        rejected(|state| {
            state.queued_messages[0].received_at_unix = 31;
            state.queued_messages[0].enqueued_at_unix = 31;
            state.runs.push(RunRecord::new(
                run_id("run_1"),
                session_id("chat:b"),
                10,
            ));
            state.inbound_events[2].received_at_unix = 99;
        }),
        "duplicate run id run_1"
    );
    assert_eq!(
        rejected(|state| state.runs.push(RunRecord::new(
            run_id("run_2"),
            session_id("chat:a"),
            10,
        ))),
        format!(
            "session {} has multiple active runs run_1 and run_2",
            session_id("chat:a").as_str()
        )
    );
    assert_eq!(
        rejected(|state| {
            let queued = state.queued_messages[0].clone();
            state.queued_messages.push(queued);
        }),
        "duplicate queued inbound event id evt_3"
    );
    assert_eq!(
        rejected(|state| {
            state.sessions.remove(0);
            state.runs.clear();
            state.run_inputs.clear();
        }),
        format!(
            "queued message event evt_3 references unknown session {}",
            session_id("chat:a").as_str()
        )
    );
}

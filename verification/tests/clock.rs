use ferris_agent_bridge::clock::unix_seconds;
use ferris_agent_bridge::state::RuntimeState;

#[test]
fn a_clock_before_the_epoch_stands_at_zero() {
    assert_eq!(unix_seconds(None), 0);
    assert_eq!(unix_seconds(Some(0)), 0);
    assert_eq!(unix_seconds(Some(1_700_000_000)), 1_700_000_000);
}

#[test]
fn new_states_carry_the_time_of_the_machine() {
    let before = seconds_of_the_machine();
    let state = RuntimeState::new();
    let after = seconds_of_the_machine();

    assert!(before <= state.updated_at_unix());
    assert!(state.updated_at_unix() <= after);
}

fn seconds_of_the_machine() -> u64 {
    unix_seconds(
        std::time::SystemTime::now()
            .duration_since(std::time::UNIX_EPOCH)
            .ok()
            .map(|since| since.as_secs()),
    )
}

use ddns_core::poll_loop::{poll_step, PollEvent, PollState, DELAY_SECONDS};

#[test]
fn failed_acquisition_sleeps_once_and_keeps_state() {
    let (state, effect) = poll_step(PollState::Starting, PollEvent::Failed);
    assert!(matches!(state, PollState::Starting));
    assert!(effect.propagate.is_none());
    assert_eq!(effect.sleep_seconds, 60);
    assert_eq!(DELAY_SECONDS, 60);

    let tracking = PollState::Tracking { last: "1.2.3.4".to_string() };
    let (state, effect) = poll_step(tracking, PollEvent::Failed);
    match state {
        PollState::Tracking { last } => assert_eq!(last, "1.2.3.4"),
        PollState::Starting => panic!("state must be unchanged"),
    }
    assert!(effect.propagate.is_none());
    assert_eq!(effect.sleep_seconds, 60);
}

#[test]
fn first_acquired_address_is_always_propagated() {
    let event = PollEvent::Acquired { ip: "1.2.3.4".to_string() };
    let (state, effect) = poll_step(PollState::Starting, event);
    match state {
        PollState::Tracking { last } => assert_eq!(last, "1.2.3.4"),
        PollState::Starting => panic!("must start tracking"),
    }
    assert_eq!(effect.propagate, Some("1.2.3.4".to_string()));
    assert_eq!(effect.sleep_seconds, 0);
}

#[test]
fn unchanged_address_is_not_propagated() {
    let tracking = PollState::Tracking { last: "1.2.3.4".to_string() };
    let event = PollEvent::Acquired { ip: "1.2.3.4".to_string() };
    let (state, effect) = poll_step(tracking, event);
    match state {
        PollState::Tracking { last } => assert_eq!(last, "1.2.3.4"),
        PollState::Starting => panic!("must keep tracking"),
    }
    assert!(effect.propagate.is_none());
    assert_eq!(effect.sleep_seconds, 60);
}

#[test]
fn changed_address_is_propagated_and_remembered() {
    let tracking = PollState::Tracking { last: "1.2.3.4".to_string() };
    let event = PollEvent::Acquired { ip: "5.6.7.8".to_string() };
    let (state, effect) = poll_step(tracking, event);
    match state {
        PollState::Tracking { last } => assert_eq!(last, "5.6.7.8"),
        PollState::Starting => panic!("must keep tracking"),
    }
    assert_eq!(effect.propagate, Some("5.6.7.8".to_string()));
    assert_eq!(effect.sleep_seconds, 60);
}

use protostar::activation::{
    Action, ActivationState, ActivationStateMachine, GestureEvent, ACTIVATION_DISTANCE,
};

#[test]
fn test_release_below_threshold_returns() {
    // ACTIVATION_DISTANCE is 0.5 units; displacements are thousandths.
    assert_eq!(ACTIVATION_DISTANCE, 500);
    let mut m = ActivationStateMachine::new(ACTIVATION_DISTANCE);
    assert_eq!(m.current_state(), ActivationState::Idle);

    assert_eq!(m.step(GestureEvent::Grab), Action::Stay);
    assert_eq!(m.current_state(), ActivationState::Grabbed);

    // 0.49 units: within the threshold, so the gesture cancels.
    let a = m.step(GestureEvent::Release { displacement: 490 });
    assert_eq!(a, Action::StartReturn);
    assert_eq!(m.current_state(), ActivationState::Returning);

    assert_eq!(m.step(GestureEvent::TweenFinished), Action::Stay);
    assert_eq!(m.current_state(), ActivationState::Idle);
}

#[test]
fn test_release_past_threshold_launches_exactly_once() {
    let mut m = ActivationStateMachine::new(ACTIVATION_DISTANCE);
    let mut launches = 0;

    assert_eq!(m.step(GestureEvent::Grab), Action::Stay);
    // 0.51 units: past the threshold, so the gesture commits.
    let events = [
        GestureEvent::Release { displacement: 510 },
        GestureEvent::TweenFinished,
        GestureEvent::LaunchScheduled,
        GestureEvent::TweenFinished,
    ];
    let mut actions = Vec::new();
    for e in events {
        let a = m.step(e);
        if a == Action::Launch {
            launches += 1;
        }
        actions.push(a);
    }
    assert_eq!(
        actions,
        vec![Action::StartShrink, Action::Launch, Action::StartGrow, Action::Stay]
    );
    assert_eq!(launches, 1);
    assert_eq!(m.current_state(), ActivationState::Idle);
}

#[test]
fn test_boundary_displacement_is_a_cancel() {
    // Exactly at the threshold: not past it, so no launch.
    let mut m = ActivationStateMachine::new(500);
    m.step(GestureEvent::Grab);
    let a = m.step(GestureEvent::Release { displacement: 500 });
    assert_eq!(a, Action::StartReturn);
    assert_eq!(m.current_state(), ActivationState::Returning);
}

#[test]
fn test_regrab_interrupts_return_but_not_commit() {
    let mut m = ActivationStateMachine::new(500);
    m.step(GestureEvent::Grab);
    m.step(GestureEvent::Release { displacement: 100 });
    assert_eq!(m.current_state(), ActivationState::Returning);
    // A grab during the return seizes the handle again.
    assert_eq!(m.step(GestureEvent::Grab), Action::Stay);
    assert_eq!(m.current_state(), ActivationState::Grabbed);

    // Once the commit animation runs, a grab is ignored.
    m.step(GestureEvent::Release { displacement: 900 });
    assert_eq!(m.current_state(), ActivationState::Shrinking);
    assert_eq!(m.step(GestureEvent::Grab), Action::Stay);
    assert_eq!(m.current_state(), ActivationState::Shrinking);

    m.step(GestureEvent::TweenFinished);
    assert_eq!(m.current_state(), ActivationState::Launching);
    assert_eq!(m.step(GestureEvent::Grab), Action::Stay);
    assert_eq!(m.current_state(), ActivationState::Launching);

    m.step(GestureEvent::LaunchScheduled);
    assert_eq!(m.current_state(), ActivationState::Growing);
    assert_eq!(m.step(GestureEvent::Grab), Action::Stay);
    assert_eq!(m.current_state(), ActivationState::Growing);

    m.step(GestureEvent::TweenFinished);
    assert_eq!(m.current_state(), ActivationState::Idle);
}

#[test]
fn test_unrelated_events_do_nothing() {
    let mut m = ActivationStateMachine::new(500);
    assert_eq!(m.step(GestureEvent::TweenFinished), Action::Stay);
    assert_eq!(m.current_state(), ActivationState::Idle);
    assert_eq!(m.step(GestureEvent::LaunchScheduled), Action::Stay);
    assert_eq!(m.current_state(), ActivationState::Idle);
    m.step(GestureEvent::Grab);
    assert_eq!(m.step(GestureEvent::Grab), Action::Stay);
    assert_eq!(m.current_state(), ActivationState::Grabbed);
}

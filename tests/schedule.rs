use auteur_mixer::schedule::{ScheduleError, State, StateMachine};

#[test]
fn start_then_cue() {
    let mut sm = StateMachine::new();
    assert_eq!(sm.due_transition(0), None);
    assert_eq!(sm.start(100, Some(200)), Ok(()));
    assert_eq!(sm.start(100, None), Err(ScheduleError::AlreadyStarted));
    assert_eq!(sm.due_transition(99), None);
    assert_eq!(sm.due_transition(100), Some(State::Starting));
    assert_eq!(sm.transition(State::Starting), Ok(()));
    assert_eq!(sm.transition(State::Started), Ok(()));
    assert_eq!(sm.due_transition(150), None);
    assert_eq!(sm.due_transition(200), Some(State::Stopping));
}

#[test]
fn reschedule_only_before_started() {
    let mut sm = StateMachine::new();
    assert_eq!(sm.reschedule(5, None), Ok(()));
    assert_eq!(sm.cue_time, Some(5));
    sm.transition(State::Starting).unwrap();
    assert_eq!(sm.reschedule(6, Some(9)), Ok(()));
    assert_eq!(sm.end_time, Some(9));
    sm.transition(State::Started).unwrap();
    assert_eq!(sm.reschedule(7, None), Err(ScheduleError::WrongState(State::Started)));
    assert_eq!(sm.cue_time, Some(6));
}

#[test]
fn lifecycle_moves() {
    let mut sm = StateMachine::new();
    assert_eq!(
        sm.transition(State::Started),
        Err(ScheduleError::InvalidTransition { from: State::Initial, to: State::Started })
    );
    assert_eq!(sm.stop_target(), Some(State::Stopped));
    sm.transition(State::Starting).unwrap();
    sm.transition(State::Started).unwrap();
    assert_eq!(sm.stop_target(), Some(State::Stopping));
    sm.transition(State::Stopping).unwrap();
    assert_eq!(sm.stop_target(), None);
    sm.transition(State::Stopped).unwrap();
    assert!(sm.transition(State::Starting).is_err());
}

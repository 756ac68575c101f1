use quotamiser::state::{State, Transition};

const TRANSITIONS: [Transition; 7] = [
    Transition::BeginDispatch,
    Transition::AttachResponseId,
    Transition::MarkIdUnknown,
    Transition::Settle,
    Transition::Unrecoverable,
    Transition::ReleaseUnsent,
    Transition::RejectBeforeProcessing,
];

#[test]
fn names_round_trip() {
    for state in State::ALL {
        assert_eq!(State::parse(state.as_str()), Some(state));
    }
    assert_eq!(State::parse("NOPE"), None);
}

#[test]
fn terminal_states_allow_nothing() {
    let terminal = [
        State::Settled,
        State::ConsumedUnrecoverable,
        State::ReleasedUnsent,
        State::RejectedBeforeProcessing,
    ];
    for state in terminal {
        assert!(!state.is_active());
        assert!(!state.possibly_sent());
        for t in TRANSITIONS {
            assert!(!t.allowed_from(state), "{t:?} from {state:?}");
        }
    }
}

#[test]
fn a_possibly_sent_request_is_never_released_without_evidence() {
    for state in State::ALL.into_iter().filter(|s| s.possibly_sent()) {
        assert!(!Transition::ReleaseUnsent.allowed_from(state));
    }
}

#[test]
fn a_rejection_before_processing_is_only_recorded_while_dispatching() {
    for state in State::ALL {
        assert_eq!(
            Transition::RejectBeforeProcessing.allowed_from(state),
            state == State::Dispatching,
            "{state:?}"
        );
    }
}

#[test]
fn id_unknown_cannot_settle() {
    assert!(!Transition::Settle.allowed_from(State::DispatchedIdUnknown));
    assert!(Transition::Unrecoverable.allowed_from(State::DispatchedIdUnknown));
}

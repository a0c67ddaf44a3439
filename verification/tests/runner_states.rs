use micro_sp::runner_states::{
    ActionRequestState, PlanState, PlannerState, RunnerState, SOPState, ServiceRequestState,
};
use micro_sp::value::ToSPValue;

#[test]
fn plan_state_maps_strings_both_ways() {
    let pairs = [
        (PlanState::Initial, "initial"),
        (PlanState::Executing, "executing"),
        (PlanState::Failed, "failed"),
        (PlanState::Completed, "completed"),
        (PlanState::UNKNOWN, "UNKNOWN"),
    ];

    for (variant, text) in pairs {
        assert_eq!(variant.to_string(), text, "Display for {variant:?}");
        assert_eq!(
            variant.clone().to_spvalue(),
            text.to_spvalue(),
            "to_spvalue for {variant:?}"
        );
        assert_eq!(
            PlanState::from_str(text),
            variant,
            "{text} must parse back to the variant it was written from"
        );
    }
}

#[test]
fn plan_state_cancelled_does_not_survive_the_round_trip() {
    assert_eq!(PlanState::Cancelled.to_string(), "cancelled");
    assert_eq!(
        PlanState::Cancelled.to_spvalue(),
        "cancelled".to_spvalue(),
        "to_spvalue must still produce the same wire string as Display"
    );
    assert_eq!(
        PlanState::from_str("cancelled"),
        PlanState::Cancelled,
        "every variant must parse back from the string it is written as"
    );
}

#[test]
fn sop_state_maps_strings_both_ways() {
    let pairs = [
        (SOPState::Initial, "initial"),
        (SOPState::Executing, "executing"),
        (SOPState::Fatal, "fatal"),
        (SOPState::Completed, "completed"),
        (SOPState::UNKNOWN, "UNKNOWN"),
    ];

    for (variant, text) in pairs {
        assert_eq!(variant.to_string(), text, "Display for {variant:?}");
        assert_eq!(variant.clone().to_spvalue(), text.to_spvalue());
        assert_eq!(SOPState::from_str(text), variant);
    }
}

#[test]
fn sop_state_cancelled_does_not_survive_the_round_trip() {
    assert_eq!(SOPState::Cancelled.to_string(), "cancelled");
    assert_eq!(
        SOPState::Cancelled.to_spvalue(),
        "cancelled".to_spvalue(),
        "to_spvalue must still produce the same wire string as Display"
    );
    assert_eq!(SOPState::from_str("cancelled"), SOPState::Cancelled);
}

#[test]
fn planner_state_maps_strings_both_ways() {
    let pairs = [
        (PlannerState::Found, "found"),
        (PlannerState::NotFound, "not_found"),
        (PlannerState::Ready, "ready"),
        (PlannerState::UNKNOWN, "UNKNOWN"),
    ];

    for (variant, text) in pairs {
        assert_eq!(variant.to_string(), text, "Display for {variant:?}");
        assert_eq!(variant.clone().to_spvalue(), text.to_spvalue());
        assert_eq!(PlannerState::from_str(text), variant);
    }
}

#[test]
fn service_request_state_maps_strings_both_ways() {
    let pairs = [
        (ServiceRequestState::Initial, "initial"),
        (ServiceRequestState::Succeeded, "succeeded"),
        (ServiceRequestState::Failed, "failed"),
        (ServiceRequestState::UNKNOWN, "UNKNOWN"),
    ];

    for (variant, text) in pairs {
        assert_eq!(variant.to_string(), text);
        assert_eq!(ServiceRequestState::from_str(text).to_string(), text);
    }
}

#[test]
fn action_request_state_maps_strings_both_ways() {
    let pairs = [
        (ActionRequestState::Initial, "initial"),
        (ActionRequestState::Executing, "executing"),
        (ActionRequestState::Succeeded, "succeeded"),
        (ActionRequestState::Failed, "failed"),
        (ActionRequestState::UNKNOWN, "UNKNOWN"),
    ];

    for (variant, text) in pairs {
        assert_eq!(variant.to_string(), text);
        assert_eq!(ActionRequestState::from_str(text).to_string(), text);
    }
}

#[test]
fn runner_state_maps_strings_both_ways() {
    let pairs = [
        (RunnerState::Idle, "idle"),
        (RunnerState::Running, "running"),
        (RunnerState::Paused, "paused"),
        (RunnerState::Stopped, "stopped"),
        (RunnerState::UNKNOWN, "UNKNOWN"),
    ];

    for (variant, text) in pairs {
        assert_eq!(variant.to_string(), text, "Display for {variant:?}");
        assert_eq!(variant.clone().to_spvalue(), text.to_spvalue());
        assert_eq!(RunnerState::from_str(text), variant);
    }
}

#[test]
fn anything_unrecognised_parses_as_unknown() {
    for junk in ["", "Initial", "INITIAL", " initial", "nonsense", "42"] {
        assert_eq!(PlanState::from_str(junk), PlanState::UNKNOWN, "{junk:?}");
        assert_eq!(SOPState::from_str(junk), SOPState::UNKNOWN, "{junk:?}");
        assert_eq!(
            PlannerState::from_str(junk),
            PlannerState::UNKNOWN,
            "{junk:?}"
        );
        assert_eq!(RunnerState::from_str(junk), RunnerState::UNKNOWN, "{junk:?}");
        assert_eq!(ServiceRequestState::from_str(junk).to_string(), "UNKNOWN");
        assert_eq!(ActionRequestState::from_str(junk).to_string(), "UNKNOWN");
    }
}

#[test]
fn every_default_is_unknown() {
    assert_eq!(PlanState::default(), PlanState::UNKNOWN);
    assert_eq!(SOPState::default(), SOPState::UNKNOWN);
    assert_eq!(PlannerState::default(), PlannerState::UNKNOWN);
    assert_eq!(RunnerState::default(), RunnerState::UNKNOWN);
    assert_eq!(ServiceRequestState::default().to_string(), "UNKNOWN");
    assert_eq!(ActionRequestState::default().to_string(), "UNKNOWN");
}

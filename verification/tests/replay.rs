use libmcp::replay::{
    ExecutionKnowledge, ProbeResolution, ReplayAllowance, ReplayContract, RequestDisposition,
    request_disposition,
};

fn available() -> ReplayAllowance {
    ReplayAllowance::new(0, 1)
}

fn exhausted() -> ReplayAllowance {
    ReplayAllowance::new(1, 1)
}

#[test]
fn steady_execution_states_ignore_replay_contract() {
    for contract in [
        ReplayContract::Convergent,
        ReplayContract::ProbeRequired,
        ReplayContract::NeverReplay,
    ] {
        assert_eq!(
            request_disposition(ExecutionKnowledge::NotDispatched, contract, None, exhausted()),
            RequestDisposition::FirstDispatch
        );
        assert_eq!(
            request_disposition(ExecutionKnowledge::InFlight, contract, None, available()),
            RequestDisposition::AwaitTerminal
        );
        assert_eq!(
            request_disposition(ExecutionKnowledge::Completed, contract, None, available()),
            RequestDisposition::Completed
        );
    }
}

#[test]
fn ambiguous_outcomes_obey_contract_evidence_and_budget() {
    let unknown = ExecutionKnowledge::OutcomeUnknown;
    assert_eq!(
        request_disposition(unknown, ReplayContract::Convergent, None, available()),
        RequestDisposition::Replay
    );
    assert_eq!(
        request_disposition(unknown, ReplayContract::Convergent, None, exhausted()),
        RequestDisposition::RejectReplayExhausted
    );
    assert_eq!(
        request_disposition(unknown, ReplayContract::ProbeRequired, None, available()),
        RequestDisposition::HoldForProbe
    );
    assert_eq!(
        request_disposition(
            unknown,
            ReplayContract::ProbeRequired,
            Some(ProbeResolution::AlreadyCompleted),
            available(),
        ),
        RequestDisposition::CompleteFromProbe
    );
    assert_eq!(
        request_disposition(
            unknown,
            ReplayContract::ProbeRequired,
            Some(ProbeResolution::SafeToReplay),
            available(),
        ),
        RequestDisposition::Replay
    );
    assert_eq!(
        request_disposition(unknown, ReplayContract::NeverReplay, None, available()),
        RequestDisposition::RejectAmbiguousOutcome
    );
}

#[test]
fn probe_evidence_cannot_authorize_an_unrelated_invocation() {
    assert_eq!(
        request_disposition(
            ExecutionKnowledge::OutcomeUnknown,
            ReplayContract::NeverReplay,
            Some(ProbeResolution::SafeToReplay),
            available(),
        ),
        RequestDisposition::RejectUnexpectedProbeResolution
    );
    assert_eq!(
        request_disposition(
            ExecutionKnowledge::NotDispatched,
            ReplayContract::ProbeRequired,
            Some(ProbeResolution::SafeToReplay),
            available(),
        ),
        RequestDisposition::RejectUnexpectedProbeResolution
    );
}

#[test]
fn state_transitions_reject_unauthorized_replay_and_double_completion() {
    assert_eq!(
        ExecutionKnowledge::NotDispatched.after_dispatch(RequestDisposition::FirstDispatch),
        Ok(ExecutionKnowledge::InFlight)
    );
    assert!(
        ExecutionKnowledge::OutcomeUnknown
            .after_dispatch(RequestDisposition::FirstDispatch)
            .is_err()
    );
    assert_eq!(
        ExecutionKnowledge::InFlight.after_worker_loss(),
        ExecutionKnowledge::OutcomeUnknown
    );
    assert_eq!(
        ExecutionKnowledge::OutcomeUnknown.after_terminal_outcome(),
        Ok(ExecutionKnowledge::Completed)
    );
    assert!(ExecutionKnowledge::Completed.after_terminal_outcome().is_err());
}

#[test]
fn replay_attempts_are_counted_against_the_ceiling() {
    assert_eq!(ReplayAllowance::new(0, 2).next_attempt(), Some(1));
    assert_eq!(ReplayAllowance::new(2, 2).next_attempt(), None);
    assert_eq!(ReplayAllowance::new(u8::MAX, u8::MAX).next_attempt(), None);
    assert_eq!(ReplayAllowance::new(3, 5).attempts_used(), 3);
    assert_eq!(ReplayAllowance::new(3, 5).max_attempts(), 5);
}

#[test]
fn worker_loss_only_changes_in_flight_knowledge() {
    assert_eq!(
        ExecutionKnowledge::NotDispatched.after_worker_loss(),
        ExecutionKnowledge::NotDispatched
    );
    assert_eq!(
        ExecutionKnowledge::Completed.after_worker_loss(),
        ExecutionKnowledge::Completed
    );
    assert_eq!(
        ExecutionKnowledge::OutcomeUnknown.after_completed_probe(),
        Ok(ExecutionKnowledge::Completed)
    );
    assert!(ExecutionKnowledge::InFlight.after_completed_probe().is_err());
    assert_eq!(
        ExecutionKnowledge::OutcomeUnknown.after_dispatch(RequestDisposition::Replay),
        Ok(ExecutionKnowledge::InFlight)
    );
}

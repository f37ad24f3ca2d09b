use libmcp::fault::{Fault, FaultClass, FaultCode, RecoveryHint};
use libmcp::health::{
    LifecycleState, OperationalLedger, OperationalMetricError, RolloutState, WorkerHandshakePhase,
};
use libmcp::jsonrpc::RpcMethod;
use libmcp::types::Generation;

#[test]
fn ledger_preserves_session_scope_and_deterministic_method_order() {
    let mut ledger = OperationalLedger::new(Generation::genesis());
    let zeta = RpcMethod::try_new("zeta");
    let alpha = RpcMethod::try_new("alpha");
    let (Ok(zeta), Ok(alpha)) = (zeta, alpha) else {
        return;
    };
    assert!(ledger.record_request(zeta.clone()).is_ok());
    assert!(ledger.record_request(alpha.clone()).is_ok());
    assert!(ledger.record_replay(&zeta).is_ok());
    assert!(ledger.record_success(&zeta, 12).is_ok());
    assert!(ledger.record_response_error(&alpha, 8, "downstream").is_ok());

    let replacement = Generation::try_new(2);
    let Ok(replacement) = replacement else {
        return;
    };
    assert!(ledger.replace_worker(replacement).is_ok());
    let snapshot = ledger.telemetry_snapshot(4, LifecycleState::Ready, WorkerHandshakePhase::Ready);
    assert_eq!(snapshot.generation, replacement);
    assert_eq!(snapshot.restart_count, 1);
    assert_eq!(snapshot.totals.request_count(), 2);
    assert_eq!(snapshot.totals.success_count(), 1);
    assert_eq!(snapshot.totals.error_count(), 1);
    assert_eq!(snapshot.totals.response_error_count(), 1);
    assert_eq!(snapshot.totals.recovery_error_count(), 0);
    assert_eq!(snapshot.totals.retry_count(), 1);
    assert!(matches!(
        snapshot.methods.as_slice(),
        [first, second] if first.method().as_str() == "alpha" && second.method().as_str() == "zeta"
    ));
}

#[test]
fn ledger_separates_host_lifecycle_worker_handshake_and_fault_scope() {
    let mut ledger = OperationalLedger::new(Generation::genesis());
    let method = RpcMethod::try_new("tools/call");
    let code = FaultCode::try_new("worker_lost");
    let (Ok(method), Ok(code)) = (method, code) else {
        return;
    };
    assert!(ledger.record_request(method.clone()).is_ok());
    let fault = Fault::new(
        Generation::genesis(),
        FaultClass::Transport,
        code,
        Some(RecoveryHint::ReplaceWorker),
        "worker pipe closed",
    );
    assert!(ledger.record_recovery_fault(Some(&method), fault).is_ok());
    let health = ledger.health_snapshot(
        9,
        LifecycleState::Recovering,
        WorkerHandshakePhase::Starting,
        Some(RolloutState::Stable),
    );
    assert_eq!(health.state, LifecycleState::Recovering);
    assert_eq!(health.worker_handshake, WorkerHandshakePhase::Starting);
    assert_eq!(health.consecutive_failures, 1);
    let telemetry =
        ledger.telemetry_snapshot(9, LifecycleState::Recovering, WorkerHandshakePhase::Starting);
    assert_eq!(telemetry.totals.recovery_fault_count(), 1);
    assert_eq!(telemetry.totals.error_count(), 0);
    assert!(ledger.record_success(&method, 20).is_ok());
    let healthy = ledger.health_snapshot(10, LifecycleState::Ready, WorkerHandshakePhase::Ready, None);
    assert_eq!(healthy.consecutive_failures, 0);
}

#[test]
fn ledger_distinguishes_terminal_recovery_errors_from_fault_incidents() {
    let mut ledger = OperationalLedger::new(Generation::genesis());
    let method = RpcMethod::try_new("tools/call");
    let Ok(method) = method else {
        return;
    };
    assert!(ledger.record_request(method.clone()).is_ok());
    assert!(ledger.record_recovery_error(&method, "ambiguous outcome").is_ok());

    let snapshot = ledger.telemetry_snapshot(5, LifecycleState::Ready, WorkerHandshakePhase::Ready);
    assert_eq!(snapshot.totals.request_count(), 1);
    assert_eq!(snapshot.totals.success_count(), 0);
    assert_eq!(snapshot.totals.error_count(), 1);
    assert_eq!(snapshot.totals.response_error_count(), 0);
    assert_eq!(snapshot.totals.recovery_error_count(), 1);
    assert_eq!(snapshot.totals.recovery_fault_count(), 0);
    assert!(matches!(
        snapshot.methods.as_slice(),
        [method] if method.error_count() == 1
            && method.recovery_error_count() == 1
            && method.recovery_fault_count() == 0
    ));
}

#[test]
fn ledger_rejects_outcomes_without_in_flight_work_and_stale_generations() {
    let mut ledger = OperationalLedger::new(Generation::genesis());
    let method = RpcMethod::try_new("tools/call").expect("valid method");
    assert_eq!(
        ledger.record_success(&method, 1),
        Err(OperationalMetricError::NoInFlightInvocation)
    );
    assert_eq!(
        ledger.record_replay(&method),
        Err(OperationalMetricError::NoInFlightInvocation)
    );
    assert_eq!(
        ledger.replace_worker(Generation::genesis()),
        Err(OperationalMetricError::GenerationDidNotAdvance)
    );
    let stale = Fault::new(
        Generation::try_new(5).expect("non-zero"),
        FaultClass::Process,
        FaultCode::try_new("exit").expect("valid code"),
        None,
        "exited",
    );
    assert_eq!(
        ledger.record_recovery_fault(None, stale),
        Err(OperationalMetricError::FaultGenerationMismatch)
    );
    assert!(ledger.record_request(method.clone()).is_ok());
    assert!(ledger.record_success(&method, 10).is_ok());
    assert!(ledger.record_request(method.clone()).is_ok());
    assert!(ledger.record_success(&method, 31).is_ok());
    let snapshot = ledger.telemetry_snapshot(1, LifecycleState::Ready, WorkerHandshakePhase::Ready);
    let [entry] = snapshot.methods.as_slice() else {
        panic!("one method");
    };
    assert_eq!(entry.last_latency_ms(), Some(31));
    assert_eq!(entry.max_latency_ms(), 31);
    assert_eq!(entry.avg_latency_ms(), 20);
    assert_eq!(entry.request_count(), 2);
    assert_eq!(entry.success_count(), 2);
    assert_eq!(entry.retry_count(), 0);
    assert_eq!(entry.last_error(), None);
    assert_eq!(
        OperationalMetricError::CounterExhausted("total requests").message(),
        "operational metric counter exhausted: total requests"
    );
}

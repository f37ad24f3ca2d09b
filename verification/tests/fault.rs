use libmcp::fault::{Fault, FaultClass, FaultCode, RecoveryHint};
use libmcp::types::Generation;

#[test]
fn fault_code_rejects_non_snake_case() {
    assert!(FaultCode::try_new("broken_pipe").is_ok());
    assert!(FaultCode::try_new("BrokenPipe").is_err());
    assert!(FaultCode::try_new("").is_err());
    let rejected = serde_json::from_str::<String>(r#""BrokenPipe""#)
        .map_err(|error| error.to_string())
        .and_then(|code| FaultCode::try_new(&code).map_err(|error| error.detail.to_owned()));
    assert!(rejected.is_err());
    let accepted = serde_json::from_str::<String>(r#""broken_pipe""#)
        .map_err(|error| error.to_string())
        .and_then(|code| FaultCode::try_new(&code).map_err(|error| error.detail.to_owned()));
    assert!(accepted.is_ok());
}

#[test]
fn faults_carry_generation_class_code_hint_and_detail() {
    let code = FaultCode::try_new("worker_lost_2").expect("valid code");
    assert_eq!(code.as_str(), "worker_lost_2");
    assert!(FaultCode::try_new("worker-lost").is_err());
    let fault = Fault::new(
        Generation::genesis(),
        FaultClass::Transport,
        code,
        Some(RecoveryHint::ReplaceWorker),
        "worker pipe closed",
    );
    assert_eq!(fault.generation, Generation::genesis());
    assert_eq!(fault.class, FaultClass::Transport);
    assert_eq!(fault.code.as_str(), "worker_lost_2");
    assert_eq!(fault.hint, Some(RecoveryHint::ReplaceWorker));
    assert_eq!(fault.detail, "worker pipe closed");
    assert_eq!(fault.clone(), fault);
}

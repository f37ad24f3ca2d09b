use libmcp::host::{
    DispatchQueueOutcome, HostRejection, HostSessionKernel, HostSessionKernelSnapshot,
    InitializationSeed, PendingRequestSnapshot, ProbeResolutionOutcome, ReplayBudget,
    SNAPSHOT_FORMAT_VERSION, SeededInitializeRequest, SessionPhase, SnapshotDocuments, SnapshotError,
    SnapshotLimits, prepare_replay_seed,
};
use libmcp::json::{JsonNumber, JsonValue};
use libmcp::jsonrpc::{FrameParseError, FramedMessage, RequestId, RpcEnvelopeKind, RpcMethod};
use libmcp::replay::{ExecutionKnowledge, ProbeResolution, ReplayContract};

struct Doc(JsonValue);

struct DocVisitor;

impl<'de> serde::Deserialize<'de> for Doc {
    fn deserialize<D>(deserializer: D) -> Result<Self, D::Error>
    where
        D: serde::Deserializer<'de>,
    {
        deserializer.deserialize_any(DocVisitor)
    }
}

impl<'de> serde::de::Visitor<'de> for DocVisitor {
    type Value = Doc;

    fn expecting(&self, formatter: &mut std::fmt::Formatter<'_>) -> std::fmt::Result {
        formatter.write_str("a JSON value")
    }

    fn visit_bool<E>(self, value: bool) -> Result<Doc, E> {
        Ok(Doc(JsonValue::Bool(value)))
    }

    fn visit_i64<E>(self, value: i64) -> Result<Doc, E> {
        Ok(Doc(JsonValue::Number(if value >= 0 {
            JsonNumber::Unsigned(value as u64)
        } else {
            JsonNumber::Negative(value)
        })))
    }

    fn visit_u64<E>(self, value: u64) -> Result<Doc, E> {
        Ok(Doc(JsonValue::Number(JsonNumber::Unsigned(value))))
    }

    fn visit_f64<E>(self, value: f64) -> Result<Doc, E>
    where
        E: serde::de::Error,
    {
        serde_json::Number::from_f64(value)
            .map(|number| Doc(JsonValue::Number(JsonNumber::Float(number.to_string()))))
            .ok_or_else(|| E::custom("JSON numbers must be finite"))
    }

    fn visit_str<E>(self, value: &str) -> Result<Doc, E> {
        Ok(Doc(JsonValue::String(value.to_owned())))
    }

    fn visit_string<E>(self, value: String) -> Result<Doc, E> {
        Ok(Doc(JsonValue::String(value)))
    }

    fn visit_none<E>(self) -> Result<Doc, E> {
        Ok(Doc(JsonValue::Null))
    }

    fn visit_unit<E>(self) -> Result<Doc, E> {
        Ok(Doc(JsonValue::Null))
    }

    fn visit_seq<A>(self, mut sequence: A) -> Result<Doc, A::Error>
    where
        A: serde::de::SeqAccess<'de>,
    {
        let mut items = Vec::new();
        while let Some(Doc(item)) = sequence.next_element::<Doc>()? {
            items.push(item);
        }
        Ok(Doc(JsonValue::Array(items)))
    }

    fn visit_map<A>(self, mut members: A) -> Result<Doc, A::Error>
    where
        A: serde::de::MapAccess<'de>,
    {
        let mut object = Vec::new();
        while let Some(name) = members.next_key::<String>()? {
            let Doc(value) = members.next_value::<Doc>()?;
            object.push((name, value));
        }
        Ok(Doc(JsonValue::Object(object)))
    }
}

fn document(payload: &[u8]) -> Result<JsonValue, String> {
    serde_json::from_slice::<Doc>(payload)
        .map(|doc| doc.0)
        .map_err(|error| error.to_string())
}

fn parse_frame(payload: Vec<u8>) -> Result<FramedMessage, FrameParseError> {
    let decoded = document(&payload);
    FramedMessage::from_document(payload, decoded)
}

fn json(text: &str) -> JsonValue {
    document(text.as_bytes()).expect("test JSON is well formed")
}

fn documents_for(snapshot: &HostSessionKernelSnapshot) -> SnapshotDocuments {
    SnapshotDocuments {
        pending_frames: snapshot.pending.iter().map(|entry| document(&entry.frame)).collect(),
        queued_frames: snapshot.queued_frames.iter().map(|payload| document(payload)).collect(),
        initialize_request: snapshot
            .initialization_seed
            .as_ref()
            .map(|seed| document(&seed.initialize_request.payload)),
        initialized_notification: snapshot
            .initialization_seed
            .as_ref()
            .and_then(|seed| seed.initialized_notification.as_ref())
            .map(|payload| document(payload)),
    }
}

fn restore(
    snapshot: HostSessionKernelSnapshot,
    limits: SnapshotLimits,
) -> Result<HostSessionKernel, SnapshotError> {
    let documents = documents_for(&snapshot);
    snapshot.restore(limits, documents)
}

fn tool_request(id: u64, name: &str) -> Option<FramedMessage> {
    let payload = format!(
        r#"{{"jsonrpc":"2.0","id":{id},"method":"tools/call","params":{{"name":"{name}","arguments":{{}}}}}}"#
    )
    .into_bytes();
    parse_frame(payload).ok()
}

fn success_response(id: u64) -> Option<FramedMessage> {
    parse_frame(format!(r#"{{"jsonrpc":"2.0","id":{id},"result":{{}}}}"#).into_bytes()).ok()
}

fn is_request(frame: &FramedMessage, expected: u64) -> bool {
    matches!(frame.classify(), RpcEnvelopeKind::Request { id, .. } if id == RequestId::number(expected))
}

#[test]
fn replay_seed_preserves_the_exact_public_handshake() {
    let mut seed = InitializationSeed {
        initialize_request: SeededInitializeRequest {
            id: RequestId::number(1),
            payload: br#"{"jsonrpc":"2.0","id":1,"method":"initialize","params":{}}"#.to_vec(),
        },
        initialized_notification: None,
    };

    assert_eq!(prepare_replay_seed(SessionPhase::Cold, Some(&seed)), Ok(None));
    assert!(matches!(
        prepare_replay_seed(SessionPhase::AwaitingInitialized, Some(&seed)),
        Ok(Some(prepared)) if prepared.initialized_notification.is_none()
    ));
    assert_eq!(
        prepare_replay_seed(SessionPhase::Live, Some(&seed)),
        Err(HostRejection::InvalidExecutionState)
    );

    seed.initialized_notification =
        Some(br#"{"jsonrpc":"2.0","method":"notifications/initialized","params":{}}"#.to_vec());
    assert!(matches!(
        prepare_replay_seed(SessionPhase::Live, Some(&seed)),
        Ok(Some(prepared)) if prepared == seed
    ));
    assert_eq!(
        prepare_replay_seed(SessionPhase::AwaitingInitialized, Some(&seed)),
        Err(HostRejection::InvalidExecutionState)
    );
}

#[test]
fn host_session_kernel_snapshot_roundtrip_restores_pending_and_queue() {
    let pending_payload = br#"{"jsonrpc":"2.0","id":7,"method":"tools/call","params":{"name":"diagnostics","arguments":{"file_path":"/tmp/lib.rs"}}}"#.to_vec();
    let queued_payload = br#"{"jsonrpc":"2.0","id":8,"method":"tools/call","params":{"name":"health_snapshot","arguments":{}}}"#.to_vec();

    let snapshot = HostSessionKernelSnapshot {
        format_version: SNAPSHOT_FORMAT_VERSION,
        session_phase: SessionPhase::Live,
        initialization_seed: Some(InitializationSeed {
            initialize_request: SeededInitializeRequest {
                id: RequestId::number(1),
                payload: br#"{"jsonrpc":"2.0","id":1,"method":"initialize","params":{}}"#.to_vec(),
            },
            initialized_notification: Some(
                br#"{"jsonrpc":"2.0","method":"notifications/initialized","params":{}}"#.to_vec(),
            ),
        }),
        pending: vec![PendingRequestSnapshot {
            request_id: RequestId::number(7),
            method: RpcMethod::tools_call(),
            sequence: 3,
            frame: pending_payload,
            replay_contract: ReplayContract::Convergent,
            execution_knowledge: ExecutionKnowledge::OutcomeUnknown,
            replay_attempts: 2,
            scheduled_disposition: None,
            age_ms: 25,
        }],
        queued_frames: vec![queued_payload],
        next_pending_sequence: 9,
    };

    let limits = match SnapshotLimits::try_new(8, 8, 1024 * 1024, 3) {
        Ok(limits) => limits,
        Err(_) => return,
    };
    let restored = restore(snapshot, limits);
    assert!(restored.is_ok(), "expected restore to succeed: {restored:?}");
    let restored = match restored {
        Ok(value) => value,
        Err(_) => return,
    };

    assert_eq!(restored.session_phase(), SessionPhase::Live);
    assert_eq!(restored.next_pending_sequence(), 9);
    assert_eq!(restored.pending_len(), 1);
    assert_eq!(restored.queued_len(), 1);
    let pending = restored.pending_request(&RequestId::number(7));
    assert!(pending.is_some(), "expected pending request to round-trip");
    let pending = match pending {
        Some(value) => value,
        None => return,
    };
    assert_eq!(pending.sequence(), 3);
    assert!(pending.method().is_tools_call());
    assert_eq!(pending.replay_contract(), ReplayContract::Convergent);
    assert_eq!(pending.replay_attempts(), 2);
    assert_eq!(pending.execution_knowledge(), ExecutionKnowledge::OutcomeUnknown);
    assert!(
        pending.tool_call_meta().is_some(),
        "expected tool metadata to be reconstructed from replay snapshot"
    );
}

#[test]
fn snapshot_restore_rejects_version_identity_bounds_and_phase_corruption() {
    let Some(request) = tool_request(71, "snapshot") else {
        return;
    };
    let mut kernel = HostSessionKernel::cold();
    assert!(kernel.begin_request_dispatch(&request, ReplayContract::Convergent, 4).is_ok());
    let snapshot = kernel.snapshot();
    let limits = match SnapshotLimits::try_new(4, 4, 1024, 2) {
        Ok(limits) => limits,
        Err(_) => return,
    };

    let mut wrong_version = snapshot.clone();
    wrong_version.format_version = 99;
    assert!(matches!(
        restore(wrong_version, limits),
        Err(SnapshotError::UnsupportedVersion { found: 99 })
    ));

    let mut divergent_identity = snapshot.clone();
    divergent_identity.pending[0].request_id = RequestId::number(72);
    assert!(matches!(restore(divergent_identity, limits), Err(SnapshotError::Invariant(_))));

    let mut excessive_attempts = snapshot.clone();
    excessive_attempts.pending[0].replay_attempts = 3;
    assert!(matches!(
        restore(excessive_attempts, limits),
        Err(SnapshotError::Capacity {
            resource: "replay attempt"
        })
    ));

    let mut impossible_phase = snapshot;
    impossible_phase.session_phase = SessionPhase::Live;
    assert!(matches!(restore(impossible_phase, limits), Err(SnapshotError::Invariant(_))));
}

#[test]
fn snapshot_restore_validates_scheduled_recovery_order() {
    let Some(first) = tool_request(81, "first") else {
        return;
    };
    let Some(second) = tool_request(82, "second") else {
        return;
    };
    let mut kernel = HostSessionKernel::cold();
    assert!(kernel.begin_request_dispatch(&first, ReplayContract::Convergent, 4).is_ok());
    assert!(kernel.begin_request_dispatch(&second, ReplayContract::Convergent, 4).is_ok());
    let outcome = kernel.requeue_pending_for_replay(ReplayBudget {
        max_attempts: 2,
        queue_capacity: 4,
    });
    assert!(outcome.rejected.is_empty());
    let snapshot = kernel.snapshot();
    let limits = match SnapshotLimits::try_new(4, 4, 1024, 2) {
        Ok(limits) => limits,
        Err(_) => return,
    };
    assert!(restore(snapshot.clone(), limits).is_ok());

    let mut reversed = snapshot;
    reversed.queued_frames.reverse();
    assert!(matches!(restore(reversed, limits), Err(SnapshotError::Invariant(_))));
}

#[test]
fn replay_requeue_drops_requests_that_exhaust_budget() {
    let diagnostics = parse_frame(
        br#"{"jsonrpc":"2.0","id":2,"method":"tools/call","params":{"name":"diagnostics","arguments":{"file_path":"/tmp/lib.rs"}}}"#.to_vec(),
    );
    assert!(diagnostics.is_ok());
    let diagnostics = match diagnostics {
        Ok(value) => value,
        Err(_) => return,
    };

    let mut kernel = HostSessionKernel::cold();
    let dispatched = kernel.begin_request_dispatch(&diagnostics, ReplayContract::Convergent, 8);
    assert!(dispatched.is_ok());
    let first_recovery = kernel.requeue_pending_for_replay(ReplayBudget {
        max_attempts: 1,
        queue_capacity: 8,
    });
    assert!(first_recovery.rejected.is_empty());
    let replay = kernel.pop_next_dispatch();
    assert!(matches!(replay, Ok(DispatchQueueOutcome::Replay(_))));

    let outcome = kernel.requeue_pending_for_replay(ReplayBudget {
        max_attempts: 1,
        queue_capacity: 8,
    });
    assert_eq!(outcome.rejected.len(), 1);
    assert_eq!(outcome.rejected[0].reason, HostRejection::ReplayBudgetExhausted);
    assert!(kernel.queue_is_empty());
}

#[test]
fn admission_rejects_duplicate_ids_and_bounds_pending_work() {
    let Some(first) = tool_request(11, "first") else {
        return;
    };
    let Some(second) = tool_request(12, "second") else {
        return;
    };
    let mut kernel = HostSessionKernel::cold();

    assert!(kernel.begin_request_dispatch(&first, ReplayContract::Convergent, 1).is_ok());
    assert_eq!(
        kernel.begin_request_dispatch(&first, ReplayContract::Convergent, 1),
        Err(HostRejection::DuplicateRequestId)
    );
    assert_eq!(
        kernel.begin_request_dispatch(&second, ReplayContract::Convergent, 1),
        Err(HostRejection::PendingCapacityExhausted)
    );

    let Some(first_response) = success_response(11) else {
        return;
    };
    assert!(kernel.complete_response(&first_response).is_ok());
    assert!(matches!(
        kernel.complete_response(&first_response),
        Err(HostRejection::RequestNotPending)
    ));
    assert!(kernel.begin_request_dispatch(&first, ReplayContract::Convergent, 1).is_ok());
}

#[test]
fn public_initialization_advances_only_on_observed_protocol_events() {
    let initialize =
        parse_frame(br#"{"jsonrpc":"2.0","id":41,"method":"initialize","params":{}}"#.to_vec());
    let initialized = parse_frame(
        br#"{"jsonrpc":"2.0","method":"notifications/initialized","params":{}}"#.to_vec(),
    );
    let Some(response) = success_response(41) else {
        return;
    };
    let (Ok(initialize), Ok(initialized)) = (initialize, initialized) else {
        return;
    };
    let mut kernel = HostSessionKernel::cold();

    assert!(kernel.observe_client_frame(&initialize).is_ok());
    assert_eq!(kernel.session_phase(), SessionPhase::Cold);
    assert!(kernel.begin_request_dispatch(&initialize, ReplayContract::Convergent, 1).is_ok());
    assert_eq!(kernel.session_phase(), SessionPhase::Initializing);
    assert_eq!(
        kernel.observe_client_frame(&initialized),
        Err(HostRejection::InvalidExecutionState)
    );
    assert!(kernel.complete_response(&response).is_ok());
    assert_eq!(kernel.session_phase(), SessionPhase::AwaitingInitialized);
    assert!(
        matches!(kernel.replay_seed(), Ok(Some(seed)) if seed.initialized_notification.is_none())
    );

    assert!(kernel.observe_client_frame(&initialized).is_ok());
    assert_eq!(kernel.session_phase(), SessionPhase::Live);
    assert!(
        matches!(kernel.replay_seed(), Ok(Some(seed)) if seed.initialized_notification.as_deref() == Some(initialized.payload()))
    );
}

#[test]
fn recovery_obeys_contracts_and_blocks_younger_work_at_probes() {
    let Some(convergent) = tool_request(21, "convergent") else {
        return;
    };
    let Some(probed) = tool_request(22, "probed") else {
        return;
    };
    let Some(forbidden) = tool_request(23, "forbidden") else {
        return;
    };
    let Some(younger) = tool_request(24, "younger") else {
        return;
    };
    let mut kernel = HostSessionKernel::cold();
    assert!(kernel.begin_request_dispatch(&convergent, ReplayContract::Convergent, 8).is_ok());
    assert!(kernel.begin_request_dispatch(&probed, ReplayContract::ProbeRequired, 8).is_ok());
    assert!(kernel.begin_request_dispatch(&forbidden, ReplayContract::NeverReplay, 8).is_ok());
    assert!(kernel.queue_client_frame(younger, 8).is_ok());

    let outcome = kernel.requeue_pending_for_replay(ReplayBudget {
        max_attempts: 2,
        queue_capacity: 8,
    });
    assert_eq!(outcome.held_for_probe, vec![RequestId::number(22)]);
    assert!(matches!(
        outcome.rejected.as_slice(),
        [rejected] if rejected.request_id == RequestId::number(23)
            && rejected.reason == HostRejection::AmbiguousOutcome
    ));
    let convergent_pending = kernel.pending_request(&RequestId::number(21));
    assert!(matches!(convergent_pending, Some(request) if request.replay_attempts() == 0));

    assert!(matches!(
        kernel.pop_next_dispatch(),
        Ok(DispatchQueueOutcome::Replay(frame)) if is_request(&frame, 21)
    ));
    assert!(matches!(
        kernel.pop_next_dispatch(),
        Ok(DispatchQueueOutcome::HeldForProbe { request_id }) if request_id == RequestId::number(22)
    ));
    let resolved = kernel.resolve_probe(&RequestId::number(22), ProbeResolution::SafeToReplay, 2);
    assert!(matches!(
        resolved,
        Ok(ProbeResolutionOutcome::ReplayAuthorized { request_id }) if request_id == RequestId::number(22)
    ));
    assert!(matches!(
        kernel.pop_next_dispatch(),
        Ok(DispatchQueueOutcome::Replay(frame)) if is_request(&frame, 22)
    ));
    assert!(matches!(
        kernel.pop_next_dispatch(),
        Ok(DispatchQueueOutcome::ClientFrame(frame)) if is_request(&frame, 24)
    ));
    assert!(kernel.pending_request(&RequestId::number(23)).is_none());
    assert!(matches!(
        kernel
            .pending_request(&RequestId::number(22))
            .map(|request| request.execution_knowledge()),
        Some(ExecutionKnowledge::InFlight)
    ));
}

#[test]
fn probe_completion_and_late_terminal_outcomes_cannot_leak_replays() {
    let Some(probed) = tool_request(31, "probed") else {
        return;
    };
    let Some(convergent) = tool_request(32, "convergent") else {
        return;
    };
    let mut kernel = HostSessionKernel::cold();
    assert!(kernel.begin_request_dispatch(&probed, ReplayContract::ProbeRequired, 8).is_ok());
    assert!(kernel.begin_request_dispatch(&convergent, ReplayContract::Convergent, 8).is_ok());
    let outcome = kernel.requeue_pending_for_replay(ReplayBudget {
        max_attempts: 1,
        queue_capacity: 8,
    });
    assert_eq!(outcome.held_for_probe.len(), 1);

    let resolved = kernel.resolve_probe(&RequestId::number(31), ProbeResolution::AlreadyCompleted, 1);
    assert!(matches!(resolved, Ok(ProbeResolutionOutcome::Completed(_))));
    assert!(matches!(
        kernel.pop_next_dispatch(),
        Ok(DispatchQueueOutcome::Replay(frame)) if is_request(&frame, 32)
    ));

    let second_loss = kernel.requeue_pending_for_replay(ReplayBudget {
        max_attempts: 2,
        queue_capacity: 8,
    });
    assert!(second_loss.rejected.is_empty());
    assert!(!kernel.queue_is_empty());
    let Some(response) = success_response(32) else {
        return;
    };
    assert!(kernel.complete_response(&response).is_ok());
    assert!(kernel.queue_is_empty());
    assert!(matches!(
        kernel.complete_response(&response),
        Err(HostRejection::RequestNotPending)
    ));
}

#[test]
fn rejection_codes_and_messages_are_stable() {
    assert_eq!(HostRejection::QueueOverflow.code(), -32097);
    assert_eq!(HostRejection::InvalidExecutionState.code(), -32603);
    assert_eq!(HostRejection::DuplicateRequestId.message(), "public request id is already outstanding");
    assert_eq!(HostRejection::AmbiguousOutcome.code(), -32094);
}

#[test]
fn restore_rejects_frames_that_are_not_json_rpc() {
    let snapshot = HostSessionKernelSnapshot {
        format_version: SNAPSHOT_FORMAT_VERSION,
        session_phase: SessionPhase::Cold,
        initialization_seed: None,
        pending: Vec::new(),
        queued_frames: vec![b"[1]".to_vec()],
        next_pending_sequence: 0,
    };
    let limits = SnapshotLimits::try_new(1, 1, 64, 1).expect("limits");
    assert!(matches!(
        restore(snapshot.clone(), limits),
        Err(SnapshotError::InvalidFrame(FrameParseError::RootNotObject))
    ));
    let tight = SnapshotLimits::try_new(1, 0, 64, 1).expect("limits");
    assert!(matches!(
        restore(snapshot, tight),
        Err(SnapshotError::Capacity { resource: "queued frame" })
    ));
    assert!(SnapshotLimits::try_new(1, 1, 0, 1).is_err());
    let cold = restore(HostSessionKernel::cold().snapshot(), limits).expect("cold restores");
    assert_eq!(cold.session_phase(), SessionPhase::Cold);
    assert!(cold.pending_is_empty());
}

use libmcp::host::{
    DispatchQueueOutcome, HostRejection, HostSessionKernel, HostSessionKernelSnapshot, ReplayBudget,
    SessionPhase, SnapshotDocuments, SnapshotError, SnapshotLimits,
};
use libmcp::json::{JsonNumber, JsonValue};
use libmcp::jsonrpc::{FrameParseError, FramedMessage, RequestId, RpcEnvelopeKind};
use libmcp::render::{JsonPorcelainConfig, render_json_porcelain};
use libmcp::replay::{
    ExecutionKnowledge, ProbeResolution, ReplayAllowance, ReplayContract, RequestDisposition, request_disposition,
};
use libmcp::testkit::ChurnHarness;

struct Doc(JsonValue);

struct DocVisitor;

impl<'de> serde::Deserialize<'de> for Doc {
    fn deserialize<D>(deserializer: D) -> Result<Self, D::Error>
    where
        D: serde::Deserializer<'de>,
    {
        deserializer.deserialize_any(DocVisitor)
    }
}

impl<'de> serde::de::Visitor<'de> for DocVisitor {
    type Value = Doc;

    fn expecting(&self, formatter: &mut std::fmt::Formatter<'_>) -> std::fmt::Result {
        formatter.write_str("a JSON value")
    }

    fn visit_bool<E>(self, value: bool) -> Result<Doc, E> {
        Ok(Doc(JsonValue::Bool(value)))
    }

    fn visit_i64<E>(self, value: i64) -> Result<Doc, E> {
        Ok(Doc(JsonValue::Number(if value >= 0 {
            JsonNumber::Unsigned(value as u64)
        } else {
            JsonNumber::Negative(value)
        })))
    }

    fn visit_u64<E>(self, value: u64) -> Result<Doc, E> {
        Ok(Doc(JsonValue::Number(JsonNumber::Unsigned(value))))
    }

    fn visit_f64<E>(self, value: f64) -> Result<Doc, E>
    where
        E: serde::de::Error,
    {
        serde_json::Number::from_f64(value)
            .map(|number| Doc(JsonValue::Number(JsonNumber::Float(number.to_string()))))
            .ok_or_else(|| E::custom("JSON numbers must be finite"))
    }

    fn visit_str<E>(self, value: &str) -> Result<Doc, E> {
        Ok(Doc(JsonValue::String(value.to_owned())))
    }

    fn visit_string<E>(self, value: String) -> Result<Doc, E> {
        Ok(Doc(JsonValue::String(value)))
    }

    fn visit_none<E>(self) -> Result<Doc, E> {
        Ok(Doc(JsonValue::Null))
    }

    fn visit_unit<E>(self) -> Result<Doc, E> {
        Ok(Doc(JsonValue::Null))
    }

    fn visit_seq<A>(self, mut sequence: A) -> Result<Doc, A::Error>
    where
        A: serde::de::SeqAccess<'de>,
    {
        let mut items = Vec::new();
        while let Some(Doc(item)) = sequence.next_element::<Doc>()? {
            items.push(item);
        }
        Ok(Doc(JsonValue::Array(items)))
    }

    fn visit_map<A>(self, mut members: A) -> Result<Doc, A::Error>
    where
        A: serde::de::MapAccess<'de>,
    {
        let mut object = Vec::new();
        while let Some(name) = members.next_key::<String>()? {
            let Doc(value) = members.next_value::<Doc>()?;
            object.push((name, value));
        }
        Ok(Doc(JsonValue::Object(object)))
    }
}

fn document(payload: &[u8]) -> Result<JsonValue, String> {
    serde_json::from_slice::<Doc>(payload)
        .map(|doc| doc.0)
        .map_err(|error| error.to_string())
}

fn parse_frame(payload: Vec<u8>) -> Result<FramedMessage, FrameParseError> {
    let decoded = document(&payload);
    FramedMessage::from_document(payload, decoded)
}

fn json(text: &str) -> JsonValue {
    document(text.as_bytes()).expect("test JSON is well formed")
}

fn documents_for(snapshot: &HostSessionKernelSnapshot) -> SnapshotDocuments {
    SnapshotDocuments {
        pending_frames: snapshot.pending.iter().map(|entry| document(&entry.frame)).collect(),
        queued_frames: snapshot.queued_frames.iter().map(|payload| document(payload)).collect(),
        initialize_request: snapshot
            .initialization_seed
            .as_ref()
            .map(|seed| document(&seed.initialize_request.payload)),
        initialized_notification: snapshot
            .initialization_seed
            .as_ref()
            .and_then(|seed| seed.initialized_notification.as_ref())
            .map(|payload| document(payload)),
    }
}

fn restore(
    snapshot: HostSessionKernelSnapshot,
    limits: SnapshotLimits,
) -> Result<HostSessionKernel, SnapshotError> {
    let documents = documents_for(&snapshot);
    snapshot.restore(limits, documents)
}

fn request(id: u64, name: &str) -> FramedMessage {
    let payload = format!(
        r#"{{"jsonrpc":"2.0","id":{id},"method":"tools/call","params":{{"name":"{name}","arguments":{{}}}}}}"#
    )
    .into_bytes();
    parse_frame(payload).expect("request frame")
}

fn response(id: u64) -> Result<FramedMessage, FrameParseError> {
    parse_frame(format!(r#"{{"jsonrpc":"2.0","id":{id},"result":{{}}}}"#).into_bytes())
}

fn request_id(frame: &FramedMessage) -> Option<RequestId> {
    match frame.classify() {
        RpcEnvelopeKind::Request { id, .. } => Some(id),
        RpcEnvelopeKind::Notification { .. } | RpcEnvelopeKind::Response { .. } => None,
    }
}

#[test]
fn downstream_recovery_obeys_contract_order_and_actual_attempt_accounting() {
    let convergent = request(1, "convergent");
    let probed = request(2, "probed");
    let forbidden = request(3, "forbidden");
    let mut harness = ChurnHarness::cold();
    harness.dispatch_first(&convergent, ReplayContract::Convergent, 8).expect("first");
    harness.dispatch_first(&probed, ReplayContract::ProbeRequired, 8).expect("second");
    harness.dispatch_first(&forbidden, ReplayContract::NeverReplay, 8).expect("third");

    let recovery = harness.kill_worker(ReplayBudget { max_attempts: 1, queue_capacity: 8 });
    assert_eq!(recovery.held_for_probe, vec![RequestId::number(2)]);
    assert!(matches!(
        recovery.rejected.as_slice(),
        [rejected] if rejected.request_id == RequestId::number(3)
            && rejected.reason == HostRejection::AmbiguousOutcome
    ));
    assert!(matches!(
        harness.kernel().pending_request(&RequestId::number(1)),
        Some(request)
            if request.execution_knowledge() == ExecutionKnowledge::OutcomeUnknown
                && request.replay_attempts() == 0
    ));

    assert!(matches!(
        harness.dispatch_next().expect("dispatch"),
        DispatchQueueOutcome::Replay(frame)
            if request_id(&frame).as_ref() == Some(&RequestId::number(1))
    ));
    assert!(matches!(
        harness.kernel().pending_request(&RequestId::number(1)),
        Some(request) if request.replay_attempts() == 1
    ));
    assert!(matches!(
        harness.dispatch_next().expect("dispatch"),
        DispatchQueueOutcome::HeldForProbe { request_id }
            if request_id == RequestId::number(2)
    ));
    harness.resolve_probe(&RequestId::number(2), ProbeResolution::SafeToReplay, 1).expect("probe");
    assert!(matches!(
        harness.dispatch_next().expect("dispatch"),
        DispatchQueueOutcome::Replay(frame)
            if request_id(&frame).as_ref() == Some(&RequestId::number(2))
    ));
    assert!(matches!(harness.dispatch_next().expect("dispatch"), DispatchQueueOutcome::Empty));
    assert!(harness.kernel().pending_request(&RequestId::number(3)).is_none());

    let ids = harness.dispatched().iter().filter_map(request_id).collect::<Vec<_>>();
    assert_eq!(
        ids,
        vec![
            RequestId::number(1),
            RequestId::number(2),
            RequestId::number(3),
            RequestId::number(1),
            RequestId::number(2),
        ]
    );
}

#[test]
fn downstream_kernel_rejects_duplicate_and_double_terminal_ids() {
    let request = request(11, "once");
    let response = response(11).expect("response");
    let mut harness = ChurnHarness::cold();
    harness.dispatch_first(&request, ReplayContract::Convergent, 1).expect("first");
    assert_eq!(
        harness.dispatch_first(&request, ReplayContract::Convergent, 1),
        Err(HostRejection::DuplicateRequestId)
    );
    harness.complete(&response).expect("complete");
    assert!(matches!(harness.complete(&response), Err(HostRejection::RequestNotPending)));
    harness.dispatch_first(&request, ReplayContract::Convergent, 1).expect("reused");
}

#[test]
fn downstream_worker_loss_respects_pre_and_post_dispatch_boundaries() {
    let queued = request(15, "queued");
    let completed = request(16, "completed");
    let completed_response = response(16).expect("response");
    let mut kernel = HostSessionKernel::cold();
    kernel.queue_client_frame(queued.duplicate(), 4).expect("queue");
    let recovery = kernel.requeue_pending_for_replay(ReplayBudget { max_attempts: 1, queue_capacity: 4 });
    assert!(recovery.rejected.is_empty());
    let dequeued = kernel.pop_next_dispatch().expect("pop");
    assert!(matches!(
        dequeued,
        DispatchQueueOutcome::ClientFrame(ref frame) if frame.payload() == queued.payload()
    ));
    assert!(kernel.pending_is_empty());
    kernel.begin_request_dispatch(&queued, ReplayContract::NeverReplay, 4).expect("dispatch");

    let mut completed_kernel = HostSessionKernel::cold();
    completed_kernel.begin_request_dispatch(&completed, ReplayContract::Convergent, 4).expect("dispatch");
    completed_kernel.complete_response(&completed_response).expect("complete");
    let recovery = completed_kernel.requeue_pending_for_replay(ReplayBudget { max_attempts: 1, queue_capacity: 4 });
    assert!(recovery.rejected.is_empty());
    assert!(completed_kernel.pending_is_empty());
    assert!(matches!(completed_kernel.pop_next_dispatch().expect("pop"), DispatchQueueOutcome::Empty));
}

#[test]
fn downstream_recovery_capacity_rejects_without_overwrite() {
    let first = request(17, "first");
    let second = request(18, "second");
    let mut kernel = HostSessionKernel::cold();
    kernel.begin_request_dispatch(&first, ReplayContract::Convergent, 2).expect("first");
    kernel.begin_request_dispatch(&second, ReplayContract::Convergent, 2).expect("second");
    let recovery = kernel.requeue_pending_for_replay(ReplayBudget { max_attempts: 1, queue_capacity: 1 });
    assert!(matches!(
        recovery.rejected.as_slice(),
        [rejected] if rejected.request_id == RequestId::number(18)
            && rejected.reason == HostRejection::QueueOverflow
    ));
    assert_eq!(kernel.pending_len(), 1);
    assert!(matches!(
        kernel.pop_next_dispatch().expect("pop"),
        DispatchQueueOutcome::Replay(frame)
            if request_id(&frame).as_ref() == Some(&RequestId::number(17))
    ));
}

#[test]
fn downstream_snapshot_roundtrip_preserves_recovery_and_rejects_versions() {
    let request = request(21, "snapshot");
    let mut kernel = HostSessionKernel::cold();
    kernel.begin_request_dispatch(&request, ReplayContract::Convergent, 4).expect("dispatch");
    let recovery = kernel.requeue_pending_for_replay(ReplayBudget { max_attempts: 2, queue_capacity: 4 });
    assert!(recovery.rejected.is_empty());
    let snapshot = kernel.snapshot();
    let limits = SnapshotLimits::try_new(4, 4, 1024, 2).expect("limits");
    let mut restored = restore(snapshot.clone(), limits).expect("restore");
    assert!(matches!(
        restored.pop_next_dispatch().expect("pop"),
        DispatchQueueOutcome::Replay(frame)
            if request_id(&frame).as_ref() == Some(&RequestId::number(21))
    ));
    assert!(matches!(
        restored.pending_request(&RequestId::number(21)),
        Some(request) if request.replay_attempts() == 1
    ));

    let mut corrupt = snapshot;
    corrupt.format_version = 999;
    assert!(matches!(
        restore(corrupt, limits),
        Err(SnapshotError::UnsupportedVersion { found: 999 })
    ));
}

#[test]
fn downstream_public_initialization_never_invents_client_events() {
    let initialize =
        parse_frame(br#"{"jsonrpc":"2.0","id":31,"method":"initialize","params":{}}"#.to_vec()).expect("initialize");
    let initialized =
        parse_frame(br#"{"jsonrpc":"2.0","method":"notifications/initialized","params":{}}"#.to_vec())
            .expect("initialized");
    let response = response(31).expect("response");
    let mut kernel = HostSessionKernel::cold();
    kernel.observe_client_frame(&initialize).expect("observe");
    kernel.begin_request_dispatch(&initialize, ReplayContract::Convergent, 1).expect("dispatch");
    assert_eq!(kernel.session_phase(), SessionPhase::Initializing);
    kernel.complete_response(&response).expect("complete");
    assert_eq!(kernel.session_phase(), SessionPhase::AwaitingInitialized);
    assert!(matches!(kernel.replay_seed(), Ok(Some(seed)) if seed.initialized_notification().is_none()));
    kernel.observe_client_frame(&initialized).expect("observe");
    assert_eq!(kernel.session_phase(), SessionPhase::Live);
    assert!(matches!(kernel.replay_seed(), Ok(Some(seed)) if seed.initialized_notification().is_some()));
}

#[test]
fn downstream_decision_and_render_laws_are_total_and_visible() {
    let available = ReplayAllowance::new(0, 1);
    assert_eq!(
        request_disposition(ExecutionKnowledge::OutcomeUnknown, ReplayContract::Convergent, None, available),
        RequestDisposition::Replay
    );
    assert_eq!(
        request_disposition(ExecutionKnowledge::OutcomeUnknown, ReplayContract::ProbeRequired, None, available),
        RequestDisposition::HoldForProbe
    );
    assert_eq!(
        request_disposition(ExecutionKnowledge::OutcomeUnknown, ReplayContract::NeverReplay, None, available),
        RequestDisposition::RejectAmbiguousOutcome
    );

    let config = JsonPorcelainConfig::try_new(2, 8).expect("config");
    let rendered = render_json_porcelain(&json(r#"{"alpha": "one", "beta": "two", "gamma": "three"}"#), config);
    assert_eq!(rendered.lines().count(), 2);
    assert!(rendered.contains("omitted"));
    let scalar = render_json_porcelain(&json(r#""quote\" newline\n tail""#), config);
    assert!(scalar.contains('…'));
    assert!(serde_json::from_str::<String>(&scalar).is_ok());
}

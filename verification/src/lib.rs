//! Shared operational spine for hardened MCP servers.

pub mod types;
pub mod replay;
pub mod text;
pub mod json;
pub mod jsonrpc;
pub mod normalize;
pub mod callmeta;
pub mod host;
pub mod fault;
pub mod health;
pub mod render;
pub mod rollout;
pub mod effect;
pub mod pointer;
pub mod supervisor;
pub mod framing;
pub mod projection;
pub mod testkit;
pub mod telemetry;

pub use effect::{
    EffectContractError, EffectRecovery, InvalidStateReason, SessionStateContract, ToolCatalog,
    ToolEffectContract,
};
pub use fault::{Fault, FaultClass, FaultCode, RecoveryDirective, RecoveryHint};
pub use framing::{
    FrameBuffer, FrameError, FrameLimit, FrameReadOutcome, LineAssembler, TimedFrameReadOutcome,
    TimedFrameReader, encode_frame, validate_frame_payload,
};
pub use health::{
    HealthSnapshot, LifecycleState, MethodTelemetry, OperationalLedger, OperationalMetricError,
    RolloutState, TelemetrySnapshot, TelemetryTotals, WorkerHandshakePhase,
};
pub use host::{
    CompletedPendingRequest, DispatchQueueOutcome, HostRejection, HostSessionKernel,
    HostSessionKernelSnapshot, InitializationSeed, PendingRequest, ProbeResolutionOutcome,
    RejectedReplay, ReplayBudget, ReplayRequeueOutcome, SNAPSHOT_FORMAT_VERSION,
    SeededInitializeRequest, SessionPhase, SnapshotDocuments, SnapshotError, SnapshotLimits,
    prepare_replay_seed,
};
pub use jsonrpc::{
    FrameParseError, FramedMessage, RequestId, RpcEnvelopeKind, RpcMethod, ToolCallMeta, ToolName,
    parse_tool_call_meta,
};
pub use normalize::{
    NumericParseError, PathNormalizeError, checked_u64_to_usize, normalize_local_path,
    parse_human_unsigned_u64,
};
pub use projection::{
    FallbackJsonProjection, ProjectionError, ProjectionPolicy, SelectorProjection, SelectorRef,
    StructuredProjection, SurfaceKind, SurfacePolicy, SurfacePorcelainBounds, TimestampText,
    ToolProjection,
};
pub use render::{
    DetailLevel, JsonPorcelainConfig, PathStyle, RenderConfig, RenderMode, TruncatedText,
    collapse_inline_whitespace, render_json_porcelain, render_path, truncate_chars,
    with_presentation_properties,
};
pub use replay::{
    ExecutionKnowledge, ExecutionTransitionError, ProbeResolution, ReplayAllowance, ReplayContract,
    RequestDisposition, request_disposition,
};
pub use rollout::{
    BinaryFingerprint, HandoffOutcome, ReleaseError, ReleaseErrorKind, ReleaseId, ReleaseManifest,
    ReleaseObservation, ReleasePointer, ReleaseProvenance, ReleaseRuntime, StateCompatibility,
    SuccessorTarget, verify_release,
};
pub use supervisor::{SupervisorAction, SupervisorConfig, SupervisorCore, SupervisorError};
pub use telemetry::{
    HotPathLine, HotPathsSnapshot, PathAggregate, PendingCompletion, TelemetryError, TelemetryFlushPolicy,
    TelemetryState, ToolErrorDetail, ToolOutcome,
};
pub use testkit::{ChurnHarness, ProjectionAssertion, assert_projection_doctrine};
pub use types::{Generation, InvariantViolation};

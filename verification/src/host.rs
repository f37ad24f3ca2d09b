//! Durable public-session runtime primitives for hardened MCP hosts.

use vstd::prelude::*;
use crate::callmeta::{ToolCallMeta, ToolCallMetaView, parse_tool_call_meta, spec_tool_call_meta};
use crate::jsonrpc::{
    EnvelopeView, FrameView, FramedMessage, RequestId, RequestIdView, RpcEnvelopeKind, RpcMethod,
    is_initialize_method, is_initialized_method,
};
use crate::replay::{
    ExecutionKnowledge, ProbeResolution, ReplayAllowance, ReplayContract, RequestDisposition,
    dispatch_is_lawful, request_disposition, spec_after_worker_loss, spec_allowance,
    spec_request_disposition,
};

pub mod snapshot;
pub mod laws;
pub mod roundtrip;

pub use self::snapshot::{
    CapsuleRefusal, check_capsule, check_capsule_prefix, HostSessionKernelSnapshot, PendingRequestSnapshot, SNAPSHOT_FORMAT_VERSION, SnapshotDocuments,
    SnapshotError, SnapshotLimits,
};

verus! {

/// Public MCP initialization phase, independent of worker readiness.
#[derive(Debug, Clone, Copy, PartialEq, Eq, Structural)]
pub enum SessionPhase {
    /// No initialize request is active.
    Cold,
    /// The public initialize request is in flight.
    Initializing,
    /// Initialize succeeded; the client notification has not yet arrived.
    AwaitingInitialized,
    /// The client completed the public initialization handshake.
    Live,
}

/// Captured initialize request needed to reseed a replacement worker.
#[derive(Debug, PartialEq, Eq)]
pub struct SeededInitializeRequest {
    /// Original request identifier.
    pub id: RequestId,
    /// Original serialized JSON-RPC frame.
    pub payload: Vec<u8>,
}

/// Captured initialization seed for worker replay.
#[derive(Debug, PartialEq, Eq)]
pub struct InitializationSeed {
    /// Original initialize request.
    pub initialize_request: SeededInitializeRequest,
    /// Best-effort initialized notification payload.
    pub initialized_notification: Option<Vec<u8>>,
}

/// Mathematical model of an initialization seed.
pub struct SeedView {
    pub id: RequestIdView,
    pub payload: Seq<u8>,
    pub notification: Option<Seq<u8>>,
}

pub open spec fn opt_bytes_view(o: Option<Vec<u8>>) -> Option<Seq<u8>> {
    match o {
        Some(b) => Some(b@),
        None => None,
    }
}

impl View for InitializationSeed {
    type V = SeedView;

    open spec fn view(&self) -> SeedView {
        SeedView {
            id: self.initialize_request.id@,
            payload: self.initialize_request.payload@,
            notification: opt_bytes_view(self.initialized_notification),
        }
    }
}

pub open spec fn opt_seed_view(o: Option<InitializationSeed>) -> Option<SeedView> {
    match o {
        Some(s) => Some(s@),
        None => None,
    }
}

fn copy_bytes(b: &Vec<u8>) -> (r: Vec<u8>)
    ensures
        r@ == b@,
{
    let r = b.clone();
    assert(r@ =~= b@);
    r
}

impl SeededInitializeRequest {
    /// A copy of the same captured request.
    pub fn duplicate(&self) -> (r: Self)
        ensures
            r.id@ == self.id@,
            r.payload@ == self.payload@,
    {
        Self { id: self.id.duplicate(), payload: copy_bytes(&self.payload) }
    }
}

impl Clone for SeededInitializeRequest {
    fn clone(&self) -> (r: Self)
        ensures
            r.id@ == self.id@,
            r.payload@ == self.payload@,
    {
        self.duplicate()
    }
}

impl InitializationSeed {
    /// A copy of the same seed.
    pub fn duplicate(&self) -> (r: Self)
        ensures
            r@ == self@,
    {
        Self {
            initialize_request: self.initialize_request.duplicate(),
            initialized_notification: match &self.initialized_notification {
                Some(b) => Some(copy_bytes(b)),
                None => None,
            },
        }
    }

    /// Returns the captured initialized notification payload, if any.
    pub fn initialized_notification(&self) -> (r: Option<&[u8]>)
        ensures
            match r {
                Some(b) => self@.notification == Some(b@),
                None => self@.notification is None,
            },
    {
        match &self.initialized_notification {
            Some(b) => Some(b.as_slice()),
            None => None,
        }
    }
}

impl Clone for InitializationSeed {
    fn clone(&self) -> (r: Self)
        ensures
            r@ == self@,
    {
        self.duplicate()
    }
}

/// Common host-side request rejections.
#[derive(Debug, Clone, Copy, PartialEq, Eq, Structural)]
pub enum HostRejection {
    /// Recovery queue capacity was exhausted.
    QueueOverflow,
    /// The request exhausted its automatic replay budget.
    ReplayBudgetExhausted,
    /// An outstanding request already owns this public ID.
    DuplicateRequestId,
    /// The pending invocation capacity was exhausted.
    PendingCapacityExhausted,
    /// The frame was not a JSON-RPC request.
    InvalidRequestFrame,
    /// The request may have executed and its contract forbids replay.
    AmbiguousOutcome,
    /// A response or probe named no pending invocation.
    RequestNotPending,
    /// Kernel state contradicted the execution transition law.
    InvalidExecutionState,
}

/// The JSON-RPC error code of each rejection.
pub open spec fn rejection_code(r: HostRejection) -> int {
    match r {
        HostRejection::QueueOverflow => -32097,
        HostRejection::ReplayBudgetExhausted => -32095,
        HostRejection::DuplicateRequestId => -32600,
        HostRejection::PendingCapacityExhausted => -32096,
        HostRejection::InvalidRequestFrame => -32600,
        HostRejection::AmbiguousOutcome => -32094,
        HostRejection::RequestNotPending => -32600,
        HostRejection::InvalidExecutionState => -32603,
    }
}

/// The human-facing message of each rejection.
pub open spec fn rejection_message(r: HostRejection) -> Seq<char> {
    match r {
        HostRejection::QueueOverflow => "worker queue overflow during recovery"@,
        HostRejection::ReplayBudgetExhausted => "worker restart replay budget exhausted for request"@,
        HostRejection::DuplicateRequestId => "public request id is already outstanding"@,
        HostRejection::PendingCapacityExhausted => "pending request capacity exhausted"@,
        HostRejection::InvalidRequestFrame => "frame is not a JSON-RPC request"@,
        HostRejection::AmbiguousOutcome => "request outcome is ambiguous and replay is forbidden"@,
        HostRejection::RequestNotPending => "request id is not pending"@,
        HostRejection::InvalidExecutionState => "request execution state transition is invalid"@,
    }
}

impl HostRejection {
    /// JSON-RPC error code for the rejection.
    pub fn code(self) -> (r: i64)
        ensures
            r == rejection_code(self),
    {
        match self {
            Self::QueueOverflow => -32097,
            Self::ReplayBudgetExhausted => -32095,
            Self::DuplicateRequestId => -32600,
            Self::PendingCapacityExhausted => -32096,
            Self::InvalidRequestFrame => -32600,
            Self::AmbiguousOutcome => -32094,
            Self::RequestNotPending => -32600,
            Self::InvalidExecutionState => -32603,
        }
    }

    /// Human-facing rejection message.
    pub fn message(self) -> (r: &'static str)
        ensures
            r@ == rejection_message(self),
    {
        match self {
            Self::QueueOverflow => "worker queue overflow during recovery",
            Self::ReplayBudgetExhausted => "worker restart replay budget exhausted for request",
            Self::DuplicateRequestId => "public request id is already outstanding",
            Self::PendingCapacityExhausted => "pending request capacity exhausted",
            Self::InvalidRequestFrame => "frame is not a JSON-RPC request",
            Self::AmbiguousOutcome => "request outcome is ambiguous and replay is forbidden",
            Self::RequestNotPending => "request id is not pending",
            Self::InvalidExecutionState => "request execution state transition is invalid",
        }
    }
}

#[verifier::external_type_specification]
#[verifier::external_body]
pub struct ExInstant(std::time::Instant);

/// The current instant from `std::time::Instant::now`; nothing is promised of it.
#[verifier::external_body]
pub(crate) fn instant_now() -> std::time::Instant {
    std::time::Instant::now()
}

/// Time since an instant, from `std::time::Instant::elapsed`; nothing is promised of it.
#[verifier::external_body]
fn instant_elapsed(instant: &std::time::Instant) -> core::time::Duration {
    instant.elapsed()
}

/// Whole milliseconds of a duration, from `std::time::Duration::as_millis`;
/// nothing is promised of it here.
#[verifier::external_body]
fn duration_millis(duration: &core::time::Duration) -> u128 {
    duration.as_millis()
}

/// A duration of `millis` milliseconds, from `std::time::Duration::from_millis`.
#[verifier::external_body]
fn duration_from_millis(millis: u64) -> core::time::Duration {
    core::time::Duration::from_millis(millis)
}

/// An instant shifted back by a duration, from `std::time::Instant::checked_sub`;
/// whether the platform can represent it is not promised.
#[verifier::external_body]
fn instant_checked_sub(instant: &std::time::Instant, duration: core::time::Duration) -> Option<std::time::Instant> {
    instant.checked_sub(duration)
}

/// Milliseconds elapsed since an instant, saturating at `u64::MAX`.
pub(crate) fn age_millis(started_at: &std::time::Instant) -> u64 {
    let millis = duration_millis(&instant_elapsed(started_at));
    if millis > u64::MAX as u128 {
        u64::MAX
    } else {
        millis as u64
    }
}

/// Live pending request tracked by the host.
#[derive(Debug)]
pub struct PendingRequest {
    method: RpcMethod,
    sequence: u64,
    frame: FramedMessage,
    replay_contract: ReplayContract,
    started_at: std::time::Instant,
    tool_call_meta: Option<ToolCallMeta>,
    execution_knowledge: ExecutionKnowledge,
    replay_attempts: u8,
    scheduled_disposition: Option<RequestDisposition>,
}

/// Mathematical model of a pending invocation.
pub struct PendingView {
    pub method: Seq<char>,
    pub sequence: u64,
    pub frame: FrameView,
    pub contract: ReplayContract,
    pub meta: Option<ToolCallMetaView>,
    pub knowledge: ExecutionKnowledge,
    pub attempts: u8,
    pub scheduled: Option<RequestDisposition>,
}

pub open spec fn opt_meta_view(o: Option<ToolCallMeta>) -> Option<ToolCallMetaView> {
    match o {
        Some(m) => Some(m@),
        None => None,
    }
}

impl View for PendingRequest {
    type V = PendingView;

    closed spec fn view(&self) -> PendingView {
        PendingView {
            method: self.method@,
            sequence: self.sequence,
            frame: self.frame@,
            contract: self.replay_contract,
            meta: opt_meta_view(self.tool_call_meta),
            knowledge: self.execution_knowledge,
            attempts: self.replay_attempts,
            scheduled: self.scheduled_disposition,
        }
    }
}

impl PendingRequest {
    /// Returns the immutable public JSON-RPC method.
    pub fn method(&self) -> (r: &RpcMethod)
        ensures
            r@ == self@.method,
    {
        &self.method
    }

    /// Returns the stable ordering sequence.
    pub fn sequence(&self) -> (r: u64)
        ensures
            r == self@.sequence,
    {
        self.sequence
    }

    /// Returns the immutable original request frame.
    pub fn frame(&self) -> (r: &FramedMessage)
        ensures
            r@ == self@.frame,
    {
        &self.frame
    }

    /// Returns the invocation's replay contract.
    pub fn replay_contract(&self) -> (r: ReplayContract)
        ensures
            r == self@.contract,
    {
        self.replay_contract
    }

    /// Returns the local invocation start time.
    pub fn started_at(&self) -> std::time::Instant {
        self.started_at
    }

    /// Returns best-effort tool metadata for telemetry grouping.
    pub fn tool_call_meta(&self) -> (r: Option<&ToolCallMeta>)
        ensures
            match r {
                Some(m) => self@.meta == Some(m@),
                None => self@.meta is None,
            },
    {
        match &self.tool_call_meta {
            Some(m) => Some(m),
            None => None,
        }
    }

    /// Returns what the kernel knows about execution.
    pub fn execution_knowledge(&self) -> (r: ExecutionKnowledge)
        ensures
            r == self@.knowledge,
    {
        self.execution_knowledge
    }

    /// Returns replay attempts actually dispatched.
    pub fn replay_attempts(&self) -> (r: u8)
        ensures
            r == self@.attempts,
    {
        self.replay_attempts
    }

    /// Returns the recovery disposition scheduled for this invocation, if any.
    pub fn scheduled_disposition(&self) -> (r: Option<RequestDisposition>)
        ensures
            r == self@.scheduled,
    {
        self.scheduled_disposition
    }

    /// A copy of the same pending invocation.
    pub fn duplicate(&self) -> (r: Self)
        ensures
            r@ == self@,
    {
        Self {
            method: self.method.duplicate(),
            sequence: self.sequence,
            frame: self.frame.duplicate(),
            replay_contract: self.replay_contract,
            started_at: self.started_at,
            tool_call_meta: match &self.tool_call_meta {
                Some(m) => Some(m.duplicate()),
                None => None,
            },
            execution_knowledge: self.execution_knowledge,
            replay_attempts: self.replay_attempts,
            scheduled_disposition: self.scheduled_disposition,
        }
    }
}

impl Clone for PendingRequest {
    fn clone(&self) -> (r: Self)
        ensures
            r@ == self@,
    {
        self.duplicate()
    }
}

/// Pending request plus the number of replay attempts consumed so far.
#[derive(Debug)]
pub struct CompletedPendingRequest {
    /// Pending request metadata and original frame.
    pub request: PendingRequest,
    /// Replay attempts consumed for this request.
    pub replay_attempts: u8,
}

impl CompletedPendingRequest {
    /// Returns the completed invocation.
    pub fn request(&self) -> (r: &PendingRequest)
        ensures
            r@ == self.request@,
    {
        &self.request
    }
}

/// Result of taking the next recovery-ordered dispatch.
#[derive(Debug)]
pub enum DispatchQueueOutcome {
    /// A pending invocation crossed the dispatch boundary again as an authorized replay.
    Replay(FramedMessage),
    /// A queued client frame that owns no pending invocation left the queue.
    ClientFrame(FramedMessage),
    /// An older invocation blocks the queue pending consumer evidence.
    HeldForProbe {
        /// Public request identifier awaiting a probe.
        request_id: RequestId,
    },
    /// No frame is waiting.
    Empty,
}

/// Mathematical model of a dispatch outcome.
pub enum DispatchView {
    Replay(FrameView),
    ClientFrame(FrameView),
    HeldForProbe(RequestIdView),
    Empty,
}

impl View for DispatchQueueOutcome {
    type V = DispatchView;

    open spec fn view(&self) -> DispatchView {
        match self {
            DispatchQueueOutcome::Replay(f) => DispatchView::Replay(f@),
            DispatchQueueOutcome::ClientFrame(f) => DispatchView::ClientFrame(f@),
            DispatchQueueOutcome::HeldForProbe { request_id } => DispatchView::HeldForProbe(request_id@),
            DispatchQueueOutcome::Empty => DispatchView::Empty,
        }
    }
}

/// Result of applying consumer probe evidence.
#[derive(Debug)]
pub enum ProbeResolutionOutcome {
    /// The prior attempt completed and the invocation left pending state.
    Completed(Box<CompletedPendingRequest>),
    /// The held invocation is now authorized to replay in order.
    ReplayAuthorized {
        /// Public request identifier.
        request_id: RequestId,
    },
}

/// Mathematical model of a completed invocation and of a probe outcome.
pub enum ProbeView {
    Completed(PendingView, u8),
    ReplayAuthorized(RequestIdView),
}

impl View for ProbeResolutionOutcome {
    type V = ProbeView;

    open spec fn view(&self) -> ProbeView {
        match self {
            ProbeResolutionOutcome::Completed(c) => ProbeView::Completed(c.request@, c.replay_attempts),
            ProbeResolutionOutcome::ReplayAuthorized { request_id } => ProbeView::ReplayAuthorized(
                request_id@,
            ),
        }
    }
}

/// Recovery-time configuration for pending-request replay.
#[derive(Debug, Clone, Copy, PartialEq, Eq, Structural)]
pub struct ReplayBudget {
    /// Maximum replay attempts per request.
    pub max_attempts: u8,
    /// Total queue capacity, including replayed and newly queued requests.
    pub queue_capacity: usize,
}

/// Request dropped during replay requeue.
#[derive(Debug)]
pub struct RejectedReplay {
    /// Request identifier.
    pub request_id: RequestId,
    /// Pending request metadata.
    pub request: PendingRequest,
    /// Attempt number that triggered the drop.
    pub next_attempt: Option<u8>,
    /// Rejection reason.
    pub reason: HostRejection,
}

/// Mathematical model of a rejected replay.
pub struct RejectedView {
    pub id: RequestIdView,
    pub request: PendingView,
    pub next_attempt: Option<u8>,
    pub reason: HostRejection,
}

impl View for RejectedReplay {
    type V = RejectedView;

    open spec fn view(&self) -> RejectedView {
        RejectedView {
            id: self.request_id@,
            request: self.request@,
            next_attempt: self.next_attempt,
            reason: self.reason,
        }
    }
}

/// Result of rebuilding the replay queue after worker failure.
#[derive(Debug)]
pub struct ReplayRequeueOutcome {
    /// Requests dropped during recovery.
    pub rejected: Vec<RejectedReplay>,
    /// Requests held in recovery order until consumer probes resolve them.
    pub held_for_probe: Vec<RequestId>,
}

/// Mathematical model of a requeue outcome.
pub struct RequeueView {
    pub rejected: Seq<RejectedView>,
    pub held: Seq<RequestIdView>,
}

impl View for ReplayRequeueOutcome {
    type V = RequeueView;

    open spec fn view(&self) -> RequeueView {
        RequeueView {
            rejected: self.rejected@.map_values(|r: RejectedReplay| r@),
            held: self.held_for_probe@.map_values(|id: RequestId| id@),
        }
    }
}

impl Default for ReplayRequeueOutcome {
    fn default() -> (r: Self)
        ensures
            r@.rejected.len() == 0,
            r@.held.len() == 0,
    {
        Self { rejected: Vec::new(), held_for_probe: Vec::new() }
    }
}

} // verus!

verus! {

/// Durable public-session kernel shared by hardened MCP hosts.
///
/// Pending invocations are kept in ascending sequence order.
#[derive(Debug)]
pub struct HostSessionKernel {
    session_phase: SessionPhase,
    initialization_seed: Option<InitializationSeed>,
    pending: Vec<(RequestId, PendingRequest)>,
    queued_frames: Vec<FramedMessage>,
    next_pending_sequence: u64,
}

/// Mathematical model of the kernel: phase, seed, pending invocations in
/// sequence order, the dispatch queue, and the next sequence number.
pub struct KernelView {
    pub phase: SessionPhase,
    pub seed: Option<SeedView>,
    pub pending: Seq<(RequestIdView, PendingView)>,
    pub queue: Seq<FrameView>,
    pub next_sequence: u64,
}

pub open spec fn pending_entries_view(v: Seq<(RequestId, PendingRequest)>) -> Seq<(RequestIdView, PendingView)> {
    v.map_values(|e: (RequestId, PendingRequest)| (e.0@, e.1@))
}

pub open spec fn frames_view(v: Seq<FramedMessage>) -> Seq<FrameView> {
    v.map_values(|f: FramedMessage| f@)
}

impl View for HostSessionKernel {
    type V = KernelView;

    closed spec fn view(&self) -> KernelView {
        KernelView {
            phase: self.session_phase,
            seed: opt_seed_view(self.initialization_seed),
            pending: pending_entries_view(self.pending@),
            queue: frames_view(self.queued_frames@),
            next_sequence: self.next_pending_sequence,
        }
    }
}

/// The identifier of a request frame.
pub open spec fn frame_request_id(f: FrameView) -> Option<RequestIdView> {
    match f.envelope {
        EnvelopeView::Request { id, .. } => Some(id),
        _ => None,
    }
}

/// Whether a frame is a request carrying `id`.
pub open spec fn is_request_for(f: FrameView, id: RequestIdView) -> bool {
    frame_request_id(f) == Some(id)
}

/// `i` is the first pending slot owned by `id`.
pub open spec fn is_first_slot(ps: Seq<(RequestIdView, PendingView)>, id: RequestIdView, i: int) -> bool {
    &&& 0 <= i < ps.len()
    &&& ps[i].0 == id
    &&& forall|k: int| 0 <= k < i ==> (#[trigger] ps[k]).0 != id
}

/// The first pending slot owned by `id`, if any.
pub open spec fn pending_slot(ps: Seq<(RequestIdView, PendingView)>, id: RequestIdView) -> Option<int> {
    if exists|i: int| is_first_slot(ps, id, i) {
        Some(choose|i: int| is_first_slot(ps, id, i))
    } else {
        None
    }
}

/// Whether some pending invocation is owned by `id`.
pub open spec fn has_pending(ps: Seq<(RequestIdView, PendingView)>, id: RequestIdView) -> bool {
    exists|i: int| 0 <= i < ps.len() && (#[trigger] ps[i]).0 == id
}

/// Whether some queued frame is a request carrying `id`.
pub open spec fn queued_request(q: Seq<FrameView>, id: RequestIdView) -> bool {
    exists|i: int| 0 <= i < q.len() && is_request_for(#[trigger] q[i], id)
}

/// The queue without the requests carrying `id`, order preserved.
pub open spec fn without_request(q: Seq<FrameView>, id: RequestIdView) -> Seq<FrameView> {
    q.filter(|f: FrameView| !is_request_for(f, id))
}

/// Public-session phase and seed after observing a client frame.
pub open spec fn spec_observe_client_frame(k: KernelView, f: FrameView) -> Result<KernelView, HostRejection> {
    match f.envelope {
        EnvelopeView::Request { id, method } => if is_initialize_method(method) {
            if k.phase != SessionPhase::Cold {
                Err(HostRejection::InvalidExecutionState)
            } else {
                Ok(KernelView {
                    seed: Some(SeedView { id, payload: f.payload, notification: None }),
                    ..k
                })
            }
        } else {
            Ok(k)
        },
        EnvelopeView::Notification { method } => if is_initialized_method(method) {
            if k.phase != SessionPhase::AwaitingInitialized {
                Err(HostRejection::InvalidExecutionState)
            } else {
                match k.seed {
                    Some(s) => Ok(KernelView {
                        seed: Some(SeedView { notification: Some(f.payload), ..s }),
                        phase: SessionPhase::Live,
                        ..k
                    }),
                    None => Err(HostRejection::InvalidExecutionState),
                }
            }
        } else {
            Ok(k)
        },
        EnvelopeView::Response { .. } => Ok(k),
    }
}

/// Queueing a client frame while no ready worker is available.
pub open spec fn spec_queue_client_frame(k: KernelView, f: FrameView, capacity: usize) -> Result<KernelView, HostRejection> {
    if k.queue.len() >= capacity {
        Err(HostRejection::QueueOverflow)
    } else if frame_request_id(f) matches Some(id) && (has_pending(k.pending, id) || queued_request(k.queue, id)) {
        Err(HostRejection::DuplicateRequestId)
    } else {
        Ok(KernelView { queue: k.queue.push(f), ..k })
    }
}

/// Taking the next dispatch in recovery order: the outcome and the state after it.
pub open spec fn spec_pop_next_dispatch(k: KernelView) -> (Result<DispatchView, HostRejection>, KernelView) {
    if k.queue.len() == 0 {
        (Ok(DispatchView::Empty), k)
    } else {
        let head = k.queue[0];
        let rest = KernelView { queue: k.queue.drop_first(), ..k };
        match frame_request_id(head) {
            None => (Ok(DispatchView::ClientFrame(head)), rest),
            Some(id) => match pending_slot(k.pending, id) {
                None => (Ok(DispatchView::ClientFrame(head)), rest),
                Some(i) => {
                    let p = k.pending[i].1;
                    match p.scheduled {
                        Some(RequestDisposition::HoldForProbe) => (Ok(DispatchView::HeldForProbe(id)), k),
                        Some(RequestDisposition::Replay) => if !dispatch_is_lawful(
                            p.knowledge,
                            RequestDisposition::Replay,
                        ) {
                            (Err(HostRejection::InvalidExecutionState), k)
                        } else if p.attempts == u8::MAX {
                            (
                                Err(HostRejection::ReplayBudgetExhausted),
                                KernelView {
                                    pending: k.pending.update(
                                        i,
                                        (id, PendingView { knowledge: ExecutionKnowledge::InFlight, ..p }),
                                    ),
                                    ..k
                                },
                            )
                        } else {
                            (
                                Ok(DispatchView::Replay(head)),
                                KernelView {
                                    pending: k.pending.update(
                                        i,
                                        (
                                            id,
                                            PendingView {
                                                knowledge: ExecutionKnowledge::InFlight,
                                                attempts: (p.attempts + 1) as u8,
                                                scheduled: None,
                                                ..p
                                            },
                                        ),
                                    ),
                                    ..rest
                                },
                            )
                        },
                        _ => (Err(HostRejection::InvalidExecutionState), k),
                    }
                },
            },
        }
    }
}

/// The pending invocation that a first dispatch records.
pub open spec fn new_pending(f: FrameView, method: Seq<char>, contract: ReplayContract, sequence: u64) -> PendingView {
    PendingView {
        method,
        sequence,
        frame: f,
        contract,
        meta: spec_tool_call_meta(f.value, method, f.payload.len()),
        knowledge: ExecutionKnowledge::InFlight,
        attempts: 0,
        scheduled: None,
    }
}

/// Beginning first dispatch of a routed client request.
pub open spec fn spec_begin_request_dispatch(
    k: KernelView,
    f: FrameView,
    contract: ReplayContract,
    capacity: usize,
) -> Result<KernelView, HostRejection> {
    match f.envelope {
        EnvelopeView::Request { id, method } => if has_pending(k.pending, id) || queued_request(k.queue, id) {
            Err(HostRejection::DuplicateRequestId)
        } else if k.pending.len() >= capacity {
            Err(HostRejection::PendingCapacityExhausted)
        } else if k.next_sequence == u64::MAX {
            Err(HostRejection::InvalidExecutionState)
        } else if is_initialize_method(method) && k.phase != SessionPhase::Cold {
            Err(HostRejection::InvalidExecutionState)
        } else {
            let seed_matches = k.seed matches Some(s) && s.id == id && s.payload == f.payload;
            Ok(KernelView {
                phase: if is_initialize_method(method) {
                    SessionPhase::Initializing
                } else {
                    k.phase
                },
                seed: if is_initialize_method(method) && !seed_matches {
                    Some(SeedView { id, payload: f.payload, notification: None })
                } else {
                    k.seed
                },
                pending: k.pending.push((id, new_pending(f, method, contract, k.next_sequence))),
                next_sequence: (k.next_sequence + 1) as u64,
                ..k
            })
        },
        _ => Err(HostRejection::InvalidRequestFrame),
    }
}

/// Recording one terminal response: the state after it and the completed
/// invocation with its replay attempts.
pub open spec fn spec_complete_response(k: KernelView, response: FrameView) -> Result<
    (KernelView, PendingView),
    HostRejection,
> {
    match response.envelope {
        EnvelopeView::Response { id, has_error } => match pending_slot(k.pending, id) {
            None => Err(HostRejection::RequestNotPending),
            Some(i) => {
                let p = k.pending[i].1;
                if !(p.knowledge == ExecutionKnowledge::InFlight || p.knowledge
                    == ExecutionKnowledge::OutcomeUnknown) {
                    Err(HostRejection::InvalidExecutionState)
                } else if is_initialize_method(p.method) && k.phase != SessionPhase::Initializing {
                    Err(HostRejection::InvalidExecutionState)
                } else {
                    let init = is_initialize_method(p.method);
                    Ok(
                        (
                            KernelView {
                                phase: if !init {
                                    k.phase
                                } else if has_error {
                                    SessionPhase::Cold
                                } else {
                                    SessionPhase::AwaitingInitialized
                                },
                                seed: if init && has_error {
                                    None
                                } else {
                                    k.seed
                                },
                                pending: k.pending.remove(i),
                                queue: without_request(k.queue, id),
                                ..k
                            },
                            PendingView { knowledge: ExecutionKnowledge::Completed, ..p },
                        ),
                    )
                }
            },
        },
        _ => Err(HostRejection::InvalidRequestFrame),
    }
}

/// The rejection reason a recovery disposition carries, if it is not scheduled.
pub open spec fn recovery_rejection(d: RequestDisposition) -> Option<HostRejection> {
    match d {
        RequestDisposition::RejectReplayExhausted => Some(HostRejection::ReplayBudgetExhausted),
        RequestDisposition::RejectAmbiguousOutcome => Some(HostRejection::AmbiguousOutcome),
        RequestDisposition::Replay | RequestDisposition::HoldForProbe => None,
        _ => Some(HostRejection::InvalidExecutionState),
    }
}

/// A pending invocation after loss of the worker: its knowledge records the
/// loss and any earlier schedule is cleared.
pub open spec fn after_loss(p: PendingView) -> PendingView {
    PendingView { knowledge: spec_after_worker_loss(p.knowledge), scheduled: None, ..p }
}

/// Whether a queued frame survives recovery: it is not a request owned by a
/// pending invocation.
pub open spec fn retained_after_loss(ps: Seq<(RequestIdView, PendingView)>, f: FrameView) -> bool {
    !(frame_request_id(f) matches Some(id) && has_pending(ps, id))
}

/// Recovery bookkeeping while walking pending invocations in order.
pub struct RecoveryAcc {
    pub kept: Seq<(RequestIdView, PendingView)>,
    pub frames: Seq<FrameView>,
    pub rejected: Seq<RejectedView>,
    pub held: Seq<RequestIdView>,
}

/// Recovery decisions for the first `n` pending invocations (already marked
/// lost), with `retained` client frames waiting behind the recovered work.
pub open spec fn recovery_prefix(
    lost: Seq<(RequestIdView, PendingView)>,
    n: int,
    retained: nat,
    budget: ReplayBudget,
) -> RecoveryAcc
    decreases n,
{
    if n <= 0 {
        RecoveryAcc { kept: Seq::empty(), frames: Seq::empty(), rejected: Seq::empty(), held: Seq::empty() }
    } else {
        let acc = recovery_prefix(lost, n - 1, retained, budget);
        let (id, p) = lost[n - 1];
        let allowance = spec_allowance(p.attempts, budget.max_attempts);
        let d = spec_request_disposition(p.knowledge, p.contract, None, allowance);
        match recovery_rejection(d) {
            Some(reason) => RecoveryAcc {
                rejected: acc.rejected.push(
                    RejectedView { id, request: p, next_attempt: allowance.spec_next_attempt(), reason },
                ),
                ..acc
            },
            None => if acc.frames.len() + retained >= budget.queue_capacity {
                RecoveryAcc {
                    rejected: acc.rejected.push(
                        RejectedView {
                            id,
                            request: p,
                            next_attempt: allowance.spec_next_attempt(),
                            reason: HostRejection::QueueOverflow,
                        },
                    ),
                    ..acc
                }
            } else {
                RecoveryAcc {
                    kept: acc.kept.push((id, PendingView { scheduled: Some(d), ..p })),
                    frames: acc.frames.push(p.frame),
                    held: if d == RequestDisposition::HoldForProbe {
                        acc.held.push(id)
                    } else {
                        acc.held
                    },
                    ..acc
                }
            },
        }
    }
}

/// Rebuilding the replay queue after worker failure: the state after it and
/// the requests dropped or held.
pub open spec fn spec_requeue_pending_for_replay(k: KernelView, budget: ReplayBudget) -> (KernelView, RequeueView) {
    let lost = k.pending.map_values(|e: (RequestIdView, PendingView)| (e.0, after_loss(e.1)));
    let retained = k.queue.filter(|f: FrameView| retained_after_loss(k.pending, f));
    let acc = recovery_prefix(lost, lost.len() as int, retained.len(), budget);
    (
        KernelView { pending: acc.kept, queue: acc.frames + retained, ..k },
        RequeueView { rejected: acc.rejected, held: acc.held },
    )
}

/// Applying consumer evidence to a held probe-required request: the outcome
/// and the state after it.
pub open spec fn spec_resolve_probe(
    k: KernelView,
    id: RequestIdView,
    resolution: ProbeResolution,
    max_attempts: u8,
) -> (Result<ProbeView, HostRejection>, KernelView) {
    match pending_slot(k.pending, id) {
        None => (Err(HostRejection::RequestNotPending), k),
        Some(i) => {
            let p = k.pending[i].1;
            if p.scheduled != Some(RequestDisposition::HoldForProbe) {
                (Err(HostRejection::InvalidExecutionState), k)
            } else {
                let d = spec_request_disposition(
                    p.knowledge,
                    p.contract,
                    Some(resolution),
                    spec_allowance(p.attempts, max_attempts),
                );
                let removed = KernelView {
                    pending: k.pending.remove(i),
                    queue: without_request(k.queue, id),
                    ..k
                };
                match d {
                    RequestDisposition::Replay => (
                        Ok(ProbeView::ReplayAuthorized(id)),
                        KernelView {
                            pending: k.pending.update(
                                i,
                                (k.pending[i].0, PendingView { scheduled: Some(RequestDisposition::Replay), ..p }),
                            ),
                            ..k
                        },
                    ),
                    RequestDisposition::CompleteFromProbe => if p.knowledge
                        == ExecutionKnowledge::OutcomeUnknown {
                        (
                            Ok(
                                ProbeView::Completed(
                                    PendingView { knowledge: ExecutionKnowledge::Completed, ..p },
                                    p.attempts,
                                ),
                            ),
                            removed,
                        )
                    } else {
                        (Err(HostRejection::InvalidExecutionState), k)
                    },
                    RequestDisposition::RejectReplayExhausted => (
                        Err(HostRejection::ReplayBudgetExhausted),
                        removed,
                    ),
                    _ => (Err(HostRejection::InvalidExecutionState), k),
                }
            }
        },
    }
}

/// The replay seed that a phase and initialization seed call for.
pub open spec fn spec_replay_seed(phase: SessionPhase, seed: Option<SeedView>) -> Result<
    Option<SeedView>,
    HostRejection,
> {
    match phase {
        SessionPhase::Cold | SessionPhase::Initializing => Ok(None),
        SessionPhase::AwaitingInitialized => match seed {
            Some(s) => if s.notification is None {
                Ok(Some(s))
            } else {
                Err(HostRejection::InvalidExecutionState)
            },
            None => Err(HostRejection::InvalidExecutionState),
        },
        SessionPhase::Live => match seed {
            Some(s) => if s.notification is Some {
                Ok(Some(s))
            } else {
                Err(HostRejection::InvalidExecutionState)
            },
            None => Err(HostRejection::InvalidExecutionState),
        },
    }
}

} // verus!

verus! {

/// The kernel of a fresh public session.
pub open spec fn cold_kernel() -> KernelView {
    KernelView {
        phase: SessionPhase::Cold,
        seed: None,
        pending: Seq::empty(),
        queue: Seq::empty(),
        next_sequence: 0,
    }
}

/// A first pending slot is unique.
proof fn lemma_first_slot_unique(ps: Seq<(RequestIdView, PendingView)>, id: RequestIdView, i: int, j: int)
    requires
        is_first_slot(ps, id, i),
        is_first_slot(ps, id, j),
    ensures
        i == j,
{
    if i < j {
        assert(ps[i].0 != id);
    } else if j < i {
        assert(ps[j].0 != id);
    }
}

/// Filtering a one-longer prefix adds at most its last element.
proof fn lemma_filter_take_step<A>(s: Seq<A>, pred: spec_fn(A) -> bool, i: int)
    requires
        0 <= i < s.len(),
    ensures
        s.take(i + 1).filter(pred) == (if pred(s[i]) {
            s.take(i).filter(pred).push(s[i])
        } else {
            s.take(i).filter(pred)
        }),
{
    reveal(Seq::filter);
    assert(s.take(i + 1).drop_last() =~= s.take(i));
    assert(s.take(i + 1).last() == s[i]);
}

/// Finds the first pending slot owned by `id`.
fn find_pending_slot(pending: &Vec<(RequestId, PendingRequest)>, id: &RequestId) -> (r: Option<usize>)
    ensures
        match r {
            Some(i) => pending_slot(pending_entries_view(pending@), id@) == Some(i as int) && i
                < pending@.len(),
            None => pending_slot(pending_entries_view(pending@), id@) is None && !has_pending(
                pending_entries_view(pending@),
                id@,
            ),
        },
{
    let ghost ps = pending_entries_view(pending@);
    let mut i: usize = 0;
    while i < pending.len()
        invariant
            i <= pending.len(),
            ps == pending_entries_view(pending@),
            ps.len() == pending@.len(),
            forall|k: int| 0 <= k < i ==> (#[trigger] ps[k]).0 != id@,
        decreases pending.len() - i,
    {
        if pending[i].0.same_as(id) {
            proof {
                assert(is_first_slot(ps, id@, i as int));
                let j = choose|j: int| is_first_slot(ps, id@, j);
                lemma_first_slot_unique(ps, id@, i as int, j);
            }
            return Some(i);
        }
        i += 1;
    }
    proof {
        assert forall|j: int| !is_first_slot(ps, id@, j) by {
            if 0 <= j < ps.len() {
                assert(ps[j].0 != id@);
            }
        }
        assert forall|j: int| !(0 <= j < ps.len() && (#[trigger] ps[j]).0 == id@) by {
            if 0 <= j < ps.len() {
                assert(ps[j].0 != id@);
            }
        }
    }
    None
}

/// Whether some queued frame is a request carrying `id`.
fn queued_request_id(queue: &Vec<FramedMessage>, id: &RequestId) -> (r: bool)
    ensures
        r == queued_request(frames_view(queue@), id@),
{
    let ghost q = frames_view(queue@);
    let mut i: usize = 0;
    while i < queue.len()
        invariant
            i <= queue.len(),
            q == frames_view(queue@),
            q.len() == queue@.len(),
            forall|k: int| 0 <= k < i ==> !is_request_for(#[trigger] q[k], id@),
        decreases queue.len() - i,
    {
        if queue[i].is_request_with_id(id) {
            assert(is_request_for(q[i as int], id@));
            return true;
        }
        i += 1;
    }
    false
}

/// The queue without requests carrying `id`, order preserved.
fn remove_queued_request(queue: &Vec<FramedMessage>, id: &RequestId) -> (r: Vec<FramedMessage>)
    ensures
        frames_view(r@) == without_request(frames_view(queue@), id@),
{
    let ghost q = frames_view(queue@);
    let ghost pred = |f: FrameView| !is_request_for(f, id@);
    let mut out: Vec<FramedMessage> = Vec::new();
    let mut i: usize = 0;
    proof {
        reveal(Seq::filter);
        assert(q.take(0) =~= Seq::<FrameView>::empty());
        assert(frames_view(out@) =~= q.take(0).filter(pred));
    }
    while i < queue.len()
        invariant
            i <= queue.len(),
            q == frames_view(queue@),
            q.len() == queue@.len(),
            pred == (|f: FrameView| !is_request_for(f, id@)),
            frames_view(out@) == q.take(i as int).filter(pred),
        decreases queue.len() - i,
    {
        proof {
            lemma_filter_take_step(q, pred, i as int);
        }
        if !queue[i].is_request_with_id(id) {
            out.push(queue[i].duplicate());
            proof {
                assert(frames_view(out@) =~= q.take(i as int).filter(pred).push(q[i as int]));
            }
        }
        i += 1;
    }
    proof {
        assert(q.take(i as int) =~= q);
    }
    out
}

impl HostSessionKernel {
    /// Constructs a cold kernel.
    pub fn cold() -> (r: Self)
        ensures
            r@ == cold_kernel(),
    {
        let r = Self {
            session_phase: SessionPhase::Cold,
            initialization_seed: None,
            pending: Vec::new(),
            queued_frames: Vec::new(),
            next_pending_sequence: 0,
        };
        assert(r@.pending =~= Seq::<(RequestIdView, PendingView)>::empty());
        assert(r@.queue =~= Seq::<FrameView>::empty());
        r
    }

    /// Returns the current public session phase.
    pub fn session_phase(&self) -> (r: SessionPhase)
        ensures
            r == self@.phase,
    {
        self.session_phase
    }

    /// Returns the captured initialize seed, if any.
    pub fn initialization_seed(&self) -> (r: Option<&InitializationSeed>)
        ensures
            match r {
                Some(s) => self@.seed == Some(s@),
                None => self@.seed is None,
            },
    {
        match &self.initialization_seed {
            Some(s) => Some(s),
            None => None,
        }
    }

    /// Returns the next pending sequence number.
    pub fn next_pending_sequence(&self) -> (r: u64)
        ensures
            r == self@.next_sequence,
    {
        self.next_pending_sequence
    }

    /// Returns the exact worker replay seed for an established public session.
    pub fn replay_seed(&self) -> (r: Result<Option<InitializationSeed>, HostRejection>)
        ensures
            match spec_replay_seed(self@.phase, self@.seed) {
                Ok(Some(s)) => r matches Ok(Some(t)) && t@ == s,
                Ok(None) => r matches Ok(None),
                Err(e) => r == Err::<Option<InitializationSeed>, HostRejection>(e),
            },
    {
        prepare_replay_seed(self.session_phase, self.initialization_seed.as_ref())
    }

    /// Returns the number of queued client frames.
    pub fn queued_len(&self) -> (r: usize)
        ensures
            r == self@.queue.len(),
    {
        self.queued_frames.len()
    }

    /// Returns whether the queue is empty.
    pub fn queue_is_empty(&self) -> (r: bool)
        ensures
            r == (self@.queue.len() == 0),
    {
        self.queued_frames.len() == 0
    }

    /// Returns the number of live pending invocations.
    pub fn pending_len(&self) -> (r: usize)
        ensures
            r == self@.pending.len(),
    {
        self.pending.len()
    }

    /// Returns whether no invocation is pending.
    pub fn pending_is_empty(&self) -> (r: bool)
        ensures
            r == (self@.pending.len() == 0),
    {
        self.pending.len() == 0
    }

    /// Returns immutable pending invocation state by public request ID.
    pub fn pending_request(&self, request_id: &RequestId) -> (r: Option<&PendingRequest>)
        ensures
            match pending_slot(self@.pending, request_id@) {
                Some(i) => r matches Some(p) && p@ == self@.pending[i].1,
                None => r is None,
            },
    {
        match find_pending_slot(&self.pending, request_id) {
            Some(i) => Some(&self.pending[i].1),
            None => None,
        }
    }

    /// Returns whether some pending invocation awaits the outcome of a dispatch.
    pub fn has_in_flight_dispatches(&self) -> (r: bool)
        ensures
            r == exists|i: int|
                0 <= i < self@.pending.len() && (#[trigger] self@.pending[i]).1.knowledge
                    == ExecutionKnowledge::InFlight,
    {
        let ghost ps = self@.pending;
        let mut i: usize = 0;
        while i < self.pending.len()
            invariant
                i <= self.pending.len(),
                ps == self@.pending,
                ps.len() == self.pending@.len(),
                forall|k: int| 0 <= k < i ==> (#[trigger] ps[k]).1.knowledge != ExecutionKnowledge::InFlight,
            decreases self.pending.len() - i,
        {
            if self.pending[i].1.execution_knowledge == ExecutionKnowledge::InFlight {
                assert(ps[i as int].1.knowledge == ExecutionKnowledge::InFlight);
                return true;
            }
            i += 1;
        }
        false
    }
}

/// Prepares a replay seed based on the current session phase.
pub fn prepare_replay_seed(
    session_phase: SessionPhase,
    initialization_seed: Option<&InitializationSeed>,
) -> (r: Result<Option<InitializationSeed>, HostRejection>)
    ensures
        match spec_replay_seed(
            session_phase,
            match initialization_seed {
                Some(s) => Some(s@),
                None => None,
            },
        ) {
            Ok(Some(s)) => r matches Ok(Some(t)) && t@ == s,
            Ok(None) => r matches Ok(None),
            Err(e) => r == Err::<Option<InitializationSeed>, HostRejection>(e),
        },
{
    match session_phase {
        SessionPhase::Cold | SessionPhase::Initializing => Ok(None),
        SessionPhase::AwaitingInitialized => match initialization_seed {
            Some(seed) => if seed.initialized_notification.is_none() {
                Ok(Some(seed.duplicate()))
            } else {
                Err(HostRejection::InvalidExecutionState)
            },
            None => Err(HostRejection::InvalidExecutionState),
        },
        SessionPhase::Live => match initialization_seed {
            Some(seed) => if seed.initialized_notification.is_some() {
                Ok(Some(seed.duplicate()))
            } else {
                Err(HostRejection::InvalidExecutionState)
            },
            None => Err(HostRejection::InvalidExecutionState),
        },
    }
}

} // verus!

verus! {

/// A dispatch result taken by its view.
pub open spec fn dispatch_result_view(r: Result<DispatchQueueOutcome, HostRejection>) -> Result<DispatchView, HostRejection> {
    match r {
        Ok(o) => Ok(o@),
        Err(e) => Err(e),
    }
}

/// A completion result taken by its view: the completed invocation and its attempts.
pub open spec fn completed_result_view(r: Result<CompletedPendingRequest, HostRejection>) -> Result<(PendingView, u8), HostRejection> {
    match r {
        Ok(c) => Ok((c.request@, c.replay_attempts)),
        Err(e) => Err(e),
    }
}

/// A probe result taken by its view.
pub open spec fn probe_result_view(r: Result<ProbeResolutionOutcome, HostRejection>) -> Result<ProbeView, HostRejection> {
    match r {
        Ok(o) => Ok(o@),
        Err(e) => Err(e),
    }
}

impl HostSessionKernel {
    /// Observes a client frame before it is forwarded or queued.
    pub fn observe_client_frame(&mut self, frame: &FramedMessage) -> (r: Result<(), HostRejection>)
        ensures
            match spec_observe_client_frame(old(self)@, frame@) {
                Ok(k) => r is Ok && final(self)@ == k,
                Err(e) => r == Err::<(), HostRejection>(e) && final(self)@ == old(self)@,
            },
    {
        match frame.classify() {
            RpcEnvelopeKind::Request { id, method } => {
                if method.is_initialize() {
                    if self.session_phase != SessionPhase::Cold {
                        return Err(HostRejection::InvalidExecutionState);
                    }
                    self.initialization_seed = Some(
                        InitializationSeed {
                            initialize_request: SeededInitializeRequest {
                                id,
                                payload: vstd::slice::slice_to_vec(frame.payload()),
                            },
                            initialized_notification: None,
                        },
                    );
                }
            },
            RpcEnvelopeKind::Notification { method } => {
                if method.is_initialized_notification() {
                    if self.session_phase != SessionPhase::AwaitingInitialized {
                        return Err(HostRejection::InvalidExecutionState);
                    }
                    let mut seed = match self.initialization_seed.take() {
                        Some(seed) => seed,
                        None => return Err(HostRejection::InvalidExecutionState),
                    };
                    seed.initialized_notification = Some(vstd::slice::slice_to_vec(frame.payload()));
                    self.initialization_seed = Some(seed);
                    self.session_phase = SessionPhase::Live;
                }
            },
            RpcEnvelopeKind::Response { .. } => {},
        }
        Ok(())
    }

    /// Queues a client frame while no ready worker is available.
    pub fn queue_client_frame(&mut self, frame: FramedMessage, queue_capacity: usize) -> (r: Result<(), HostRejection>)
        ensures
            match spec_queue_client_frame(old(self)@, frame@, queue_capacity) {
                Ok(k) => r is Ok && final(self)@ == k,
                Err(e) => r == Err::<(), HostRejection>(e) && final(self)@ == old(self)@,
            },
    {
        if self.queued_frames.len() >= queue_capacity {
            return Err(HostRejection::QueueOverflow);
        }
        if let Some(id) = frame.request_id() {
            let pending = find_pending_slot(&self.pending, &id).is_some();
            if pending || queued_request_id(&self.queued_frames, &id) {
                return Err(HostRejection::DuplicateRequestId);
            }
        }
        let ghost old_queue = self.queued_frames@;
        self.queued_frames.push(frame);
        assert(frames_view(self.queued_frames@) =~= frames_view(old_queue).push(frame@));
        Ok(())
    }

    /// Takes the next dispatch in recovery order.
    ///
    /// Taking a replay crosses the kernel dispatch boundary and consumes its
    /// attempt. A held probe blocks all younger work.
    pub fn pop_next_dispatch(&mut self) -> (r: Result<DispatchQueueOutcome, HostRejection>)
        ensures
            dispatch_result_view(r) == spec_pop_next_dispatch(old(self)@).0,
            final(self)@ == spec_pop_next_dispatch(old(self)@).1,
    {
        if self.queued_frames.len() == 0 {
            return Ok(DispatchQueueOutcome::Empty);
        }
        let ghost old_queue = self.queued_frames@;
        let ghost old_pending = self.pending@;
        let id = match self.queued_frames[0].request_id() {
            Some(id) => id,
            None => {
                let frame = self.queued_frames.remove(0);
                assert(frames_view(self.queued_frames@) =~= frames_view(old_queue).drop_first());
                return Ok(DispatchQueueOutcome::ClientFrame(frame));
            },
        };
        let i = match find_pending_slot(&self.pending, &id) {
            Some(i) => i,
            None => {
                let frame = self.queued_frames.remove(0);
                assert(frames_view(self.queued_frames@) =~= frames_view(old_queue).drop_first());
                return Ok(DispatchQueueOutcome::ClientFrame(frame));
            },
        };
        match self.pending[i].1.scheduled_disposition {
            Some(RequestDisposition::HoldForProbe) => Ok(DispatchQueueOutcome::HeldForProbe { request_id: id }),
            Some(RequestDisposition::Replay) => {
                let knowledge = match self.pending[i].1.execution_knowledge.after_dispatch(
                    RequestDisposition::Replay,
                ) {
                    Ok(k) => k,
                    Err(_) => return Err(HostRejection::InvalidExecutionState),
                };
                let (owner, mut request) = self.pending.remove(i);
                request.execution_knowledge = knowledge;
                if request.replay_attempts == u8::MAX {
                    self.pending.insert(i, (owner, request));
                    assert(pending_entries_view(self.pending@) =~= pending_entries_view(old_pending).update(
                        i as int,
                        (id@, PendingView { knowledge: ExecutionKnowledge::InFlight, ..old(self)@.pending[i as int].1 }),
                    ));
                    return Err(HostRejection::ReplayBudgetExhausted);
                }
                request.replay_attempts = request.replay_attempts + 1;
                request.scheduled_disposition = None;
                self.pending.insert(i, (owner, request));
                assert(pending_entries_view(self.pending@) =~= pending_entries_view(old_pending).update(
                    i as int,
                    (
                        id@,
                        PendingView {
                            knowledge: ExecutionKnowledge::InFlight,
                            attempts: (old(self)@.pending[i as int].1.attempts + 1) as u8,
                            scheduled: None,
                            ..old(self)@.pending[i as int].1
                        },
                    ),
                ));
                let frame = self.queued_frames.remove(0);
                assert(frames_view(self.queued_frames@) =~= frames_view(old_queue).drop_first());
                Ok(DispatchQueueOutcome::Replay(frame))
            },
            _ => Err(HostRejection::InvalidExecutionState),
        }
    }

    /// Begins first dispatch of a routed client request.
    ///
    /// Consumers call this immediately before crossing the worker transport
    /// boundary so any subsequent uncertainty is conservatively in flight.
    pub fn begin_request_dispatch(
        &mut self,
        frame: &FramedMessage,
        replay_contract: ReplayContract,
        pending_capacity: usize,
    ) -> (r: Result<RequestId, HostRejection>)
        ensures
            match spec_begin_request_dispatch(old(self)@, frame@, replay_contract, pending_capacity) {
                Ok(k) => r matches Ok(id) && final(self)@ == k && frame_request_id(frame@) == Some(id@),
                Err(e) => r == Err::<RequestId, HostRejection>(e) && final(self)@ == old(self)@,
            },
    {
        let (id, method) = match frame.classify() {
            RpcEnvelopeKind::Request { id, method } => (id, method),
            _ => return Err(HostRejection::InvalidRequestFrame),
        };
        if find_pending_slot(&self.pending, &id).is_some() || queued_request_id(&self.queued_frames, &id) {
            return Err(HostRejection::DuplicateRequestId);
        }
        if self.pending.len() >= pending_capacity {
            return Err(HostRejection::PendingCapacityExhausted);
        }
        let sequence = self.next_pending_sequence;
        let next_pending_sequence = match sequence.checked_add(1) {
            Some(next) => next,
            None => return Err(HostRejection::InvalidExecutionState),
        };
        if method.is_initialize() {
            if self.session_phase != SessionPhase::Cold {
                return Err(HostRejection::InvalidExecutionState);
            }
            let seed_matches = match &self.initialization_seed {
                Some(seed) => seed.initialize_request.id.same_as(&id) && crate::jsonrpc::bytes_eq(
                    seed.initialize_request.payload.as_slice(),
                    frame.payload(),
                ),
                None => false,
            };
            if !seed_matches {
                self.initialization_seed = Some(
                    InitializationSeed {
                        initialize_request: SeededInitializeRequest {
                            id: id.duplicate(),
                            payload: vstd::slice::slice_to_vec(frame.payload()),
                        },
                        initialized_notification: None,
                    },
                );
            }
            self.session_phase = SessionPhase::Initializing;
        }
        self.next_pending_sequence = next_pending_sequence;
        let request = PendingRequest {
            tool_call_meta: parse_tool_call_meta(frame, &method),
            method,
            sequence,
            frame: frame.duplicate(),
            replay_contract,
            started_at: instant_now(),
            execution_knowledge: ExecutionKnowledge::InFlight,
            replay_attempts: 0,
            scheduled_disposition: None,
        };
        let ghost old_pending = self.pending@;
        let ghost entry = (id@, request@);
        self.pending.push((id.duplicate(), request));
        assert(pending_entries_view(self.pending@) =~= pending_entries_view(old_pending).push(entry));
        Ok(id)
    }

    /// Records and removes one exact terminal JSON-RPC response.
    pub fn complete_response(&mut self, response: &FramedMessage) -> (r: Result<CompletedPendingRequest, HostRejection>)
        ensures
            match spec_complete_response(old(self)@, response@) {
                Ok((k, p)) => final(self)@ == k && completed_result_view(r) == Ok::<(PendingView, u8), HostRejection>((p, p.attempts)),
                Err(e) => r matches Err(f) && f == e && final(self)@ == old(self)@,
            },
    {
        let (id, has_error) = match response.classify() {
            RpcEnvelopeKind::Response { id, has_error } => (id, has_error),
            _ => return Err(HostRejection::InvalidRequestFrame),
        };
        let i = match find_pending_slot(&self.pending, &id) {
            Some(i) => i,
            None => return Err(HostRejection::RequestNotPending),
        };
        let completed_knowledge = match self.pending[i].1.execution_knowledge.after_terminal_outcome() {
            Ok(k) => k,
            Err(_) => return Err(HostRejection::InvalidExecutionState),
        };
        let init = self.pending[i].1.method.is_initialize();
        if init && self.session_phase != SessionPhase::Initializing {
            return Err(HostRejection::InvalidExecutionState);
        }
        let ghost old_pending = self.pending@;
        let (_, mut request) = self.pending.remove(i);
        request.execution_knowledge = completed_knowledge;
        assert(pending_entries_view(self.pending@) =~= pending_entries_view(old_pending).remove(i as int));
        if init {
            if has_error {
                self.session_phase = SessionPhase::Cold;
                self.initialization_seed = None;
            } else {
                self.session_phase = SessionPhase::AwaitingInitialized;
            }
        }
        self.queued_frames = remove_queued_request(&self.queued_frames, &id);
        let replay_attempts = request.replay_attempts;
        Ok(CompletedPendingRequest { request, replay_attempts })
    }
}

} // verus!

verus! {

/// The recovery rejection reason of a disposition.
fn recovery_rejection_of(d: RequestDisposition) -> (r: Option<HostRejection>)
    ensures
        r == recovery_rejection(d),
{
    match d {
        RequestDisposition::RejectReplayExhausted => Some(HostRejection::ReplayBudgetExhausted),
        RequestDisposition::RejectAmbiguousOutcome => Some(HostRejection::AmbiguousOutcome),
        RequestDisposition::Replay | RequestDisposition::HoldForProbe => None,
        RequestDisposition::FirstDispatch
        | RequestDisposition::AwaitTerminal
        | RequestDisposition::Completed
        | RequestDisposition::CompleteFromProbe
        | RequestDisposition::RejectUnexpectedProbeResolution => Some(HostRejection::InvalidExecutionState),
    }
}

pub open spec fn rejected_view(v: Seq<RejectedReplay>) -> Seq<RejectedView> {
    v.map_values(|r: RejectedReplay| r@)
}

pub open spec fn ids_view(v: Seq<RequestId>) -> Seq<RequestIdView> {
    v.map_values(|id: RequestId| id@)
}

impl HostSessionKernel {
    /// Rebuilds the replay queue after worker failure.
    pub fn requeue_pending_for_replay(&mut self, budget: ReplayBudget) -> (r: ReplayRequeueOutcome)
        ensures
            final(self)@ == spec_requeue_pending_for_replay(old(self)@, budget).0,
            r@ == spec_requeue_pending_for_replay(old(self)@, budget).1,
    {
        let ghost k0 = self@;
        let ghost lv = k0.pending.map_values(|e: (RequestIdView, PendingView)| (e.0, after_loss(e.1)));
        let ghost rpred = |f: FrameView| retained_after_loss(k0.pending, f);
        let mut lost: Vec<(RequestId, PendingRequest)> = Vec::new();
        let mut i: usize = 0;
        while i < self.pending.len()
            invariant
                i <= self.pending.len(),
                self@ == k0,
                lv == k0.pending.map_values(|e: (RequestIdView, PendingView)| (e.0, after_loss(e.1))),
                k0.pending.len() == self.pending@.len(),
                pending_entries_view(lost@) == lv.take(i as int),
            decreases self.pending.len() - i,
        {
            let mut request = self.pending[i].1.duplicate();
            request.execution_knowledge = request.execution_knowledge.after_worker_loss();
            request.scheduled_disposition = None;
            let ghost before = lost@;
            let owner = self.pending[i].0.duplicate();
            assert(k0.pending[i as int] == (self.pending@[i as int].0@, self.pending@[i as int].1@));
            assert(lv[i as int] == (owner@, request@));
            lost.push((owner, request));
            assert(pending_entries_view(lost@) =~= lv.take(i + 1)) by {
                assert(pending_entries_view(lost@) =~= pending_entries_view(before).push((owner@, request@)));
                assert(lv.take(i + 1) =~= lv.take(i as int).push(lv[i as int]));
            }
            i += 1;
        }
        assert(lv.take(i as int) =~= lv);

        let mut retained: Vec<FramedMessage> = Vec::new();
        let ghost q = k0.queue;
        let mut j: usize = 0;
        proof {
            reveal(Seq::filter);
            assert(q.take(0) =~= Seq::<FrameView>::empty());
            assert(frames_view(retained@) =~= q.take(0).filter(rpred));
        }
        while j < self.queued_frames.len()
            invariant
                j <= self.queued_frames.len(),
                self@ == k0,
                q == k0.queue,
                q.len() == self.queued_frames@.len(),
                rpred == (|f: FrameView| retained_after_loss(k0.pending, f)),
                frames_view(retained@) == q.take(j as int).filter(rpred),
            decreases self.queued_frames.len() - j,
        {
            proof {
                lemma_filter_take_step(q, rpred, j as int);
            }
            let keep = match self.queued_frames[j].request_id() {
                Some(id) => find_pending_slot(&self.pending, &id).is_none(),
                None => true,
            };
            assert(keep == rpred(q[j as int]));
            if keep {
                retained.push(self.queued_frames[j].duplicate());
                assert(frames_view(retained@) =~= q.take(j as int).filter(rpred).push(q[j as int]));
            }
            j += 1;
        }
        assert(q.take(j as int) =~= q);
        let ghost rl = retained@.len();

        let mut kept: Vec<(RequestId, PendingRequest)> = Vec::new();
        let mut frames: Vec<FramedMessage> = Vec::new();
        let mut rejected: Vec<RejectedReplay> = Vec::new();
        let mut held: Vec<RequestId> = Vec::new();
        let mut n: usize = 0;
        proof {
            assert(pending_entries_view(kept@) =~= Seq::<(RequestIdView, PendingView)>::empty());
            assert(frames_view(frames@) =~= Seq::<FrameView>::empty());
            assert(rejected_view(rejected@) =~= Seq::<RejectedView>::empty());
            assert(ids_view(held@) =~= Seq::<RequestIdView>::empty());
        }
        while n < lost.len()
            invariant
                n <= lost.len(),
                pending_entries_view(lost@) == lv,
                rl == retained@.len(),
                pending_entries_view(kept@) == recovery_prefix(lv, n as int, rl, budget).kept,
                frames_view(frames@) == recovery_prefix(lv, n as int, rl, budget).frames,
                rejected_view(rejected@) == recovery_prefix(lv, n as int, rl, budget).rejected,
                ids_view(held@) == recovery_prefix(lv, n as int, rl, budget).held,
            decreases lost.len() - n,
        {
            let ghost acc = recovery_prefix(lv, n as int, rl, budget);
            let ghost e = lv[n as int];
            assert(lost@[n as int].0@ == e.0 && lost@[n as int].1@ == e.1);
            let entry = &lost[n];
            let allowance = ReplayAllowance::new(entry.1.replay_attempts, budget.max_attempts);
            let disposition = request_disposition(
                entry.1.execution_knowledge,
                entry.1.replay_contract,
                None,
                allowance,
            );
            match recovery_rejection_of(disposition) {
                Some(reason) => {
                    rejected.push(
                        RejectedReplay {
                            request_id: entry.0.duplicate(),
                            request: entry.1.duplicate(),
                            next_attempt: allowance.next_attempt(),
                            reason,
                        },
                    );
                    assert(rejected_view(rejected@) =~= recovery_prefix(lv, n + 1, rl, budget).rejected);
                },
                None => {
                    if frames.len().saturating_add(retained.len()) >= budget.queue_capacity {
                        rejected.push(
                            RejectedReplay {
                                request_id: entry.0.duplicate(),
                                request: entry.1.duplicate(),
                                next_attempt: allowance.next_attempt(),
                                reason: HostRejection::QueueOverflow,
                            },
                        );
                        assert(rejected_view(rejected@) =~= recovery_prefix(lv, n + 1, rl, budget).rejected);
                    } else {
                        let mut request = entry.1.duplicate();
                        request.scheduled_disposition = Some(disposition);
                        if disposition == RequestDisposition::HoldForProbe {
                            held.push(entry.0.duplicate());
                        }
                        assert(ids_view(held@) =~= recovery_prefix(lv, n + 1, rl, budget).held);
                        frames.push(entry.1.frame.duplicate());
                        assert(frames_view(frames@) =~= recovery_prefix(lv, n + 1, rl, budget).frames);
                        kept.push((entry.0.duplicate(), request));
                        assert(pending_entries_view(kept@) =~= recovery_prefix(lv, n + 1, rl, budget).kept);
                    }
                },
            }
            n += 1;
        }
        assert(lv.len() == lost@.len());
        let ghost frames_before = frames@;
        let ghost retained_before = retained@;
        frames.append(&mut retained);
        assert(frames_view(frames@) =~= frames_view(frames_before) + frames_view(retained_before));
        self.pending = kept;
        self.queued_frames = frames;
        ReplayRequeueOutcome { rejected, held_for_probe: held }
    }

    /// Applies explicit consumer evidence to a held probe-required request.
    pub fn resolve_probe(
        &mut self,
        request_id: &RequestId,
        resolution: ProbeResolution,
        max_attempts: u8,
    ) -> (r: Result<ProbeResolutionOutcome, HostRejection>)
        ensures
            probe_result_view(r) == spec_resolve_probe(old(self)@, request_id@, resolution, max_attempts).0,
            final(self)@ == spec_resolve_probe(old(self)@, request_id@, resolution, max_attempts).1,
    {
        let i = match find_pending_slot(&self.pending, request_id) {
            Some(i) => i,
            None => return Err(HostRejection::RequestNotPending),
        };
        if self.pending[i].1.scheduled_disposition != Some(RequestDisposition::HoldForProbe) {
            return Err(HostRejection::InvalidExecutionState);
        }
        let disposition = request_disposition(
            self.pending[i].1.execution_knowledge,
            self.pending[i].1.replay_contract,
            Some(resolution),
            ReplayAllowance::new(self.pending[i].1.replay_attempts, max_attempts),
        );
        let ghost old_pending = self.pending@;
        let ghost p = old(self)@.pending[i as int].1;
        match disposition {
            RequestDisposition::Replay => {
                let (owner, mut request) = self.pending.remove(i);
                request.scheduled_disposition = Some(RequestDisposition::Replay);
                let ghost owner_view = owner@;
                self.pending.insert(i, (owner, request));
                assert(pending_entries_view(self.pending@) =~= pending_entries_view(old_pending).update(
                    i as int,
                    (owner_view, PendingView { scheduled: Some(RequestDisposition::Replay), ..p }),
                ));
                Ok(ProbeResolutionOutcome::ReplayAuthorized { request_id: request_id.duplicate() })
            },
            RequestDisposition::CompleteFromProbe => {
                let knowledge = match self.pending[i].1.execution_knowledge.after_completed_probe() {
                    Ok(k) => k,
                    Err(_) => return Err(HostRejection::InvalidExecutionState),
                };
                self.queued_frames = remove_queued_request(&self.queued_frames, request_id);
                let (_, mut request) = self.pending.remove(i);
                request.execution_knowledge = knowledge;
                assert(pending_entries_view(self.pending@) =~= pending_entries_view(old_pending).remove(i as int));
                let replay_attempts = request.replay_attempts;
                Ok(ProbeResolutionOutcome::Completed(Box::new(CompletedPendingRequest { request, replay_attempts })))
            },
            RequestDisposition::RejectReplayExhausted => {
                self.queued_frames = remove_queued_request(&self.queued_frames, request_id);
                let _removed = self.pending.remove(i);
                assert(pending_entries_view(self.pending@) =~= pending_entries_view(old_pending).remove(i as int));
                Err(HostRejection::ReplayBudgetExhausted)
            },
            RequestDisposition::FirstDispatch
            | RequestDisposition::AwaitTerminal
            | RequestDisposition::Completed
            | RequestDisposition::HoldForProbe
            | RequestDisposition::RejectAmbiguousOutcome
            | RequestDisposition::RejectUnexpectedProbeResolution => Err(HostRejection::InvalidExecutionState),
        }
    }
}

} // verus!

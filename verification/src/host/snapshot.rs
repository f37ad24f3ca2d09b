//! Version-tagged kernel snapshots for coordinated host reexec.

use vstd::prelude::*;
use crate::callmeta::{parse_tool_call_meta, spec_tool_call_meta};
use crate::json::JsonValue;
use crate::jsonrpc::{
    EnvelopeView, FrameErrorView, FrameParseError, FrameView, FramedMessage, RequestId, RequestIdView,
    RpcEnvelopeKind, RpcMethod, document_view, is_initialize_method, is_initialized_method,
    spec_parse_frame,
};
use crate::replay::{ExecutionKnowledge, ReplayContract, RequestDisposition};
use crate::types::InvariantViolation;
use super::{
    HostSessionKernel, InitializationSeed, KernelView, PendingRequest, PendingView, SeedView,
    SessionPhase, frame_request_id, opt_seed_view, pending_entries_view, pending_slot, frames_view,
};

verus! {

/// Exact snapshot format understood by this release line.
pub const SNAPSHOT_FORMAT_VERSION: u16 = 1;

/// One pending invocation as a snapshot records it.
#[derive(Debug, Clone, PartialEq, Eq)]
pub struct PendingRequestSnapshot {
    /// Public request identifier.
    pub request_id: RequestId,
    /// Public JSON-RPC method.
    pub method: RpcMethod,
    /// Stable ordering sequence.
    pub sequence: u64,
    /// Original request frame payload.
    pub frame: Vec<u8>,
    /// Replay contract.
    pub replay_contract: ReplayContract,
    /// Execution knowledge.
    pub execution_knowledge: ExecutionKnowledge,
    /// Replay attempts actually dispatched.
    pub replay_attempts: u8,
    /// Recovery disposition scheduled for the invocation, if any.
    pub scheduled_disposition: Option<RequestDisposition>,
    /// Milliseconds since the invocation began.
    pub age_ms: u64,
}

/// Mathematical model of a pending snapshot entry.
pub struct PendingSnapshotView {
    pub id: RequestIdView,
    pub method: Seq<char>,
    pub sequence: u64,
    pub frame: Seq<u8>,
    pub contract: ReplayContract,
    pub knowledge: ExecutionKnowledge,
    pub attempts: u8,
    pub scheduled: Option<RequestDisposition>,
    pub age_ms: u64,
}

impl View for PendingRequestSnapshot {
    type V = PendingSnapshotView;

    open spec fn view(&self) -> PendingSnapshotView {
        PendingSnapshotView {
            id: self.request_id@,
            method: self.method@,
            sequence: self.sequence,
            frame: self.frame@,
            contract: self.replay_contract,
            knowledge: self.execution_knowledge,
            attempts: self.replay_attempts,
            scheduled: self.scheduled_disposition,
            age_ms: self.age_ms,
        }
    }
}

/// Serializable kernel snapshot for host self-reexec.
#[derive(Debug, Clone, PartialEq, Eq)]
pub struct HostSessionKernelSnapshot {
    /// Snapshot format version.
    pub format_version: u16,
    /// Current public session phase.
    pub session_phase: SessionPhase,
    /// Captured initialize state, if any.
    pub initialization_seed: Option<InitializationSeed>,
    /// Live pending requests, in ascending sequence order.
    pub pending: Vec<PendingRequestSnapshot>,
    /// Backlog of client frames waiting on worker readiness.
    pub queued_frames: Vec<Vec<u8>>,
    /// Next pending sequence number.
    pub next_pending_sequence: u64,
}

/// Mathematical model of a snapshot.
pub struct SnapshotView {
    pub version: u16,
    pub phase: SessionPhase,
    pub seed: Option<SeedView>,
    pub pending: Seq<PendingSnapshotView>,
    pub queued: Seq<Seq<u8>>,
    pub next_sequence: u64,
}

impl View for HostSessionKernelSnapshot {
    type V = SnapshotView;

    open spec fn view(&self) -> SnapshotView {
        SnapshotView {
            version: self.format_version,
            phase: self.session_phase,
            seed: opt_seed_view(self.initialization_seed),
            pending: self.pending@.map_values(|p: PendingRequestSnapshot| p@),
            queued: self.queued_frames@.map_values(|b: Vec<u8>| b@),
            next_sequence: self.next_pending_sequence,
        }
    }
}

/// What decoding each snapshot payload as JSON gave, position for position:
/// one entry per pending invocation and per queued frame, and one for each
/// payload of the initialization seed.
#[derive(Debug)]
pub struct SnapshotDocuments {
    /// Documents of the pending invocations' frames.
    pub pending_frames: Vec<Result<JsonValue, String>>,
    /// Documents of the queued frames.
    pub queued_frames: Vec<Result<JsonValue, String>>,
    /// Document of the seeded initialize request, when a seed is present.
    pub initialize_request: Option<Result<JsonValue, String>>,
    /// Document of the seeded initialized notification, when one is present.
    pub initialized_notification: Option<Result<JsonValue, String>>,
}

/// Mathematical model of decoded snapshot payloads.
pub struct DocumentsView {
    pub pending: Seq<Result<crate::json::JsonView, Seq<char>>>,
    pub queued: Seq<Result<crate::json::JsonView, Seq<char>>>,
    pub initialize: Option<Result<crate::json::JsonView, Seq<char>>>,
    pub initialized: Option<Result<crate::json::JsonView, Seq<char>>>,
}

pub open spec fn opt_document_view(d: Option<Result<JsonValue, String>>) -> Option<Result<crate::json::JsonView, Seq<char>>> {
    match d {
        Some(x) => Some(document_view(x)),
        None => None,
    }
}

impl View for SnapshotDocuments {
    type V = DocumentsView;

    open spec fn view(&self) -> DocumentsView {
        DocumentsView {
            pending: self.pending_frames@.map_values(|d: Result<JsonValue, String>| document_view(d)),
            queued: self.queued_frames@.map_values(|d: Result<JsonValue, String>| document_view(d)),
            initialize: opt_document_view(self.initialize_request),
            initialized: opt_document_view(self.initialized_notification),
        }
    }
}

/// Explicit bounds applied before snapshot state is hydrated.
#[derive(Debug, Clone, Copy, PartialEq, Eq, Structural)]
pub struct SnapshotLimits {
    max_pending: usize,
    max_queued: usize,
    max_frame_bytes: usize,
    max_replay_attempts: u8,
}

impl SnapshotLimits {
    pub closed spec fn spec_max_pending(self) -> usize {
        self.max_pending
    }

    pub closed spec fn spec_max_queued(self) -> usize {
        self.max_queued
    }

    pub closed spec fn spec_max_frame_bytes(self) -> usize {
        self.max_frame_bytes
    }

    pub closed spec fn spec_max_replay_attempts(self) -> u8 {
        self.max_replay_attempts
    }

    /// Constructs snapshot restoration limits; a zero frame limit is rejected.
    pub fn try_new(
        max_pending: usize,
        max_queued: usize,
        max_frame_bytes: usize,
        max_replay_attempts: u8,
    ) -> (r: Result<Self, InvariantViolation>)
        ensures
            max_frame_bytes == 0 <==> r is Err,
            r matches Ok(l) ==> l.spec_max_pending() == max_pending && l.spec_max_queued() == max_queued
                && l.spec_max_frame_bytes() == max_frame_bytes && l.spec_max_replay_attempts()
                == max_replay_attempts,
    {
        if max_frame_bytes == 0 {
            return Err(InvariantViolation::new("snapshot frame limit must be non-zero"));
        }
        Ok(Self { max_pending, max_queued, max_frame_bytes, max_replay_attempts })
    }
}

/// Snapshot rejection raised before any live kernel is hydrated.
#[derive(Debug)]
pub enum SnapshotError {
    /// The producer used a different snapshot schema.
    UnsupportedVersion {
        /// Version found in the capsule.
        found: u16,
    },
    /// Serialized state exceeded an explicit restoration bound.
    Capacity {
        /// Bounded resource that was exhausted.
        resource: &'static str,
    },
    /// A serialized frame failed JSON-RPC validation.
    InvalidFrame(FrameParseError),
    /// Cross-field snapshot state contradicted a kernel invariant.
    Invariant(&'static str),
}

/// Mathematical model of a snapshot rejection.
pub enum SnapshotErrorView {
    UnsupportedVersion(u16),
    Capacity(Seq<char>),
    InvalidFrame(FrameErrorView),
    Invariant(Seq<char>),
}

impl View for SnapshotError {
    type V = SnapshotErrorView;

    open spec fn view(&self) -> SnapshotErrorView {
        match self {
            SnapshotError::UnsupportedVersion { found } => SnapshotErrorView::UnsupportedVersion(*found),
            SnapshotError::Capacity { resource } => SnapshotErrorView::Capacity(resource@),
            SnapshotError::InvalidFrame(e) => SnapshotErrorView::InvalidFrame(e@),
            SnapshotError::Invariant(detail) => SnapshotErrorView::Invariant(detail@),
        }
    }
}

/// Whether execution knowledge and a scheduled disposition agree.
pub open spec fn schedule_valid(
    knowledge: ExecutionKnowledge,
    contract: ReplayContract,
    scheduled: Option<RequestDisposition>,
) -> bool {
    match scheduled {
        None => knowledge == ExecutionKnowledge::InFlight || knowledge == ExecutionKnowledge::OutcomeUnknown,
        Some(RequestDisposition::Replay) => knowledge == ExecutionKnowledge::OutcomeUnknown && (contract
            == ReplayContract::Convergent || contract == ReplayContract::ProbeRequired),
        Some(RequestDisposition::HoldForProbe) => knowledge == ExecutionKnowledge::OutcomeUnknown && contract
            == ReplayContract::ProbeRequired,
        Some(_) => false,
    }
}

/// Whether an earlier entry carries this sequence.
pub open spec fn sequence_taken(earlier: Seq<PendingSnapshotView>, sequence: u64) -> bool {
    exists|k: int| 0 <= k < earlier.len() && (#[trigger] earlier[k]).sequence == sequence
}

/// Whether an earlier entry carries this request identifier.
pub open spec fn id_taken(earlier: Seq<PendingSnapshotView>, id: RequestIdView) -> bool {
    exists|k: int| 0 <= k < earlier.len() && (#[trigger] earlier[k]).id == id
}

/// Validation of one pending entry after the entries before it: the live
/// invocation it restores to, or the first rejection.
pub open spec fn restore_pending_entry(
    e: PendingSnapshotView,
    document: Result<crate::json::JsonView, Seq<char>>,
    limits: SnapshotLimits,
    next_sequence: u64,
    earlier: Seq<PendingSnapshotView>,
) -> Result<PendingView, SnapshotErrorView> {
    if e.frame.len() > limits.spec_max_frame_bytes() {
        Err(SnapshotErrorView::Capacity("frame bytes"@))
    } else if e.attempts > limits.spec_max_replay_attempts() {
        Err(SnapshotErrorView::Capacity("replay attempt"@))
    } else if sequence_taken(earlier, e.sequence) || e.sequence >= next_sequence {
        Err(SnapshotErrorView::Invariant("pending sequences must be unique and below the next sequence"@))
    } else if !schedule_valid(e.knowledge, e.contract, e.scheduled) {
        Err(SnapshotErrorView::Invariant("pending execution state and scheduled disposition disagree"@))
    } else {
        match spec_parse_frame(e.frame, document) {
            Err(fe) => Err(SnapshotErrorView::InvalidFrame(fe)),
            Ok(f) => if f.envelope != (EnvelopeView::Request { id: e.id, method: e.method }) {
                Err(SnapshotErrorView::Invariant("pending identity diverges from its immutable frame"@))
            } else if id_taken(earlier, e.id) {
                Err(SnapshotErrorView::Invariant("duplicate request id in host snapshot"@))
            } else {
                Ok(
                    PendingView {
                        method: e.method,
                        sequence: e.sequence,
                        frame: f,
                        contract: e.contract,
                        meta: spec_tool_call_meta(f.value, e.method, f.payload.len()),
                        knowledge: e.knowledge,
                        attempts: e.attempts,
                        scheduled: e.scheduled,
                    },
                )
            },
        }
    }
}

/// Validation of the first `n` pending entries: the restored invocations in
/// snapshot order, or the first rejection.
pub open spec fn restore_pending_prefix(s: SnapshotView, d: DocumentsView, limits: SnapshotLimits, n: int) -> Result<
    Seq<(RequestIdView, PendingView)>,
    SnapshotErrorView,
>
    decreases n,
{
    if n <= 0 {
        Ok(Seq::empty())
    } else {
        match restore_pending_prefix(s, d, limits, n - 1) {
            Err(e) => Err(e),
            Ok(acc) => match restore_pending_entry(
                s.pending[n - 1],
                d.pending[n - 1],
                limits,
                s.next_sequence,
                s.pending.take(n - 1),
            ) {
                Err(e) => Err(e),
                Ok(p) => Ok(acc.push((s.pending[n - 1].id, p))),
            },
        }
    }
}

/// State of the queued-frame scan.
pub struct QueueScan {
    pub ids: Seq<RequestIdView>,
    pub seen: Seq<RequestIdView>,
    pub last: Option<u64>,
    pub backlog: bool,
    pub frames: Seq<FrameView>,
}

/// Validation of one queued frame after the frames before it.
pub open spec fn restore_queue_step(
    st: QueueScan,
    payload: Seq<u8>,
    document: Result<crate::json::JsonView, Seq<char>>,
    pending: Seq<(RequestIdView, PendingView)>,
    limits: SnapshotLimits,
) -> Result<QueueScan, SnapshotErrorView> {
    if payload.len() > limits.spec_max_frame_bytes() {
        Err(SnapshotErrorView::Capacity("frame bytes"@))
    } else {
        match spec_parse_frame(payload, document) {
            Err(fe) => Err(SnapshotErrorView::InvalidFrame(fe)),
            Ok(f) => match frame_request_id(f) {
                None => Ok(QueueScan { backlog: true, frames: st.frames.push(f), ..st }),
                Some(id) => if st.ids.contains(id) {
                    Err(SnapshotErrorView::Invariant("duplicate request id in queued snapshot frames"@))
                } else {
                    match pending_slot(pending, id) {
                        None => Ok(
                            QueueScan { ids: st.ids.push(id), backlog: true, frames: st.frames.push(f), ..st },
                        ),
                        Some(i) => {
                            let p = pending[i].1;
                            if st.backlog || p.scheduled is None || p.frame.payload != f.payload || (
                            st.last matches Some(l) && l >= p.sequence) {
                                Err(SnapshotErrorView::Invariant("recovery queue identity or order is invalid"@))
                            } else {
                                Ok(
                                    QueueScan {
                                        ids: st.ids.push(id),
                                        seen: st.seen.push(id),
                                        last: Some(p.sequence),
                                        frames: st.frames.push(f),
                                        ..st
                                    },
                                )
                            }
                        },
                    }
                }
            },
        }
    }
}

/// Validation of the first `n` queued frames.
pub open spec fn restore_queue_prefix(
    s: SnapshotView,
    d: DocumentsView,
    pending: Seq<(RequestIdView, PendingView)>,
    limits: SnapshotLimits,
    n: int,
) -> Result<QueueScan, SnapshotErrorView>
    decreases n,
{
    if n <= 0 {
        Ok(QueueScan { ids: Seq::empty(), seen: Seq::empty(), last: None, backlog: false, frames: Seq::empty() })
    } else {
        match restore_queue_prefix(s, d, pending, limits, n - 1) {
            Err(e) => Err(e),
            Ok(st) => restore_queue_step(st, s.queued[n - 1], d.queued[n - 1], pending, limits),
        }
    }
}

/// Whether an entry is a pending initialize invocation.
pub open spec fn is_pending_initialize(e: (RequestIdView, PendingView)) -> bool {
    is_initialize_method(e.1.method)
}

/// Whether a seed payload exceeds the frame bound.
pub open spec fn seed_exceeds(sd: SeedView, max_frame_bytes: usize) -> bool {
    sd.payload.len() > max_frame_bytes || match sd.notification {
        Some(n) => n.len() > max_frame_bytes,
        None => false,
    }
}

/// Whether a frame is the seed's initialize request.
pub open spec fn seed_request_matches(f: FrameView, sd: SeedView) -> bool {
    match f.envelope {
        EnvelopeView::Request { id, method } => id == sd.id && is_initialize_method(method),
        _ => false,
    }
}

/// Whether a frame is an initialized notification.
pub open spec fn is_initialized_notification_frame(g: FrameView) -> bool {
    match g.envelope {
        EnvelopeView::Notification { method } => is_initialized_method(method),
        _ => false,
    }
}

/// Validation of the seed's initialized notification, when one is present.
pub open spec fn seed_notification_check(sd: SeedView, d: DocumentsView) -> Result<(), SnapshotErrorView> {
    match sd.notification {
        None => Ok(()),
        Some(n) => match spec_parse_frame(n, d.initialized.unwrap()) {
            Err(fe) => Err(SnapshotErrorView::InvalidFrame(fe)),
            Ok(g) => if is_initialized_notification_frame(g) {
                Ok(())
            } else {
                Err(SnapshotErrorView::Invariant("initialized seed frame is not the client notification"@))
            },
        },
    }
}

/// Whether the public session phase agrees with the seed and the pending
/// initialize invocations.
pub open spec fn session_phase_valid(
    phase: SessionPhase,
    sd: SeedView,
    inits: Seq<(RequestIdView, PendingView)>,
) -> bool {
    match phase {
        SessionPhase::Cold => inits.len() == 0 && sd.notification is None,
        SessionPhase::Initializing => {
            &&& sd.notification is None
            &&& inits.len() == 1
            &&& inits[0].0 == sd.id
            &&& inits[0].1.frame.payload == sd.payload
        },
        SessionPhase::AwaitingInitialized => inits.len() == 0 && sd.notification is None,
        SessionPhase::Live => inits.len() == 0 && sd.notification is Some,
    }
}

/// Cross-field validation of the public session phase, the initialization
/// seed and the pending initialize invocation.
pub open spec fn validate_session(
    phase: SessionPhase,
    seed: Option<SeedView>,
    pending: Seq<(RequestIdView, PendingView)>,
    max_frame_bytes: usize,
    d: DocumentsView,
) -> Result<(), SnapshotErrorView> {
    let inits = pending.filter(|e: (RequestIdView, PendingView)| is_pending_initialize(e));
    if inits.len() > 1 {
        Err(SnapshotErrorView::Invariant("snapshot contains multiple initialize invocations"@))
    } else {
        match seed {
            None => if phase == SessionPhase::Cold && inits.len() == 0 {
                Ok(())
            } else {
                Err(SnapshotErrorView::Invariant("session phase requires an initialization seed"@))
            },
            Some(sd) => validate_seed(phase, sd, inits, max_frame_bytes, d),
        }
    }
}

/// Validation of a present seed against the phase and the pending initialize invocations.
pub open spec fn validate_seed(
    phase: SessionPhase,
    sd: SeedView,
    inits: Seq<(RequestIdView, PendingView)>,
    max_frame_bytes: usize,
    d: DocumentsView,
) -> Result<(), SnapshotErrorView> {
    if seed_exceeds(sd, max_frame_bytes) {
        Err(SnapshotErrorView::Capacity("initialization frame bytes"@))
    } else {
        match spec_parse_frame(sd.payload, d.initialize.unwrap()) {
            Err(fe) => Err(SnapshotErrorView::InvalidFrame(fe)),
            Ok(f) => if !seed_request_matches(f, sd) {
                Err(SnapshotErrorView::Invariant("initialization seed request identity is invalid"@))
            } else {
                match seed_notification_check(sd, d) {
                    Err(e) => Err(e),
                    Ok(_) => if session_phase_valid(phase, sd, inits) {
                        Ok(())
                    } else {
                        Err(SnapshotErrorView::Invariant("public session phase contradicts initialization state"@))
                    },
                }
            },
        }
    }
}

/// Inserts an entry into a sequence-ordered list after every entry whose
/// sequence does not exceed its own.
pub open spec fn insert_by_sequence(order: Seq<(RequestIdView, PendingView)>, e: (RequestIdView, PendingView)) -> Seq<
    (RequestIdView, PendingView),
>
    decreases order.len(),
{
    if order.len() == 0 {
        seq![e]
    } else if e.1.sequence < order[0].1.sequence {
        seq![e] + order
    } else {
        seq![order[0]] + insert_by_sequence(order.drop_first(), e)
    }
}

/// The first `n` entries in ascending sequence order.
pub open spec fn sequence_order(entries: Seq<(RequestIdView, PendingView)>, n: int) -> Seq<
    (RequestIdView, PendingView),
>
    decreases n,
{
    if n <= 0 {
        Seq::empty()
    } else {
        insert_by_sequence(sequence_order(entries, n - 1), entries[n - 1])
    }
}

/// Whether the documents supply one decoding per payload of the snapshot.
pub open spec fn documents_cover(s: SnapshotView, d: DocumentsView) -> bool {
    &&& d.pending.len() == s.pending.len()
    &&& d.queued.len() == s.queued.len()
    &&& (s.seed is Some ==> d.initialize is Some)
    &&& (s.seed matches Some(sd) && sd.notification is Some ==> d.initialized is Some)
}

/// Whether some scheduled pending invocation has no frame among the seen ones.
pub open spec fn scheduled_absent(pending: Seq<(RequestIdView, PendingView)>, seen: Seq<RequestIdView>) -> bool {
    exists|i: int|
        0 <= i < pending.len() && (#[trigger] pending[i]).1.scheduled is Some && !seen.contains(
            pending[i].0,
        )
}

/// The kernel a snapshot restores to, or the first rejection.
pub open spec fn spec_restore(s: SnapshotView, limits: SnapshotLimits, d: DocumentsView) -> Result<
    KernelView,
    SnapshotErrorView,
> {
    if s.version != SNAPSHOT_FORMAT_VERSION {
        Err(SnapshotErrorView::UnsupportedVersion(s.version))
    } else if s.pending.len() > limits.spec_max_pending() {
        Err(SnapshotErrorView::Capacity("pending request"@))
    } else if s.queued.len() > limits.spec_max_queued() {
        Err(SnapshotErrorView::Capacity("queued frame"@))
    } else {
        match restore_pending_prefix(s, d, limits, s.pending.len() as int) {
            Err(e) => Err(e),
            Ok(pending) => match restore_queue_prefix(s, d, pending, limits, s.queued.len() as int) {
                Err(e) => Err(e),
                Ok(st) => if scheduled_absent(pending, st.seen) {
                    Err(SnapshotErrorView::Invariant("scheduled recovery request is absent from the queue"@))
                } else {
                    match validate_session(s.phase, s.seed, pending, limits.spec_max_frame_bytes(), d) {
                        Err(e) => Err(e),
                        Ok(()) => Ok(
                            KernelView {
                                phase: s.phase,
                                seed: s.seed,
                                pending: sequence_order(pending, pending.len() as int),
                                queue: st.frames,
                                next_sequence: s.next_sequence,
                            },
                        ),
                    }
                },
            },
        }
    }
}

} // verus!

verus! {

fn copy_bytes(b: &Vec<u8>) -> (r: Vec<u8>)
    ensures
        r@ == b@,
{
    let r = b.clone();
    assert(r@ =~= b@);
    r
}

fn copy_document(d: &Result<JsonValue, String>) -> (r: Result<JsonValue, String>)
    ensures
        document_view(r) == document_view(*d),
{
    match d {
        Ok(v) => Ok(v.duplicate()),
        Err(m) => Err(m.clone()),
    }
}

fn schedule_valid_exec(
    knowledge: ExecutionKnowledge,
    contract: ReplayContract,
    scheduled: Option<RequestDisposition>,
) -> (r: bool)
    ensures
        r == schedule_valid(knowledge, contract, scheduled),
{
    match scheduled {
        None => knowledge == ExecutionKnowledge::InFlight || knowledge == ExecutionKnowledge::OutcomeUnknown,
        Some(RequestDisposition::Replay) => knowledge == ExecutionKnowledge::OutcomeUnknown && (contract
            == ReplayContract::Convergent || contract == ReplayContract::ProbeRequired),
        Some(RequestDisposition::HoldForProbe) => knowledge == ExecutionKnowledge::OutcomeUnknown && contract
            == ReplayContract::ProbeRequired,
        Some(_) => false,
    }
}

pub open spec fn snapshots_view(v: Seq<PendingRequestSnapshot>) -> Seq<PendingSnapshotView> {
    v.map_values(|p: PendingRequestSnapshot| p@)
}

/// An instant `age_ms` milliseconds before `now`, or `now` when the platform
/// cannot represent it.
fn started_before(now: &std::time::Instant, age_ms: u64) -> std::time::Instant {
    match super::instant_checked_sub(now, super::duration_from_millis(age_ms)) {
        Some(t) => t,
        None => *now,
    }
}

/// Whether an entry before `j` carries the sequence of entry `j`.
fn sequence_seen(entries: &Vec<PendingRequestSnapshot>, j: usize) -> (r: bool)
    requires
        j < entries@.len(),
    ensures
        r == sequence_taken(snapshots_view(entries@).take(j as int), entries@[j as int]@.sequence),
{
    let ghost earlier = snapshots_view(entries@).take(j as int);
    let mut k: usize = 0;
    while k < j
        invariant
            k <= j < entries@.len(),
            earlier == snapshots_view(entries@).take(j as int),
            forall|m: int| 0 <= m < k ==> (#[trigger] earlier[m]).sequence != entries@[j as int].sequence,
        decreases j - k,
    {
        assert(earlier[k as int] == entries@[k as int]@);
        if entries[k].sequence == entries[j].sequence {
            assert(earlier[k as int].sequence == entries@[j as int]@.sequence);
            return true;
        }
        k += 1;
    }
    false
}

/// Whether an entry before `j` carries the request identifier of entry `j`.
fn id_seen(entries: &Vec<PendingRequestSnapshot>, j: usize) -> (r: bool)
    requires
        j < entries@.len(),
    ensures
        r == id_taken(snapshots_view(entries@).take(j as int), entries@[j as int]@.id),
{
    let ghost earlier = snapshots_view(entries@).take(j as int);
    let mut k: usize = 0;
    while k < j
        invariant
            k <= j < entries@.len(),
            earlier == snapshots_view(entries@).take(j as int),
            forall|m: int| 0 <= m < k ==> (#[trigger] earlier[m]).id != entries@[j as int]@.id,
        decreases j - k,
    {
        assert(earlier[k as int] == entries@[k as int]@);
        if entries[k].request_id.same_as(&entries[j].request_id) {
            assert(earlier[k as int].id == entries@[j as int]@.id);
            return true;
        }
        k += 1;
    }
    false
}

/// Restores pending entry `j` after the entries before it.
fn restore_entry(
    entries: &Vec<PendingRequestSnapshot>,
    j: usize,
    document: &Result<JsonValue, String>,
    limits: SnapshotLimits,
    next_sequence: u64,
    now: &std::time::Instant,
) -> (r: Result<(RequestId, PendingRequest), SnapshotError>)
    requires
        j < entries@.len(),
    ensures
        match restore_pending_entry(
            entries@[j as int]@,
            document_view(*document),
            limits,
            next_sequence,
            snapshots_view(entries@).take(j as int),
        ) {
            Ok(p) => r matches Ok(e) && e.0@ == entries@[j as int]@.id && e.1@ == p,
            Err(x) => r matches Err(y) && y@ == x,
        },
{
    let e = &entries[j];
    let ghost earlier = snapshots_view(entries@).take(j as int);
    if e.frame.len() > limits.max_frame_bytes {
        return Err(SnapshotError::Capacity { resource: "frame bytes" });
    }
    if e.replay_attempts > limits.max_replay_attempts {
        return Err(SnapshotError::Capacity { resource: "replay attempt" });
    }
    if sequence_seen(entries, j) {
        return Err(SnapshotError::Invariant("pending sequences must be unique and below the next sequence"));
    }
    if e.sequence >= next_sequence {
        return Err(SnapshotError::Invariant("pending sequences must be unique and below the next sequence"));
    }
    if !schedule_valid_exec(e.execution_knowledge, e.replay_contract, e.scheduled_disposition) {
        return Err(SnapshotError::Invariant("pending execution state and scheduled disposition disagree"));
    }
    let frame = match FramedMessage::from_document(copy_bytes(&e.frame), copy_document(document)) {
        Ok(f) => f,
        Err(fe) => return Err(SnapshotError::InvalidFrame(fe)),
    };
    let identity = match frame.classify() {
        RpcEnvelopeKind::Request { id, method } => id.same_as(&e.request_id) && method.same_as(&e.method),
        _ => false,
    };
    if !identity {
        return Err(SnapshotError::Invariant("pending identity diverges from its immutable frame"));
    }
    if id_seen(entries, j) {
        return Err(SnapshotError::Invariant("duplicate request id in host snapshot"));
    }
    let tool_call_meta = parse_tool_call_meta(&frame, &e.method);
    let request = PendingRequest {
        method: e.method.duplicate(),
        sequence: e.sequence,
        frame,
        replay_contract: e.replay_contract,
        started_at: started_before(now, e.age_ms),
        tool_call_meta,
        execution_knowledge: e.execution_knowledge,
        replay_attempts: e.replay_attempts,
        scheduled_disposition: e.scheduled_disposition,
    };
    Ok((e.request_id.duplicate(), request))
}

/// A rejection among the first pending entries rejects every longer prefix.
proof fn lemma_pending_prefix_error_persists(s: SnapshotView, d: DocumentsView, limits: SnapshotLimits, a: int, b: int)
    requires
        0 <= a <= b,
        restore_pending_prefix(s, d, limits, a) is Err,
    ensures
        restore_pending_prefix(s, d, limits, b) == restore_pending_prefix(s, d, limits, a),
    decreases b - a,
{
    if a < b {
        lemma_pending_prefix_error_persists(s, d, limits, a, b - 1);
    }
}

/// Restores every pending entry in snapshot order.
fn restore_pending_entries(
    s: &HostSessionKernelSnapshot,
    d: &SnapshotDocuments,
    limits: SnapshotLimits,
    now: &std::time::Instant,
) -> (r: Result<Vec<(RequestId, PendingRequest)>, SnapshotError>)
    requires
        documents_cover(s@, d@),
    ensures
        match restore_pending_prefix(s@, d@, limits, s@.pending.len() as int) {
            Ok(ps) => r matches Ok(v) && pending_entries_view(v@) == ps,
            Err(x) => r matches Err(y) && y@ == x,
        },
{
    let mut restored: Vec<(RequestId, PendingRequest)> = Vec::new();
    let mut j: usize = 0;
    assert(pending_entries_view(restored@) =~= Seq::<(RequestIdView, PendingView)>::empty());
    while j < s.pending.len()
        invariant
            j <= s.pending.len(),
            documents_cover(s@, d@),
            restore_pending_prefix(s@, d@, limits, j as int) == Ok::<
                Seq<(RequestIdView, PendingView)>,
                SnapshotErrorView,
            >(pending_entries_view(restored@)),
        decreases s.pending.len() - j,
    {
        assert(s@.pending.take(j as int) =~= snapshots_view(s.pending@).take(j as int));
        assert(d@.pending[j as int] == document_view(d.pending_frames@[j as int]));
        match restore_entry(&s.pending, j, &d.pending_frames[j], limits, s.next_pending_sequence, now) {
            Ok(entry) => {
                let ghost before = restored@;
                restored.push(entry);
                assert(pending_entries_view(restored@) =~= pending_entries_view(before).push(
                    (entry.0@, entry.1@),
                ));
            },
            Err(e) => {
                proof {
                    lemma_pending_prefix_error_persists(s@, d@, limits, j + 1, s@.pending.len() as int);
                }
                return Err(e);
            },
        }
        j += 1;
    }
    Ok(restored)
}

} // verus!

verus! {

/// Exec state of the queued-frame scan.
struct QueueScanState {
    ids: Vec<RequestId>,
    seen: Vec<RequestId>,
    last: Option<u64>,
    backlog: bool,
    frames: Vec<FramedMessage>,
}

impl View for QueueScanState {
    type V = QueueScan;

    closed spec fn view(&self) -> QueueScan {
        QueueScan {
            ids: super::ids_view(self.ids@),
            seen: super::ids_view(self.seen@),
            last: self.last,
            backlog: self.backlog,
            frames: frames_view(self.frames@),
        }
    }
}

/// Whether a list of identifiers contains `id`.
fn ids_contain(ids: &Vec<RequestId>, id: &RequestId) -> (r: bool)
    ensures
        r == super::ids_view(ids@).contains(id@),
{
    let ghost v = super::ids_view(ids@);
    let mut i: usize = 0;
    while i < ids.len()
        invariant
            i <= ids.len(),
            v == super::ids_view(ids@),
            v.len() == ids@.len(),
            forall|k: int| 0 <= k < i ==> v[k] != id@,
        decreases ids.len() - i,
    {
        if ids[i].same_as(id) {
            assert(v[i as int] == id@);
            return true;
        }
        i += 1;
    }
    false
}

impl QueueScanState {
    fn new() -> (r: Self)
        ensures
            r@ == (QueueScan {
                ids: Seq::empty(),
                seen: Seq::empty(),
                last: None,
                backlog: false,
                frames: Seq::empty(),
            }),
    {
        let r = Self { ids: Vec::new(), seen: Vec::new(), last: None, backlog: false, frames: Vec::new() };
        assert(r@.ids =~= Seq::<RequestIdView>::empty());
        assert(r@.seen =~= Seq::<RequestIdView>::empty());
        assert(r@.frames =~= Seq::<FrameView>::empty());
        r
    }

    /// Validates one queued frame after the frames before it.
    fn step(
        &mut self,
        payload: &Vec<u8>,
        document: &Result<JsonValue, String>,
        pending: &Vec<(RequestId, PendingRequest)>,
        limits: SnapshotLimits,
    ) -> (r: Result<(), SnapshotError>)
        ensures
            match restore_queue_step(
                old(self)@,
                payload@,
                document_view(*document),
                pending_entries_view(pending@),
                limits,
            ) {
                Ok(st) => r is Ok && final(self)@ == st,
                Err(x) => r matches Err(y) && y@ == x,
            },
    {
        if payload.len() > limits.max_frame_bytes {
            return Err(SnapshotError::Capacity { resource: "frame bytes" });
        }
        let frame = match FramedMessage::from_document(copy_bytes(payload), copy_document(document)) {
            Ok(f) => f,
            Err(fe) => return Err(SnapshotError::InvalidFrame(fe)),
        };
        let ghost fv = frame@;
        let ghost old_ids = self.ids@;
        let ghost old_seen = self.seen@;
        let ghost old_frames = self.frames@;
        match frame.request_id() {
            None => {
                self.backlog = true;
                self.frames.push(frame);
                assert(frames_view(self.frames@) =~= frames_view(old_frames).push(fv));
                Ok(())
            },
            Some(id) => {
                if ids_contain(&self.ids, &id) {
                    return Err(SnapshotError::Invariant("duplicate request id in queued snapshot frames"));
                }
                match super::find_pending_slot(pending, &id) {
                    None => {
                        self.ids.push(id);
                        assert(super::ids_view(self.ids@) =~= super::ids_view(old_ids).push(id@));
                        self.backlog = true;
                        self.frames.push(frame);
                        assert(frames_view(self.frames@) =~= frames_view(old_frames).push(fv));
                        Ok(())
                    },
                    Some(i) => {
                        let p = &pending[i].1;
                        let out_of_order = match self.last {
                            Some(l) => l >= p.sequence,
                            None => false,
                        };
                        if self.backlog || p.scheduled_disposition.is_none() || !p.frame.same_payload(&frame)
                            || out_of_order {
                            return Err(SnapshotError::Invariant("recovery queue identity or order is invalid"));
                        }
                        self.last = Some(p.sequence);
                        let seen_id = id.duplicate();
                        self.ids.push(id);
                        assert(super::ids_view(self.ids@) =~= super::ids_view(old_ids).push(seen_id@));
                        self.seen.push(seen_id);
                        assert(super::ids_view(self.seen@) =~= super::ids_view(old_seen).push(seen_id@));
                        self.frames.push(frame);
                        assert(frames_view(self.frames@) =~= frames_view(old_frames).push(fv));
                        Ok(())
                    },
                }
            },
        }
    }
}

/// A rejection among the first queued frames rejects every longer prefix.
proof fn lemma_queue_prefix_error_persists(
    s: SnapshotView,
    d: DocumentsView,
    pending: Seq<(RequestIdView, PendingView)>,
    limits: SnapshotLimits,
    a: int,
    b: int,
)
    requires
        0 <= a <= b,
        restore_queue_prefix(s, d, pending, limits, a) is Err,
    ensures
        restore_queue_prefix(s, d, pending, limits, b) == restore_queue_prefix(s, d, pending, limits, a),
    decreases b - a,
{
    if a < b {
        lemma_queue_prefix_error_persists(s, d, pending, limits, a, b - 1);
    }
}

/// Validates every queued frame in order.
fn restore_queue(
    s: &HostSessionKernelSnapshot,
    d: &SnapshotDocuments,
    pending: &Vec<(RequestId, PendingRequest)>,
    limits: SnapshotLimits,
) -> (r: Result<QueueScanState, SnapshotError>)
    requires
        documents_cover(s@, d@),
    ensures
        match restore_queue_prefix(s@, d@, pending_entries_view(pending@), limits, s@.queued.len() as int) {
            Ok(st) => r matches Ok(v) && v@ == st,
            Err(x) => r matches Err(y) && y@ == x,
        },
{
    let ghost pv = pending_entries_view(pending@);
    let mut st = QueueScanState::new();
    let mut j: usize = 0;
    while j < s.queued_frames.len()
        invariant
            j <= s.queued_frames.len(),
            documents_cover(s@, d@),
            pv == pending_entries_view(pending@),
            restore_queue_prefix(s@, d@, pv, limits, j as int) == Ok::<QueueScan, SnapshotErrorView>(st@),
        decreases s.queued_frames.len() - j,
    {
        assert(s@.queued[j as int] == s.queued_frames@[j as int]@);
        assert(d@.queued[j as int] == document_view(d.queued_frames@[j as int]));
        match st.step(&s.queued_frames[j], &d.queued_frames[j], pending, limits) {
            Ok(()) => {},
            Err(e) => {
                proof {
                    lemma_queue_prefix_error_persists(s@, d@, pv, limits, j + 1, s@.queued.len() as int);
                }
                return Err(e);
            },
        }
        j += 1;
    }
    Ok(st)
}

/// Whether some scheduled pending invocation has no frame among `seen`.
fn scheduled_missing(pending: &Vec<(RequestId, PendingRequest)>, seen: &Vec<RequestId>) -> (r: bool)
    ensures
        r == scheduled_absent(pending_entries_view(pending@), super::ids_view(seen@)),
{
    let ghost pv = pending_entries_view(pending@);
    let mut i: usize = 0;
    while i < pending.len()
        invariant
            i <= pending.len(),
            pv == pending_entries_view(pending@),
            pv.len() == pending@.len(),
            forall|k: int|
                0 <= k < i ==> !((#[trigger] pv[k]).1.scheduled is Some && !super::ids_view(seen@).contains(
                    pv[k].0,
                )),
        decreases pending.len() - i,
    {
        if pending[i].1.scheduled_disposition.is_some() && !ids_contain(seen, &pending[i].0) {
            assert(pv[i as int].1.scheduled is Some);
            return true;
        }
        i += 1;
    }
    false
}

} // verus!

verus! {

/// Counts pending initialize invocations; with at least one, also returns the
/// position of the first.
fn pending_initializes(pending: &Vec<(RequestId, PendingRequest)>) -> (r: (usize, usize))
    ensures
        r.0 == pending_entries_view(pending@).filter(|e: (RequestIdView, PendingView)| is_pending_initialize(e)).len(),
        r.0 > 0 ==> r.1 < pending@.len() && pending_entries_view(pending@).filter(
            |e: (RequestIdView, PendingView)| is_pending_initialize(e),
        )[0] == pending_entries_view(pending@)[r.1 as int],
{
    let ghost pv = pending_entries_view(pending@);
    let ghost pred = |e: (RequestIdView, PendingView)| is_pending_initialize(e);
    let mut count: usize = 0;
    let mut first: usize = 0;
    let mut i: usize = 0;
    proof {
        reveal(Seq::filter);
        assert(pv.take(0) =~= Seq::<(RequestIdView, PendingView)>::empty());
    }
    while i < pending.len()
        invariant
            i <= pending.len(),
            pv == pending_entries_view(pending@),
            pv.len() == pending@.len(),
            pred == (|e: (RequestIdView, PendingView)| is_pending_initialize(e)),
            count == pv.take(i as int).filter(pred).len(),
            count <= i,
            count > 0 ==> first < i && pv.take(i as int).filter(pred)[0] == pv[first as int],
        decreases pending.len() - i,
    {
        proof {
            super::lemma_filter_take_step(pv, pred, i as int);
        }
        if pending[i].1.method.is_initialize() {
            assert(pred(pv[i as int]));
            if count == 0 {
                first = i;
            }
            count = count + 1;
        }
        i += 1;
    }
    assert(pv.take(i as int) =~= pv);
    (count, first)
}

/// Cross-field validation of the session phase, seed and pending initialize invocation.
fn validate_session_exec(
    phase: SessionPhase,
    seed: &Option<InitializationSeed>,
    pending: &Vec<(RequestId, PendingRequest)>,
    max_frame_bytes: usize,
    d: &SnapshotDocuments,
) -> (r: Result<(), SnapshotError>)
    requires
        seed is Some ==> d@.initialize is Some,
        (seed matches Some(sd) && sd.initialized_notification is Some) ==> d@.initialized is Some,
    ensures
        match validate_session(phase, opt_seed_view(*seed), pending_entries_view(pending@), max_frame_bytes, d@) {
            Ok(_) => r is Ok,
            Err(x) => r matches Err(y) && y@ == x,
        },
{
    let (count, first) = pending_initializes(pending);
    if count > 1 {
        return Err(SnapshotError::Invariant("snapshot contains multiple initialize invocations"));
    }
    let sd = match seed {
        None => {
            if phase == SessionPhase::Cold && count == 0 {
                return Ok(());
            }
            return Err(SnapshotError::Invariant("session phase requires an initialization seed"));
        },
        Some(sd) => sd,
    };
    let notification_too_large = match &sd.initialized_notification {
        Some(n) => n.len() > max_frame_bytes,
        None => false,
    };
    if sd.initialize_request.payload.len() > max_frame_bytes || notification_too_large {
        return Err(SnapshotError::Capacity { resource: "initialization frame bytes" });
    }
    let initialize_document = match &d.initialize_request {
        Some(doc) => doc,
        None => return Err(SnapshotError::Invariant("initialization seed request identity is invalid")),
    };
    let initialize = match FramedMessage::from_document(
        copy_bytes(&sd.initialize_request.payload),
        copy_document(initialize_document),
    ) {
        Ok(f) => f,
        Err(fe) => return Err(SnapshotError::InvalidFrame(fe)),
    };
    let request_matches = match initialize.classify() {
        RpcEnvelopeKind::Request { id, method } => id.same_as(&sd.initialize_request.id) && method.is_initialize(),
        _ => false,
    };
    if !request_matches {
        return Err(SnapshotError::Invariant("initialization seed request identity is invalid"));
    }
    if let Some(payload) = &sd.initialized_notification {
        let notification_document = match &d.initialized_notification {
            Some(doc) => doc,
            None => return Err(SnapshotError::Invariant("initialized seed frame is not the client notification")),
        };
        let notification = match FramedMessage::from_document(copy_bytes(payload), copy_document(notification_document)) {
            Ok(f) => f,
            Err(fe) => return Err(SnapshotError::InvalidFrame(fe)),
        };
        let is_notification = match notification.classify() {
            RpcEnvelopeKind::Notification { method } => method.is_initialized_notification(),
            _ => false,
        };
        if !is_notification {
            return Err(SnapshotError::Invariant("initialized seed frame is not the client notification"));
        }
    }
    let has_notification = sd.initialized_notification.is_some();
    let phase_valid = match phase {
        SessionPhase::Cold => count == 0 && !has_notification,
        SessionPhase::Initializing => !has_notification && count == 1 && pending[first].0.same_as(
            &sd.initialize_request.id,
        ) && crate::jsonrpc::bytes_eq(pending[first].1.frame.payload(), sd.initialize_request.payload.as_slice()),
        SessionPhase::AwaitingInitialized => count == 0 && !has_notification,
        SessionPhase::Live => count == 0 && has_notification,
    };
    if phase_valid {
        Ok(())
    } else {
        Err(SnapshotError::Invariant("public session phase contradicts initialization state"))
    }
}

} // verus!

verus! {

proof fn lemma_insert_by_sequence_split(
    order: Seq<(RequestIdView, PendingView)>,
    e: (RequestIdView, PendingView),
    p: int,
)
    requires
        0 <= p <= order.len(),
        forall|k: int| 0 <= k < p ==> !(e.1.sequence < (#[trigger] order[k]).1.sequence),
        p < order.len() ==> e.1.sequence < order[p].1.sequence,
    ensures
        insert_by_sequence(order, e) == order.take(p) + seq![e] + order.skip(p),
    decreases order.len(),
{
    if order.len() == 0 {
        assert(order.take(p) + seq![e] + order.skip(p) =~= seq![e]);
    } else if p == 0 {
        assert(order.take(p) + seq![e] + order.skip(p) =~= seq![e] + order);
    } else {
        assert forall|k: int| 0 <= k < p - 1 implies !(e.1.sequence < (#[trigger] order.drop_first()[k]).1.sequence) by {
            assert(order.drop_first()[k] == order[k + 1]);
        }
        assert(!(e.1.sequence < order[0].1.sequence));
        lemma_insert_by_sequence_split(order.drop_first(), e, p - 1);
        assert(seq![order[0]] + (order.drop_first().take(p - 1) + seq![e] + order.drop_first().skip(p - 1))
            =~= order.take(p) + seq![e] + order.skip(p));
    }
}

/// The entries in ascending sequence order, equal sequences keeping their order.
fn sort_by_sequence(entries: &Vec<(RequestId, PendingRequest)>) -> (r: Vec<(RequestId, PendingRequest)>)
    ensures
        pending_entries_view(r@) == sequence_order(pending_entries_view(entries@), entries@.len() as int),
{
    let ghost ev = pending_entries_view(entries@);
    let mut sorted: Vec<(RequestId, PendingRequest)> = Vec::new();
    let mut i: usize = 0;
    assert(pending_entries_view(sorted@) =~= Seq::<(RequestIdView, PendingView)>::empty());
    while i < entries.len()
        invariant
            i <= entries.len(),
            ev == pending_entries_view(entries@),
            ev.len() == entries@.len(),
            pending_entries_view(sorted@) == sequence_order(ev, i as int),
        decreases entries.len() - i,
    {
        let ghost sv = pending_entries_view(sorted@);
        let sequence = entries[i].1.sequence;
        let mut p: usize = 0;
        while p < sorted.len() && !(sequence < sorted[p].1.sequence)
            invariant
                p <= sorted.len(),
                sv == pending_entries_view(sorted@),
                sv.len() == sorted@.len(),
                sequence == ev[i as int].1.sequence,
                forall|k: int| 0 <= k < p ==> !(sequence < (#[trigger] sv[k]).1.sequence),
            decreases sorted.len() - p,
        {
            p += 1;
        }
        proof {
            lemma_insert_by_sequence_split(sv, ev[i as int], p as int);
        }
        let entry = (entries[i].0.duplicate(), entries[i].1.duplicate());
        assert((entry.0@, entry.1@) == ev[i as int]);
        sorted.insert(p, entry);
        assert(pending_entries_view(sorted@) =~= sv.take(p as int) + seq![ev[i as int]] + sv.skip(p as int));
        i += 1;
    }
    sorted
}

impl HostSessionKernelSnapshot {
    /// Validates the complete capsule and restores one live kernel atomically.
    ///
    /// `documents` holds what decoding each payload of the snapshot as JSON
    /// gave, position for position.
    pub fn restore(self, limits: SnapshotLimits, documents: SnapshotDocuments) -> (r: Result<
        HostSessionKernel,
        SnapshotError,
    >)
        requires
            documents_cover(self@, documents@),
        ensures
            match spec_restore(self@, limits, documents@) {
                Ok(k) => r matches Ok(kernel) && kernel@ == k,
                Err(x) => r matches Err(y) && y@ == x,
            },
    {
        if self.format_version != SNAPSHOT_FORMAT_VERSION {
            return Err(SnapshotError::UnsupportedVersion { found: self.format_version });
        }
        if self.pending.len() > limits.max_pending {
            return Err(SnapshotError::Capacity { resource: "pending request" });
        }
        if self.queued_frames.len() > limits.max_queued {
            return Err(SnapshotError::Capacity { resource: "queued frame" });
        }
        let now = super::instant_now();
        let pending = match restore_pending_entries(&self, &documents, limits, &now) {
            Ok(p) => p,
            Err(e) => return Err(e),
        };
        let scan = match restore_queue(&self, &documents, &pending, limits) {
            Ok(st) => st,
            Err(e) => return Err(e),
        };
        if scheduled_missing(&pending, &scan.seen) {
            return Err(SnapshotError::Invariant("scheduled recovery request is absent from the queue"));
        }
        match validate_session_exec(
            self.session_phase,
            &self.initialization_seed,
            &pending,
            limits.max_frame_bytes,
            &documents,
        ) {
            Ok(()) => {},
            Err(e) => return Err(e),
        }
        let sorted = sort_by_sequence(&pending);
        let kernel = HostSessionKernel {
            session_phase: self.session_phase,
            initialization_seed: self.initialization_seed,
            pending: sorted,
            queued_frames: scan.frames,
            next_pending_sequence: self.next_pending_sequence,
        };
        Ok(kernel)
    }
}

} // verus!

verus! {

/// The snapshot entry recording a pending invocation, apart from its age.
pub open spec fn records_pending(s: PendingSnapshotView, e: (RequestIdView, PendingView)) -> bool {
    &&& s.id == e.0
    &&& s.method == e.1.method
    &&& s.sequence == e.1.sequence
    &&& s.frame == e.1.frame.payload
    &&& s.contract == e.1.contract
    &&& s.knowledge == e.1.knowledge
    &&& s.attempts == e.1.attempts
    &&& s.scheduled == e.1.scheduled
}

/// Whether a snapshot records a kernel: the current format, its phase, seed
/// and next sequence, its pending invocations in ascending sequence order,
/// and its queued payloads in order.
pub open spec fn snapshot_records(s: SnapshotView, k: KernelView) -> bool {
    let ordered = sequence_order(k.pending, k.pending.len() as int);
    &&& s.version == SNAPSHOT_FORMAT_VERSION
    &&& s.phase == k.phase
    &&& s.seed == k.seed
    &&& s.next_sequence == k.next_sequence
    &&& s.queued == k.queue.map_values(|f: FrameView| f.payload)
    &&& s.pending.len() == ordered.len()
    &&& forall|i: int| 0 <= i < s.pending.len() ==> records_pending(#[trigger] s.pending[i], ordered[i])
}

impl HostSessionKernel {
    /// Serializes the current kernel state for self-reexec.
    pub fn snapshot(&self) -> (r: HostSessionKernelSnapshot)
        ensures
            snapshot_records(r@, self@),
    {
        let sorted = sort_by_sequence(&self.pending);
        let ghost ordered = pending_entries_view(sorted@);
        let mut pending: Vec<PendingRequestSnapshot> = Vec::new();
        let mut i: usize = 0;
        while i < sorted.len()
            invariant
                i <= sorted.len(),
                ordered == pending_entries_view(sorted@),
                ordered.len() == sorted@.len(),
                pending@.len() == i,
                forall|k: int| 0 <= k < i ==> records_pending(#[trigger] pending@[k]@, ordered[k]),
            decreases sorted.len() - i,
        {
            let entry = &sorted[i];
            pending.push(
                PendingRequestSnapshot {
                    request_id: entry.0.duplicate(),
                    method: entry.1.method.duplicate(),
                    sequence: entry.1.sequence,
                    frame: vstd::slice::slice_to_vec(entry.1.frame.payload()),
                    replay_contract: entry.1.replay_contract,
                    execution_knowledge: entry.1.execution_knowledge,
                    replay_attempts: entry.1.replay_attempts,
                    scheduled_disposition: entry.1.scheduled_disposition,
                    age_ms: super::age_millis(&entry.1.started_at),
                },
            );
            assert(records_pending(pending@[i as int]@, ordered[i as int]));
            i += 1;
        }
        let ghost q = self@.queue;
        let mut queued: Vec<Vec<u8>> = Vec::new();
        let mut j: usize = 0;
        while j < self.queued_frames.len()
            invariant
                j <= self.queued_frames.len(),
                q == self@.queue,
                q.len() == self.queued_frames@.len(),
                queued@.map_values(|b: Vec<u8>| b@) == q.take(j as int).map_values(|f: FrameView| f.payload),
            decreases self.queued_frames.len() - j,
        {
            let ghost before = queued@;
            let payload = vstd::slice::slice_to_vec(self.queued_frames[j].payload());
            assert(q[j as int] == self.queued_frames@[j as int]@);
            assert(payload@ == q[j as int].payload);
            queued.push(payload);
            assert(queued@.map_values(|b: Vec<u8>| b@) =~= before.map_values(|b: Vec<u8>| b@).push(payload@));
            assert(q.take(j + 1).map_values(|f: FrameView| f.payload) =~= q.take(j as int).map_values(
                |f: FrameView| f.payload,
            ).push(q[j as int].payload));
            assert(queued@.map_values(|b: Vec<u8>| b@) =~= q.take(j + 1).map_values(|f: FrameView| f.payload));
            j += 1;
        }
        assert(q.take(j as int) =~= q);
        let initialization_seed = match &self.initialization_seed {
            Some(seed) => Some(seed.duplicate()),
            None => None,
        };
        let r = HostSessionKernelSnapshot {
            format_version: SNAPSHOT_FORMAT_VERSION,
            session_phase: self.session_phase,
            initialization_seed,
            pending,
            queued_frames: queued,
            next_pending_sequence: self.next_pending_sequence,
        };
        assert forall|i: int| 0 <= i < r@.pending.len() implies records_pending(
            #[trigger] r@.pending[i],
            sequence_order(self@.pending, self@.pending.len() as int)[i],
        ) by {
            assert(r@.pending[i] == r.pending@[i]@);
        }
        r
    }
}

/// Why a snapshot capsule was refused before its contents were read.
#[derive(Debug, Clone, Copy, PartialEq, Eq, Structural)]
pub enum CapsuleRefusal {
    /// The capsule file-name prefix is not 1-64 portable filename characters.
    InvalidPrefix,
    /// The byte limit for a capsule is zero.
    ZeroLimit,
    /// The capsule is not a regular file owned by the user and closed to every other
    /// principal.
    NotPrivate,
    /// The capsule is larger than the limit (the limit is carried).
    TooLarge(usize),
}

/// Refuses a capsule file-name prefix that is not 1-64 portable filename characters.
pub fn check_capsule_prefix(prefix: &str) -> (r: Result<(), CapsuleRefusal>)
    ensures
        r is Ok <==> crate::rollout::is_server_name(prefix@),
        r matches Err(e) ==> e == CapsuleRefusal::InvalidPrefix,
{
    match crate::rollout::validate_server_name(prefix) {
        Ok(()) => Ok(()),
        Err(_) => Err(CapsuleRefusal::InvalidPrefix),
    }
}

/// Whether a capsule file is a regular file of the user with no permission bit for group or
/// others.
pub open spec fn is_private_capsule(is_file: bool, owner: u32, user: u32, mode: u32) -> bool {
    is_file && owner == user && mode & 0o077u32 == 0
}

/// Checks a capsule about to be read: the limit is non-zero, the file is private, and it
/// holds at most `max_bytes` bytes, refused in that order.
pub fn check_capsule(is_file: bool, owner: u32, user: u32, mode: u32, length: u64, max_bytes: usize) -> (r: Result<
    (),
    CapsuleRefusal,
>)
    ensures
        max_bytes == 0 ==> r == Err::<(), CapsuleRefusal>(CapsuleRefusal::ZeroLimit),
        max_bytes > 0 && !is_private_capsule(is_file, owner, user, mode) ==> r == Err::<(), CapsuleRefusal>(
            CapsuleRefusal::NotPrivate,
        ),
        max_bytes > 0 && is_private_capsule(is_file, owner, user, mode) ==> (if length > max_bytes {
            r == Err::<(), CapsuleRefusal>(CapsuleRefusal::TooLarge(max_bytes))
        } else {
            r == Ok::<(), CapsuleRefusal>(())
        }),
{
    if max_bytes == 0 {
        return Err(CapsuleRefusal::ZeroLimit);
    }
    if !(is_file && owner == user && mode & 0o077u32 == 0) {
        return Err(CapsuleRefusal::NotPrivate);
    }
    if length > max_bytes as u64 {
        return Err(CapsuleRefusal::TooLarge(max_bytes));
    }
    Ok(())
}

} // verus!

//! Standard health and telemetry payloads and the session-scoped operational ledger.

use vstd::prelude::*;
use crate::fault::{Fault, FaultView};
use crate::jsonrpc::RpcMethod;
use crate::text::{owned, seq_lt, text_lt};
use crate::types::Generation;

pub mod laws;

verus! {

/// Coarse lifecycle state of the live worker set.
#[derive(Debug, Clone, Copy, PartialEq, Eq, Structural)]
pub enum LifecycleState {
    /// No worker is currently alive.
    Cold,
    /// Startup is in progress.
    Starting,
    /// A worker is healthy and serving.
    Ready,
    /// Recovery is in progress after a fault.
    Recovering,
}

/// Handshake state of the active disposable worker generation.
#[derive(Debug, Clone, Copy, PartialEq, Eq, Structural)]
pub enum WorkerHandshakePhase {
    /// No worker is attached.
    Absent,
    /// A process is starting but has not begun MCP initialization.
    Starting,
    /// The active worker is performing its private initialization handshake.
    Initializing,
    /// The active worker completed its private handshake.
    Ready,
    /// The active generation failed and awaits replacement.
    Failed,
}

/// Rollout or reload state of the host.
#[derive(Debug, Clone, Copy, PartialEq, Eq, Structural)]
pub enum RolloutState {
    /// No rollout is pending.
    Stable,
    /// A rollout has been detected but not yet executed.
    Pending,
    /// A rollout or reexec is in flight.
    Reloading,
}

/// Base health snapshot for a hardened MCP host or worker.
#[derive(Debug, PartialEq, Eq)]
pub struct HealthSnapshot {
    /// Current lifecycle state.
    pub state: LifecycleState,
    /// Active worker handshake state, distinct from host lifecycle.
    pub worker_handshake: WorkerHandshakePhase,
    /// Current generation.
    pub generation: Generation,
    /// Process uptime in milliseconds.
    pub uptime_ms: u64,
    /// Consecutive failures since the last healthy request.
    pub consecutive_failures: u32,
    /// Total restart count.
    pub restart_count: u64,
    /// Rollout state when the runtime exposes it.
    pub rollout: Option<RolloutState>,
    /// Most recent fault, if any.
    pub last_fault: Option<Fault>,
}

/// Aggregate request totals.
#[derive(Debug, Clone, Copy, PartialEq, Eq, Structural)]
pub struct TelemetryTotals {
    request_count: u64,
    success_count: u64,
    error_count: u64,
    response_error_count: u64,
    recovery_error_count: u64,
    recovery_fault_count: u64,
    retry_count: u64,
}

/// Mathematical model of aggregate totals.
pub struct TotalsView {
    pub request_count: u64,
    pub success_count: u64,
    pub error_count: u64,
    pub response_error_count: u64,
    pub recovery_error_count: u64,
    pub recovery_fault_count: u64,
    pub retry_count: u64,
}

impl View for TelemetryTotals {
    type V = TotalsView;

    closed spec fn view(&self) -> TotalsView {
        TotalsView {
            request_count: self.request_count,
            success_count: self.success_count,
            error_count: self.error_count,
            response_error_count: self.response_error_count,
            recovery_error_count: self.recovery_error_count,
            recovery_fault_count: self.recovery_fault_count,
            retry_count: self.retry_count,
        }
    }
}

impl TelemetryTotals {
    /// Returns total admitted public requests.
    pub fn request_count(&self) -> (r: u64)
        ensures
            r == self@.request_count,
    {
        self.request_count
    }

    /// Returns terminal public successes.
    pub fn success_count(&self) -> (r: u64)
        ensures
            r == self@.success_count,
    {
        self.success_count
    }

    /// Returns all terminal public errors.
    pub fn error_count(&self) -> (r: u64)
        ensures
            r == self@.error_count,
    {
        self.error_count
    }

    /// Returns terminal downstream response errors.
    pub fn response_error_count(&self) -> (r: u64)
        ensures
            r == self@.response_error_count,
    {
        self.response_error_count
    }

    /// Returns terminal public errors caused by host recovery.
    pub fn recovery_error_count(&self) -> (r: u64)
        ensures
            r == self@.recovery_error_count,
    {
        self.recovery_error_count
    }

    /// Returns recovery-triggering operational fault incidents.
    pub fn recovery_fault_count(&self) -> (r: u64)
        ensures
            r == self@.recovery_fault_count,
    {
        self.recovery_fault_count
    }

    /// Returns actual redispatches.
    pub fn retry_count(&self) -> (r: u64)
        ensures
            r == self@.retry_count,
    {
        self.retry_count
    }
}

/// Per-method telemetry aggregate.
#[derive(Debug, PartialEq, Eq)]
pub struct MethodTelemetry {
    method: RpcMethod,
    request_count: u64,
    success_count: u64,
    error_count: u64,
    response_error_count: u64,
    recovery_error_count: u64,
    recovery_fault_count: u64,
    retry_count: u64,
    last_latency_ms: Option<u64>,
    max_latency_ms: u64,
    avg_latency_ms: u64,
    last_error: Option<String>,
}

/// Mathematical model of a per-method aggregate.
pub struct MethodTelemetryView {
    pub method: Seq<char>,
    pub request_count: u64,
    pub success_count: u64,
    pub error_count: u64,
    pub response_error_count: u64,
    pub recovery_error_count: u64,
    pub recovery_fault_count: u64,
    pub retry_count: u64,
    pub last_latency_ms: Option<u64>,
    pub max_latency_ms: u64,
    pub avg_latency_ms: u64,
    pub last_error: Option<Seq<char>>,
}

pub open spec fn opt_text(o: Option<String>) -> Option<Seq<char>> {
    match o {
        Some(s) => Some(s@),
        None => None,
    }
}

impl View for MethodTelemetry {
    type V = MethodTelemetryView;

    closed spec fn view(&self) -> MethodTelemetryView {
        MethodTelemetryView {
            method: self.method@,
            request_count: self.request_count,
            success_count: self.success_count,
            error_count: self.error_count,
            response_error_count: self.response_error_count,
            recovery_error_count: self.recovery_error_count,
            recovery_fault_count: self.recovery_fault_count,
            retry_count: self.retry_count,
            last_latency_ms: self.last_latency_ms,
            max_latency_ms: self.max_latency_ms,
            avg_latency_ms: self.avg_latency_ms,
            last_error: opt_text(self.last_error),
        }
    }
}

impl MethodTelemetry {
    /// Returns the canonical method identity.
    pub fn method(&self) -> (r: &RpcMethod)
        ensures
            r@ == self@.method,
    {
        &self.method
    }

    /// Returns admitted public requests for this method.
    pub fn request_count(&self) -> (r: u64)
        ensures
            r == self@.request_count,
    {
        self.request_count
    }

    /// Returns terminal public successes for this method.
    pub fn success_count(&self) -> (r: u64)
        ensures
            r == self@.success_count,
    {
        self.success_count
    }

    /// Returns all terminal public errors for this method.
    pub fn error_count(&self) -> (r: u64)
        ensures
            r == self@.error_count,
    {
        self.error_count
    }

    /// Returns terminal downstream response errors for this method.
    pub fn response_error_count(&self) -> (r: u64)
        ensures
            r == self@.response_error_count,
    {
        self.response_error_count
    }

    /// Returns terminal host-recovery errors for this method.
    pub fn recovery_error_count(&self) -> (r: u64)
        ensures
            r == self@.recovery_error_count,
    {
        self.recovery_error_count
    }

    /// Returns recovery-triggering fault incidents for this method.
    pub fn recovery_fault_count(&self) -> (r: u64)
        ensures
            r == self@.recovery_fault_count,
    {
        self.recovery_fault_count
    }

    /// Returns actual redispatches for this method.
    pub fn retry_count(&self) -> (r: u64)
        ensures
            r == self@.retry_count,
    {
        self.retry_count
    }

    /// Returns the most recent measured terminal latency.
    pub fn last_latency_ms(&self) -> (r: Option<u64>)
        ensures
            r == self@.last_latency_ms,
    {
        self.last_latency_ms
    }

    /// Returns the maximum measured terminal latency.
    pub fn max_latency_ms(&self) -> (r: u64)
        ensures
            r == self@.max_latency_ms,
    {
        self.max_latency_ms
    }

    /// Returns the mean measured terminal latency.
    pub fn avg_latency_ms(&self) -> (r: u64)
        ensures
            r == self@.avg_latency_ms,
    {
        self.avg_latency_ms
    }

    /// Returns the most recent public or operational error detail.
    pub fn last_error(&self) -> (r: Option<&str>)
        ensures
            match r {
                Some(s) => self@.last_error == Some(s@),
                None => self@.last_error is None,
            },
    {
        match &self.last_error {
            Some(s) => Some(s.as_str()),
            None => None,
        }
    }
}

/// Base telemetry snapshot for a hardened MCP runtime.
#[derive(Debug, PartialEq, Eq)]
pub struct TelemetrySnapshot {
    /// Process uptime in milliseconds.
    pub uptime_ms: u64,
    /// Current lifecycle state.
    pub state: LifecycleState,
    /// Active worker handshake state.
    pub worker_handshake: WorkerHandshakePhase,
    /// Current generation.
    pub generation: Generation,
    /// Consecutive failures since last clean success.
    pub consecutive_failures: u32,
    /// Total restart count.
    pub restart_count: u64,
    /// Aggregate totals.
    pub totals: TelemetryTotals,
    /// Per-method aggregates, in ascending method order.
    pub methods: Vec<MethodTelemetry>,
    /// Most recent fault, if any.
    pub last_fault: Option<Fault>,
}

/// Per-method counters kept by the ledger.
#[derive(Debug, PartialEq, Eq)]
struct MethodLedger {
    request_count: u64,
    in_flight: u64,
    success_count: u64,
    error_count: u64,
    response_error_count: u64,
    recovery_error_count: u64,
    recovery_fault_count: u64,
    retry_count: u64,
    latency_sample_count: u64,
    total_latency_ms: u64,
    last_latency_ms: Option<u64>,
    max_latency_ms: u64,
    last_error: Option<String>,
}

/// Mathematical model of per-method counters.
pub struct MethodLedgerView {
    pub request_count: u64,
    pub in_flight: u64,
    pub success_count: u64,
    pub error_count: u64,
    pub response_error_count: u64,
    pub recovery_error_count: u64,
    pub recovery_fault_count: u64,
    pub retry_count: u64,
    pub latency_sample_count: u64,
    pub total_latency_ms: u64,
    pub last_latency_ms: Option<u64>,
    pub max_latency_ms: u64,
    pub last_error: Option<Seq<char>>,
}

impl View for MethodLedger {
    type V = MethodLedgerView;

    closed spec fn view(&self) -> MethodLedgerView {
        MethodLedgerView {
            request_count: self.request_count,
            in_flight: self.in_flight,
            success_count: self.success_count,
            error_count: self.error_count,
            response_error_count: self.response_error_count,
            recovery_error_count: self.recovery_error_count,
            recovery_fault_count: self.recovery_fault_count,
            retry_count: self.retry_count,
            latency_sample_count: self.latency_sample_count,
            total_latency_ms: self.total_latency_ms,
            last_latency_ms: self.last_latency_ms,
            max_latency_ms: self.max_latency_ms,
            last_error: opt_text(self.last_error),
        }
    }
}

impl MethodLedger {
    fn empty() -> (r: Self)
        ensures
            r@ == empty_method(),
    {
        Self {
            request_count: 0,
            in_flight: 0,
            success_count: 0,
            error_count: 0,
            response_error_count: 0,
            recovery_error_count: 0,
            recovery_fault_count: 0,
            retry_count: 0,
            latency_sample_count: 0,
            total_latency_ms: 0,
            last_latency_ms: None,
            max_latency_ms: 0,
            last_error: None,
        }
    }

    fn duplicate(&self) -> (r: Self)
        ensures
            r@ == self@,
    {
        Self {
            request_count: self.request_count,
            in_flight: self.in_flight,
            success_count: self.success_count,
            error_count: self.error_count,
            response_error_count: self.response_error_count,
            recovery_error_count: self.recovery_error_count,
            recovery_fault_count: self.recovery_fault_count,
            retry_count: self.retry_count,
            latency_sample_count: self.latency_sample_count,
            total_latency_ms: self.total_latency_ms,
            last_latency_ms: self.last_latency_ms,
            max_latency_ms: self.max_latency_ms,
            last_error: match &self.last_error {
                Some(s) => Some(s.clone()),
                None => None,
            },
        }
    }
}

/// Counters of a method the ledger has not seen yet.
pub open spec fn empty_method() -> MethodLedgerView {
    MethodLedgerView {
        request_count: 0,
        in_flight: 0,
        success_count: 0,
        error_count: 0,
        response_error_count: 0,
        recovery_error_count: 0,
        recovery_fault_count: 0,
        retry_count: 0,
        latency_sample_count: 0,
        total_latency_ms: 0,
        last_latency_ms: None,
        max_latency_ms: 0,
        last_error: None,
    }
}

/// Session-scoped operational counters that survive worker churn and reexec.
///
/// Methods are kept in ascending order of their text.
#[derive(Debug, PartialEq, Eq)]
pub struct OperationalLedger {
    generation: Generation,
    consecutive_failures: u32,
    restart_count: u64,
    totals: TelemetryTotals,
    methods: Vec<(RpcMethod, MethodLedger)>,
    last_fault: Option<Fault>,
}

/// Mathematical model of the ledger.
pub struct LedgerView {
    pub generation: u64,
    pub consecutive_failures: u32,
    pub restart_count: u64,
    pub totals: TotalsView,
    pub methods: Seq<(Seq<char>, MethodLedgerView)>,
    pub last_fault: Option<FaultView>,
}

pub open spec fn opt_fault_view(o: Option<Fault>) -> Option<FaultView> {
    match o {
        Some(f) => Some(f@),
        None => None,
    }
}

pub open spec fn methods_view(v: Seq<(RpcMethod, MethodLedger)>) -> Seq<(Seq<char>, MethodLedgerView)> {
    v.map_values(|e: (RpcMethod, MethodLedger)| (e.0@, e.1@))
}

impl View for OperationalLedger {
    type V = LedgerView;

    closed spec fn view(&self) -> LedgerView {
        LedgerView {
            generation: self.generation.spec_value(),
            consecutive_failures: self.consecutive_failures,
            restart_count: self.restart_count,
            totals: self.totals@,
            methods: methods_view(self.methods@),
            last_fault: opt_fault_view(self.last_fault),
        }
    }
}

/// Rejected operational counter transition.
#[derive(Debug, Clone, PartialEq, Eq)]
pub enum OperationalMetricError {
    /// A fixed-width counter was exhausted.
    CounterExhausted(&'static str),
    /// A terminal outcome or replay named no in-flight invocation.
    NoInFlightInvocation,
    /// Worker generations must strictly advance on replacement.
    GenerationDidNotAdvance,
    /// A fault was attributed to a different active generation.
    FaultGenerationMismatch,
}

/// Mathematical model of a rejected counter transition.
pub enum MetricErrorView {
    CounterExhausted(Seq<char>),
    NoInFlightInvocation,
    GenerationDidNotAdvance,
    FaultGenerationMismatch,
}

impl View for OperationalMetricError {
    type V = MetricErrorView;

    open spec fn view(&self) -> MetricErrorView {
        match self {
            OperationalMetricError::CounterExhausted(name) => MetricErrorView::CounterExhausted(name@),
            OperationalMetricError::NoInFlightInvocation => MetricErrorView::NoInFlightInvocation,
            OperationalMetricError::GenerationDidNotAdvance => MetricErrorView::GenerationDidNotAdvance,
            OperationalMetricError::FaultGenerationMismatch => MetricErrorView::FaultGenerationMismatch,
        }
    }
}

impl OperationalMetricError {
    /// Human-facing description of the rejection.
    pub fn message(&self) -> (r: String)
        ensures
            r@ == metric_error_message(self@),
    {
        match self {
            OperationalMetricError::CounterExhausted(name) => {
                let mut text = owned("operational metric counter exhausted: ");
                text.append(name);
                text
            },
            OperationalMetricError::NoInFlightInvocation => owned("method has no in-flight invocation"),
            OperationalMetricError::GenerationDidNotAdvance => owned(
                "replacement worker generation must strictly increase",
            ),
            OperationalMetricError::FaultGenerationMismatch => owned(
                "fault generation does not match the active worker generation",
            ),
        }
    }
}

/// The description of each counter rejection.
pub open spec fn metric_error_message(e: MetricErrorView) -> Seq<char> {
    match e {
        MetricErrorView::CounterExhausted(name) => "operational metric counter exhausted: "@ + name,
        MetricErrorView::NoInFlightInvocation => "method has no in-flight invocation"@,
        MetricErrorView::GenerationDidNotAdvance => "replacement worker generation must strictly increase"@,
        MetricErrorView::FaultGenerationMismatch => "fault generation does not match the active worker generation"@,
    }
}

} // verus!

verus! {

/// `i` is the first slot keyed by method `m`.
pub open spec fn is_method_slot(ms: Seq<(Seq<char>, MethodLedgerView)>, m: Seq<char>, i: int) -> bool {
    &&& 0 <= i < ms.len()
    &&& ms[i].0 == m
    &&& forall|k: int| 0 <= k < i ==> (#[trigger] ms[k]).0 != m
}

/// The first slot keyed by method `m`, if any.
pub open spec fn method_slot(ms: Seq<(Seq<char>, MethodLedgerView)>, m: Seq<char>) -> Option<int> {
    if exists|i: int| is_method_slot(ms, m, i) {
        Some(choose|i: int| is_method_slot(ms, m, i))
    } else {
        None
    }
}

/// The slot of method `m` when it has an invocation in flight.
pub open spec fn live_slot(ms: Seq<(Seq<char>, MethodLedgerView)>, m: Seq<char>) -> Option<int> {
    match method_slot(ms, m) {
        Some(i) => if ms[i].1.in_flight > 0 {
            Some(i)
        } else {
            None
        },
        None => None,
    }
}

/// Inserts a method entry after every entry whose name does not sort after it.
pub open spec fn insert_method(
    ms: Seq<(Seq<char>, MethodLedgerView)>,
    e: (Seq<char>, MethodLedgerView),
) -> Seq<(Seq<char>, MethodLedgerView)>
    decreases ms.len(),
{
    if ms.len() == 0 {
        seq![e]
    } else if seq_lt(e.0, ms[0].0) {
        seq![e] + ms
    } else {
        seq![ms[0]] + insert_method(ms.drop_first(), e)
    }
}

/// A counter exhaustion rejection naming the counter.
pub open spec fn exhausted(name: Seq<char>) -> MetricErrorView {
    MetricErrorView::CounterExhausted(name)
}

/// Recording one terminal latency sample.
pub open spec fn spec_record_latency(e: MethodLedgerView, latency_ms: u64) -> Result<MethodLedgerView, MetricErrorView> {
    if e.latency_sample_count == u64::MAX {
        Err(exhausted("method latency samples"@))
    } else if e.total_latency_ms + latency_ms > u64::MAX {
        Err(exhausted("method total latency"@))
    } else {
        Ok(
            MethodLedgerView {
                latency_sample_count: (e.latency_sample_count + 1) as u64,
                total_latency_ms: (e.total_latency_ms + latency_ms) as u64,
                last_latency_ms: Some(latency_ms),
                max_latency_ms: if latency_ms > e.max_latency_ms {
                    latency_ms
                } else {
                    e.max_latency_ms
                },
                ..e
            },
        )
    }
}

/// The ledger with method slot `i` replaced.
pub open spec fn with_method(l: LedgerView, i: int, e: MethodLedgerView) -> LedgerView {
    LedgerView { methods: l.methods.update(i, (l.methods[i].0, e)), ..l }
}

/// Admission of one public request.
pub open spec fn spec_record_request(l: LedgerView, m: Seq<char>) -> Result<LedgerView, MetricErrorView> {
    let e = match method_slot(l.methods, m) {
        Some(i) => l.methods[i].1,
        None => empty_method(),
    };
    if e.request_count == u64::MAX {
        Err(exhausted("method requests"@))
    } else if e.in_flight == u64::MAX {
        Err(exhausted("method in flight"@))
    } else if l.totals.request_count == u64::MAX {
        Err(exhausted("total requests"@))
    } else {
        let e2 = MethodLedgerView {
            request_count: (e.request_count + 1) as u64,
            in_flight: (e.in_flight + 1) as u64,
            ..e
        };
        Ok(
            LedgerView {
                methods: match method_slot(l.methods, m) {
                    Some(i) => l.methods.update(i, (m, e2)),
                    None => insert_method(l.methods, (m, e2)),
                },
                totals: TotalsView { request_count: (l.totals.request_count + 1) as u64, ..l.totals },
                ..l
            },
        )
    }
}

/// One terminal successful response.
pub open spec fn spec_record_success(l: LedgerView, m: Seq<char>, latency_ms: u64) -> Result<LedgerView, MetricErrorView> {
    match live_slot(l.methods, m) {
        None => Err(MetricErrorView::NoInFlightInvocation),
        Some(i) => match spec_record_latency(l.methods[i].1, latency_ms) {
            Err(x) => Err(x),
            Ok(e) => if e.success_count == u64::MAX {
                Err(exhausted("method successes"@))
            } else if l.totals.success_count == u64::MAX {
                Err(exhausted("total successes"@))
            } else {
                Ok(
                    LedgerView {
                        totals: TotalsView { success_count: (l.totals.success_count + 1) as u64, ..l.totals },
                        consecutive_failures: 0,
                        ..with_method(
                            l,
                            i,
                            MethodLedgerView {
                                success_count: (e.success_count + 1) as u64,
                                in_flight: (e.in_flight - 1) as u64,
                                ..e
                            },
                        )
                    },
                )
            },
        },
    }
}

/// One terminal downstream response error.
pub open spec fn spec_record_response_error(
    l: LedgerView,
    m: Seq<char>,
    latency_ms: u64,
    detail: Seq<char>,
) -> Result<LedgerView, MetricErrorView> {
    match live_slot(l.methods, m) {
        None => Err(MetricErrorView::NoInFlightInvocation),
        Some(i) => match spec_record_latency(l.methods[i].1, latency_ms) {
            Err(x) => Err(x),
            Ok(e) => if e.response_error_count == u64::MAX {
                Err(exhausted("method response errors"@))
            } else if e.error_count == u64::MAX {
                Err(exhausted("method errors"@))
            } else if l.totals.response_error_count == u64::MAX {
                Err(exhausted("total response errors"@))
            } else if l.totals.error_count == u64::MAX {
                Err(exhausted("total errors"@))
            } else {
                Ok(
                    LedgerView {
                        totals: TotalsView {
                            response_error_count: (l.totals.response_error_count + 1) as u64,
                            error_count: (l.totals.error_count + 1) as u64,
                            ..l.totals
                        },
                        ..with_method(
                            l,
                            i,
                            MethodLedgerView {
                                response_error_count: (e.response_error_count + 1) as u64,
                                error_count: (e.error_count + 1) as u64,
                                in_flight: (e.in_flight - 1) as u64,
                                last_error: Some(detail),
                                ..e
                            },
                        )
                    },
                )
            },
        },
    }
}

/// A terminal public error caused by host recovery.
pub open spec fn spec_record_recovery_error(l: LedgerView, m: Seq<char>, detail: Seq<char>) -> Result<
    LedgerView,
    MetricErrorView,
> {
    match live_slot(l.methods, m) {
        None => Err(MetricErrorView::NoInFlightInvocation),
        Some(i) => {
            let e = l.methods[i].1;
            if e.recovery_error_count == u64::MAX {
                Err(exhausted("method recovery errors"@))
            } else if e.error_count == u64::MAX {
                Err(exhausted("method errors"@))
            } else if l.totals.recovery_error_count == u64::MAX {
                Err(exhausted("total recovery errors"@))
            } else if l.totals.error_count == u64::MAX {
                Err(exhausted("total errors"@))
            } else {
                Ok(
                    LedgerView {
                        totals: TotalsView {
                            recovery_error_count: (l.totals.recovery_error_count + 1) as u64,
                            error_count: (l.totals.error_count + 1) as u64,
                            ..l.totals
                        },
                        ..with_method(
                            l,
                            i,
                            MethodLedgerView {
                                recovery_error_count: (e.recovery_error_count + 1) as u64,
                                error_count: (e.error_count + 1) as u64,
                                in_flight: (e.in_flight - 1) as u64,
                                last_error: Some(detail),
                                ..e
                            },
                        )
                    },
                )
            }
        },
    }
}

/// A recovery-triggering fault, optionally attributed to a live method.
pub open spec fn spec_record_recovery_fault(l: LedgerView, m: Option<Seq<char>>, fault: FaultView) -> Result<
    LedgerView,
    MetricErrorView,
> {
    if fault.generation != l.generation {
        Err(MetricErrorView::FaultGenerationMismatch)
    } else {
        let attributed: Result<LedgerView, MetricErrorView> = match m {
            None => Ok(l),
            Some(method) => match live_slot(l.methods, method) {
                None => Err(MetricErrorView::NoInFlightInvocation),
                Some(i) => {
                    let e = l.methods[i].1;
                    if e.recovery_fault_count == u64::MAX {
                        Err(exhausted("method recovery faults"@))
                    } else {
                        Ok(
                            with_method(
                                l,
                                i,
                                MethodLedgerView {
                                    recovery_fault_count: (e.recovery_fault_count + 1) as u64,
                                    last_error: Some(fault.detail),
                                    ..e
                                },
                            ),
                        )
                    }
                },
            },
        };
        match attributed {
            Err(x) => Err(x),
            Ok(l2) => if l2.totals.recovery_fault_count == u64::MAX {
                Err(exhausted("total recovery faults"@))
            } else if l2.consecutive_failures == u32::MAX {
                Err(exhausted("consecutive failures"@))
            } else {
                Ok(
                    LedgerView {
                        totals: TotalsView {
                            recovery_fault_count: (l2.totals.recovery_fault_count + 1) as u64,
                            ..l2.totals
                        },
                        consecutive_failures: (l2.consecutive_failures + 1) as u32,
                        last_fault: Some(fault),
                        ..l2
                    },
                )
            },
        }
    }
}

/// One actual request redispatch.
pub open spec fn spec_record_replay(l: LedgerView, m: Seq<char>) -> Result<LedgerView, MetricErrorView> {
    match live_slot(l.methods, m) {
        None => Err(MetricErrorView::NoInFlightInvocation),
        Some(i) => {
            let e = l.methods[i].1;
            if e.retry_count == u64::MAX {
                Err(exhausted("method retries"@))
            } else if l.totals.retry_count == u64::MAX {
                Err(exhausted("total retries"@))
            } else {
                Ok(
                    LedgerView {
                        totals: TotalsView { retry_count: (l.totals.retry_count + 1) as u64, ..l.totals },
                        ..with_method(l, i, MethodLedgerView { retry_count: (e.retry_count + 1) as u64, ..e })
                    },
                )
            }
        },
    }
}

/// Advancing to a replacement worker.
pub open spec fn spec_replace_worker(l: LedgerView, generation: u64) -> Result<LedgerView, MetricErrorView> {
    if generation <= l.generation {
        Err(MetricErrorView::GenerationDidNotAdvance)
    } else if l.restart_count == u64::MAX {
        Err(exhausted("worker restarts"@))
    } else {
        Ok(LedgerView { restart_count: (l.restart_count + 1) as u64, generation, ..l })
    }
}

/// The public aggregate of one method's counters.
pub open spec fn method_telemetry(m: Seq<char>, e: MethodLedgerView) -> MethodTelemetryView {
    MethodTelemetryView {
        method: m,
        request_count: e.request_count,
        success_count: e.success_count,
        error_count: e.error_count,
        response_error_count: e.response_error_count,
        recovery_error_count: e.recovery_error_count,
        recovery_fault_count: e.recovery_fault_count,
        retry_count: e.retry_count,
        last_latency_ms: e.last_latency_ms,
        max_latency_ms: e.max_latency_ms,
        avg_latency_ms: if e.latency_sample_count == 0 {
            0
        } else {
            (e.total_latency_ms / e.latency_sample_count) as u64
        },
        last_error: e.last_error,
    }
}

/// A ledger result taken by its view.
pub open spec fn ledger_result(
    r: Result<(), OperationalMetricError>,
    before: LedgerView,
    after: LedgerView,
    expected: Result<LedgerView, MetricErrorView>,
) -> bool {
    match expected {
        Ok(l) => r is Ok && after == l,
        Err(x) => r matches Err(y) && y@ == x && after == before,
    }
}

} // verus!

verus! {

proof fn lemma_method_slot_unique(ms: Seq<(Seq<char>, MethodLedgerView)>, m: Seq<char>, i: int, j: int)
    requires
        is_method_slot(ms, m, i),
        is_method_slot(ms, m, j),
    ensures
        i == j,
{
    if i < j {
        assert(ms[i].0 != m);
    } else if j < i {
        assert(ms[j].0 != m);
    }
}

/// Finds the first slot keyed by `method`.
fn find_method(methods: &Vec<(RpcMethod, MethodLedger)>, method: &RpcMethod) -> (r: Option<usize>)
    ensures
        match r {
            Some(i) => method_slot(methods_view(methods@), method@) == Some(i as int) && i < methods@.len(),
            None => method_slot(methods_view(methods@), method@) is None,
        },
{
    let ghost ms = methods_view(methods@);
    let mut i: usize = 0;
    while i < methods.len()
        invariant
            i <= methods.len(),
            ms == methods_view(methods@),
            ms.len() == methods@.len(),
            forall|k: int| 0 <= k < i ==> (#[trigger] ms[k]).0 != method@,
        decreases methods.len() - i,
    {
        if methods[i].0.same_as(method) {
            proof {
                assert(is_method_slot(ms, method@, i as int));
                let j = choose|j: int| is_method_slot(ms, method@, j);
                lemma_method_slot_unique(ms, method@, i as int, j);
            }
            return Some(i);
        }
        i += 1;
    }
    proof {
        assert forall|j: int| !is_method_slot(ms, method@, j) by {
            if 0 <= j < ms.len() {
                assert(ms[j].0 != method@);
            }
        }
    }
    None
}

/// Finds the slot of `method` when it has an invocation in flight.
fn find_live_method(methods: &Vec<(RpcMethod, MethodLedger)>, method: &RpcMethod) -> (r: Option<usize>)
    ensures
        match r {
            Some(i) => live_slot(methods_view(methods@), method@) == Some(i as int) && i < methods@.len(),
            None => live_slot(methods_view(methods@), method@) is None,
        },
{
    match find_method(methods, method) {
        Some(i) => if methods[i].1.in_flight > 0 {
            Some(i)
        } else {
            None
        },
        None => None,
    }
}

proof fn lemma_insert_method_split(
    ms: Seq<(Seq<char>, MethodLedgerView)>,
    e: (Seq<char>, MethodLedgerView),
    p: int,
)
    requires
        0 <= p <= ms.len(),
        forall|k: int| 0 <= k < p ==> !seq_lt(e.0, (#[trigger] ms[k]).0),
        p < ms.len() ==> seq_lt(e.0, ms[p].0),
    ensures
        insert_method(ms, e) == ms.take(p) + seq![e] + ms.skip(p),
    decreases ms.len(),
{
    if ms.len() == 0 {
        assert(ms.take(p) + seq![e] + ms.skip(p) =~= seq![e]);
    } else if p == 0 {
        assert(ms.take(p) + seq![e] + ms.skip(p) =~= seq![e] + ms);
    } else {
        assert forall|k: int| 0 <= k < p - 1 implies !seq_lt(e.0, (#[trigger] ms.drop_first()[k]).0) by {
            assert(ms.drop_first()[k] == ms[k + 1]);
        }
        assert(!seq_lt(e.0, ms[0].0));
        lemma_insert_method_split(ms.drop_first(), e, p - 1);
        assert(seq![ms[0]] + (ms.drop_first().take(p - 1) + seq![e] + ms.drop_first().skip(p - 1)) =~= ms.take(p)
            + seq![e] + ms.skip(p));
    }
}

/// Inserts a method entry at its sorted position.
fn insert_method_entry(methods: &mut Vec<(RpcMethod, MethodLedger)>, method: RpcMethod, entry: MethodLedger)
    ensures
        methods_view(final(methods)@) == insert_method(methods_view(old(methods)@), (method@, entry@)),
{
    let ghost ms = methods_view(methods@);
    let mut p: usize = 0;
    while p < methods.len() && !text_lt(method.as_str(), methods[p].0.as_str())
        invariant
            p <= methods.len(),
            ms == methods_view(methods@),
            ms.len() == methods@.len(),
            forall|k: int| 0 <= k < p ==> !seq_lt(method@, (#[trigger] ms[k]).0),
        decreases methods.len() - p,
    {
        p += 1;
    }
    proof {
        lemma_insert_method_split(ms, (method@, entry@), p as int);
    }
    let ghost ev = (method@, entry@);
    methods.insert(p, (method, entry));
    assert(methods_view(methods@) =~= ms.take(p as int) + seq![ev] + ms.skip(p as int));
}

/// Replaces the counters of slot `i`.
fn set_method(methods: &mut Vec<(RpcMethod, MethodLedger)>, i: usize, entry: MethodLedger)
    requires
        i < old(methods)@.len(),
    ensures
        methods_view(final(methods)@) == methods_view(old(methods)@).update(
            i as int,
            (methods_view(old(methods)@)[i as int].0, entry@),
        ),
{
    let ghost before = methods_view(methods@);
    let (name, _) = methods.remove(i);
    let ghost ev = (name@, entry@);
    methods.insert(i, (name, entry));
    assert(methods_view(methods@) =~= before.update(i as int, ev));
}

fn checked_increment(value: u64, name: &'static str) -> (r: Result<u64, OperationalMetricError>)
    ensures
        value == u64::MAX ==> (r matches Err(e) && e@ == exhausted(name@)),
        value < u64::MAX ==> r == Ok::<u64, OperationalMetricError>((value + 1) as u64),
{
    if value == u64::MAX {
        Err(OperationalMetricError::CounterExhausted(name))
    } else {
        Ok(value + 1)
    }
}

fn record_latency(metrics: &MethodLedger, latency_ms: u64) -> (r: Result<MethodLedger, OperationalMetricError>)
    ensures
        match spec_record_latency(metrics@, latency_ms) {
            Ok(e) => r matches Ok(m) && m@ == e,
            Err(x) => r matches Err(y) && y@ == x,
        },
{
    let samples = match checked_increment(metrics.latency_sample_count, "method latency samples") {
        Ok(v) => v,
        Err(e) => return Err(e),
    };
    let total = match metrics.total_latency_ms.checked_add(latency_ms) {
        Some(v) => v,
        None => return Err(OperationalMetricError::CounterExhausted("method total latency")),
    };
    let mut next = metrics.duplicate();
    next.latency_sample_count = samples;
    next.total_latency_ms = total;
    next.last_latency_ms = Some(latency_ms);
    next.max_latency_ms = if latency_ms > metrics.max_latency_ms {
        latency_ms
    } else {
        metrics.max_latency_ms
    };
    Ok(next)
}

} // verus!

verus! {

/// The empty ledger of a fresh public session.
pub open spec fn new_ledger(generation: u64) -> LedgerView {
    LedgerView {
        generation,
        consecutive_failures: 0,
        restart_count: 0,
        totals: TotalsView {
            request_count: 0,
            success_count: 0,
            error_count: 0,
            response_error_count: 0,
            recovery_error_count: 0,
            recovery_fault_count: 0,
            retry_count: 0,
        },
        methods: Seq::empty(),
        last_fault: None,
    }
}

impl OperationalLedger {
    /// Creates empty public-session metrics for the active worker generation.
    pub fn new(generation: Generation) -> (r: Self)
        ensures
            r@ == new_ledger(generation.spec_value()),
    {
        let r = Self {
            generation,
            consecutive_failures: 0,
            restart_count: 0,
            totals: TelemetryTotals {
                request_count: 0,
                success_count: 0,
                error_count: 0,
                response_error_count: 0,
                recovery_error_count: 0,
                recovery_fault_count: 0,
                retry_count: 0,
            },
            methods: Vec::new(),
            last_fault: None,
        };
        assert(r@.methods =~= Seq::<(Seq<char>, MethodLedgerView)>::empty());
        r
    }

    /// Records admission of one public request.
    pub fn record_request(&mut self, method: RpcMethod) -> (r: Result<(), OperationalMetricError>)
        ensures
            ledger_result(r, old(self)@, final(self)@, spec_record_request(old(self)@, method@)),
    {
        let slot = find_method(&self.methods, &method);
        let entry = match slot {
            Some(i) => self.methods[i].1.duplicate(),
            None => MethodLedger::empty(),
        };
        let request_count = match checked_increment(entry.request_count, "method requests") {
            Ok(v) => v,
            Err(e) => return Err(e),
        };
        let in_flight = match checked_increment(entry.in_flight, "method in flight") {
            Ok(v) => v,
            Err(e) => return Err(e),
        };
        let total = match checked_increment(self.totals.request_count, "total requests") {
            Ok(v) => v,
            Err(e) => return Err(e),
        };
        let mut next = entry;
        next.request_count = request_count;
        next.in_flight = in_flight;
        match slot {
            Some(i) => set_method(&mut self.methods, i, next),
            None => insert_method_entry(&mut self.methods, method, next),
        }
        self.totals.request_count = total;
        Ok(())
    }

    /// Records one terminal successful public response.
    pub fn record_success(&mut self, method: &RpcMethod, latency_ms: u64) -> (r: Result<(), OperationalMetricError>)
        ensures
            ledger_result(r, old(self)@, final(self)@, spec_record_success(old(self)@, method@, latency_ms)),
    {
        let i = match find_live_method(&self.methods, method) {
            Some(i) => i,
            None => return Err(OperationalMetricError::NoInFlightInvocation),
        };
        let mut next = match record_latency(&self.methods[i].1, latency_ms) {
            Ok(m) => m,
            Err(e) => return Err(e),
        };
        let successes = match checked_increment(next.success_count, "method successes") {
            Ok(v) => v,
            Err(e) => return Err(e),
        };
        let total = match checked_increment(self.totals.success_count, "total successes") {
            Ok(v) => v,
            Err(e) => return Err(e),
        };
        next.success_count = successes;
        next.in_flight = next.in_flight - 1;
        set_method(&mut self.methods, i, next);
        self.totals.success_count = total;
        self.consecutive_failures = 0;
        Ok(())
    }

    /// Records one terminal downstream response error.
    pub fn record_response_error(&mut self, method: &RpcMethod, latency_ms: u64, detail: &str) -> (r: Result<
        (),
        OperationalMetricError,
    >)
        ensures
            ledger_result(
                r,
                old(self)@,
                final(self)@,
                spec_record_response_error(old(self)@, method@, latency_ms, detail@),
            ),
    {
        let i = match find_live_method(&self.methods, method) {
            Some(i) => i,
            None => return Err(OperationalMetricError::NoInFlightInvocation),
        };
        let mut next = match record_latency(&self.methods[i].1, latency_ms) {
            Ok(m) => m,
            Err(e) => return Err(e),
        };
        let response_errors = match checked_increment(next.response_error_count, "method response errors") {
            Ok(v) => v,
            Err(e) => return Err(e),
        };
        let errors = match checked_increment(next.error_count, "method errors") {
            Ok(v) => v,
            Err(e) => return Err(e),
        };
        let total_response_errors = match checked_increment(
            self.totals.response_error_count,
            "total response errors",
        ) {
            Ok(v) => v,
            Err(e) => return Err(e),
        };
        let total_errors = match checked_increment(self.totals.error_count, "total errors") {
            Ok(v) => v,
            Err(e) => return Err(e),
        };
        next.response_error_count = response_errors;
        next.error_count = errors;
        next.in_flight = next.in_flight - 1;
        next.last_error = Some(owned(detail));
        set_method(&mut self.methods, i, next);
        self.totals.response_error_count = total_response_errors;
        self.totals.error_count = total_errors;
        Ok(())
    }

    /// Records a terminal public error caused by host recovery.
    pub fn record_recovery_error(&mut self, method: &RpcMethod, detail: &str) -> (r: Result<
        (),
        OperationalMetricError,
    >)
        ensures
            ledger_result(r, old(self)@, final(self)@, spec_record_recovery_error(old(self)@, method@, detail@)),
    {
        let i = match find_live_method(&self.methods, method) {
            Some(i) => i,
            None => return Err(OperationalMetricError::NoInFlightInvocation),
        };
        let mut next = self.methods[i].1.duplicate();
        let recovery_errors = match checked_increment(next.recovery_error_count, "method recovery errors") {
            Ok(v) => v,
            Err(e) => return Err(e),
        };
        let errors = match checked_increment(next.error_count, "method errors") {
            Ok(v) => v,
            Err(e) => return Err(e),
        };
        let total_recovery_errors = match checked_increment(
            self.totals.recovery_error_count,
            "total recovery errors",
        ) {
            Ok(v) => v,
            Err(e) => return Err(e),
        };
        let total_errors = match checked_increment(self.totals.error_count, "total errors") {
            Ok(v) => v,
            Err(e) => return Err(e),
        };
        next.recovery_error_count = recovery_errors;
        next.error_count = errors;
        next.in_flight = next.in_flight - 1;
        next.last_error = Some(owned(detail));
        set_method(&mut self.methods, i, next);
        self.totals.recovery_error_count = total_recovery_errors;
        self.totals.error_count = total_errors;
        Ok(())
    }

    /// Records a recovery-triggering fault without pretending it was terminal.
    pub fn record_recovery_fault(&mut self, method: Option<&RpcMethod>, fault: Fault) -> (r: Result<
        (),
        OperationalMetricError,
    >)
        ensures
            ledger_result(
                r,
                old(self)@,
                final(self)@,
                spec_record_recovery_fault(
                    old(self)@,
                    match method {
                        Some(m) => Some(m@),
                        None => None,
                    },
                    fault@,
                ),
            ),
    {
        if fault.generation.get() != self.generation.get() {
            return Err(OperationalMetricError::FaultGenerationMismatch);
        }
        let mut update: Option<(usize, MethodLedger)> = None;
        if let Some(m) = method {
            let i = match find_live_method(&self.methods, m) {
                Some(i) => i,
                None => return Err(OperationalMetricError::NoInFlightInvocation),
            };
            let mut next = self.methods[i].1.duplicate();
            next.recovery_fault_count = match checked_increment(next.recovery_fault_count, "method recovery faults") {
                Ok(v) => v,
                Err(e) => return Err(e),
            };
            next.last_error = Some(fault.detail.clone());
            update = Some((i, next));
        }
        let total_faults = match checked_increment(self.totals.recovery_fault_count, "total recovery faults") {
            Ok(v) => v,
            Err(e) => return Err(e),
        };
        let failures = match self.consecutive_failures.checked_add(1) {
            Some(v) => v,
            None => return Err(OperationalMetricError::CounterExhausted("consecutive failures")),
        };
        if let Some((i, next)) = update {
            set_method(&mut self.methods, i, next);
        }
        self.totals.recovery_fault_count = total_faults;
        self.consecutive_failures = failures;
        self.last_fault = Some(fault);
        Ok(())
    }

    /// Records one actual request redispatch.
    pub fn record_replay(&mut self, method: &RpcMethod) -> (r: Result<(), OperationalMetricError>)
        ensures
            ledger_result(r, old(self)@, final(self)@, spec_record_replay(old(self)@, method@)),
    {
        let i = match find_live_method(&self.methods, method) {
            Some(i) => i,
            None => return Err(OperationalMetricError::NoInFlightInvocation),
        };
        let mut next = self.methods[i].1.duplicate();
        let retries = match checked_increment(next.retry_count, "method retries") {
            Ok(v) => v,
            Err(e) => return Err(e),
        };
        let total = match checked_increment(self.totals.retry_count, "total retries") {
            Ok(v) => v,
            Err(e) => return Err(e),
        };
        next.retry_count = retries;
        set_method(&mut self.methods, i, next);
        self.totals.retry_count = total;
        Ok(())
    }

    /// Advances to a replacement worker and preserves public-session totals.
    pub fn replace_worker(&mut self, generation: Generation) -> (r: Result<(), OperationalMetricError>)
        ensures
            ledger_result(r, old(self)@, final(self)@, spec_replace_worker(old(self)@, generation.spec_value())),
    {
        if generation.get() <= self.generation.get() {
            return Err(OperationalMetricError::GenerationDidNotAdvance);
        }
        let restarts = match checked_increment(self.restart_count, "worker restarts") {
            Ok(v) => v,
            Err(e) => return Err(e),
        };
        self.restart_count = restarts;
        self.generation = generation;
        Ok(())
    }

    /// Materializes the shared health view for the current host process.
    pub fn health_snapshot(
        &self,
        uptime_ms: u64,
        state: LifecycleState,
        worker_handshake: WorkerHandshakePhase,
        rollout: Option<RolloutState>,
    ) -> (r: HealthSnapshot)
        ensures
            r.state == state,
            r.worker_handshake == worker_handshake,
            r.generation.spec_value() == self@.generation,
            r.uptime_ms == uptime_ms,
            r.consecutive_failures == self@.consecutive_failures,
            r.restart_count == self@.restart_count,
            r.rollout == rollout,
            opt_fault_view(r.last_fault) == self@.last_fault,
    {
        HealthSnapshot {
            state,
            worker_handshake,
            generation: self.generation,
            uptime_ms,
            consecutive_failures: self.consecutive_failures,
            restart_count: self.restart_count,
            rollout,
            last_fault: match &self.last_fault {
                Some(f) => Some(f.duplicate()),
                None => None,
            },
        }
    }

    /// Materializes deterministic per-method session telemetry.
    pub fn telemetry_snapshot(
        &self,
        uptime_ms: u64,
        state: LifecycleState,
        worker_handshake: WorkerHandshakePhase,
    ) -> (r: TelemetrySnapshot)
        ensures
            r.uptime_ms == uptime_ms,
            r.state == state,
            r.worker_handshake == worker_handshake,
            r.generation.spec_value() == self@.generation,
            r.consecutive_failures == self@.consecutive_failures,
            r.restart_count == self@.restart_count,
            r.totals@ == self@.totals,
            r.methods@.len() == self@.methods.len(),
            forall|i: int|
                0 <= i < r.methods@.len() ==> (#[trigger] r.methods@[i])@ == method_telemetry(
                    self@.methods[i].0,
                    self@.methods[i].1,
                ),
            opt_fault_view(r.last_fault) == self@.last_fault,
    {
        let ghost ms = self@.methods;
        let mut methods: Vec<MethodTelemetry> = Vec::new();
        let mut i: usize = 0;
        while i < self.methods.len()
            invariant
                i <= self.methods.len(),
                ms == self@.methods,
                ms.len() == self.methods@.len(),
                methods@.len() == i,
                forall|k: int| 0 <= k < i ==> (#[trigger] methods@[k])@ == method_telemetry(ms[k].0, ms[k].1),
            decreases self.methods.len() - i,
        {
            let entry = &self.methods[i];
            let m = &entry.1;
            let avg = if m.latency_sample_count == 0 {
                0
            } else {
                m.total_latency_ms / m.latency_sample_count
            };
            methods.push(
                MethodTelemetry {
                    method: entry.0.duplicate(),
                    request_count: m.request_count,
                    success_count: m.success_count,
                    error_count: m.error_count,
                    response_error_count: m.response_error_count,
                    recovery_error_count: m.recovery_error_count,
                    recovery_fault_count: m.recovery_fault_count,
                    retry_count: m.retry_count,
                    last_latency_ms: m.last_latency_ms,
                    max_latency_ms: m.max_latency_ms,
                    avg_latency_ms: avg,
                    last_error: match &m.last_error {
                        Some(s) => Some(s.clone()),
                        None => None,
                    },
                },
            );
            assert(methods@[i as int]@ == method_telemetry(ms[i as int].0, ms[i as int].1));
            i += 1;
        }
        TelemetrySnapshot {
            uptime_ms,
            state,
            worker_handshake,
            generation: self.generation,
            consecutive_failures: self.consecutive_failures,
            restart_count: self.restart_count,
            totals: self.totals,
            methods,
            last_fault: match &self.last_fault {
                Some(f) => Some(f.duplicate()),
                None => None,
            },
        }
    }
}

} // verus!

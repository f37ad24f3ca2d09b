//! Replay contracts and the recovery decision table for request surfaces.

use vstd::prelude::*;

verus! {

/// What the host knows about one invocation's execution.
#[derive(Debug, Clone, Copy, PartialEq, Eq, Structural)]
pub enum ExecutionKnowledge {
    /// The invocation definitely has not reached a worker.
    NotDispatched,
    /// The invocation reached a worker and no terminal outcome has arrived.
    InFlight,
    /// One terminal outcome has arrived.
    Completed,
    /// The worker was lost after dispatch, so effects may have happened.
    OutcomeUnknown,
}

/// Replay legality for a request surface.
#[derive(Debug, Clone, Copy, PartialEq, Eq, Structural)]
pub enum ReplayContract {
    /// Repeated execution converges on the same observable outcome.
    Convergent,
    /// Replay is only legal after a probe or equivalent proof of safety.
    ProbeRequired,
    /// Replay is never allowed automatically.
    NeverReplay,
}

/// Consumer evidence resolving a `ProbeRequired` ambiguous outcome.
#[derive(Debug, Clone, Copy, PartialEq, Eq, Structural)]
pub enum ProbeResolution {
    /// The prior attempt is known to have completed and must not run again.
    AlreadyCompleted,
    /// Domain evidence proves another dispatch is safe.
    SafeToReplay,
}

/// Total request disposition produced by the recovery law.
#[derive(Debug, Clone, Copy, PartialEq, Eq, Structural)]
pub enum RequestDisposition {
    /// Dispatch a request that definitely never reached a worker.
    FirstDispatch,
    /// Await the terminal result of the active attempt.
    AwaitTerminal,
    /// Preserve an already observed terminal result.
    Completed,
    /// Redispatch an invocation whose prior outcome is unknown.
    Replay,
    /// Keep the invocation held until the consumer supplies probe evidence.
    HoldForProbe,
    /// Complete without redispatch because a probe proved prior completion.
    CompleteFromProbe,
    /// Reject because execution may have happened and replay is forbidden.
    RejectAmbiguousOutcome,
    /// Reject because no replay attempt remains.
    RejectReplayExhausted,
    /// Reject contradictory or irrelevant probe evidence.
    RejectUnexpectedProbeResolution,
}

/// Invalid application of a request disposition to execution knowledge.
#[derive(Debug, Clone, Copy, PartialEq, Eq, Structural)]
pub struct ExecutionTransitionError {
    pub knowledge: ExecutionKnowledge,
    pub disposition: RequestDisposition,
}

/// Replay attempt accounting for one invocation.
#[derive(Debug, Clone, Copy, PartialEq, Eq, Structural)]
pub struct ReplayAllowance {
    attempts_used: u8,
    max_attempts: u8,
}

/// Knowledge after the active worker is lost.
pub open spec fn spec_after_worker_loss(k: ExecutionKnowledge) -> ExecutionKnowledge {
    if k == ExecutionKnowledge::InFlight {
        ExecutionKnowledge::OutcomeUnknown
    } else {
        k
    }
}

/// A dispatch is lawful exactly for a first dispatch of an undispatched
/// invocation or a replay of an invocation whose outcome is unknown.
pub open spec fn dispatch_is_lawful(k: ExecutionKnowledge, d: RequestDisposition) -> bool {
    ||| (k == ExecutionKnowledge::NotDispatched && d == RequestDisposition::FirstDispatch)
    ||| (k == ExecutionKnowledge::OutcomeUnknown && d == RequestDisposition::Replay)
}

impl ExecutionKnowledge {
    /// Applies loss of the active worker without inventing execution evidence.
    pub fn after_worker_loss(self) -> (r: Self)
        ensures
            r == spec_after_worker_loss(self),
    {
        match self {
            Self::InFlight => Self::OutcomeUnknown,
            Self::NotDispatched | Self::Completed | Self::OutcomeUnknown => self,
        }
    }

    /// Applies a dispatch authorized by the recovery decision table.
    pub fn after_dispatch(self, disposition: RequestDisposition) -> (r: Result<Self, ExecutionTransitionError>)
        ensures
            dispatch_is_lawful(self, disposition) <==> r is Ok,
            r matches Ok(k) ==> k == ExecutionKnowledge::InFlight,
            r matches Err(e) ==> e == (ExecutionTransitionError { knowledge: self, disposition }),
    {
        match (self, disposition) {
            (Self::NotDispatched, RequestDisposition::FirstDispatch)
            | (Self::OutcomeUnknown, RequestDisposition::Replay) => Ok(Self::InFlight),
            _ => Err(ExecutionTransitionError { knowledge: self, disposition }),
        }
    }

    /// Records one observed terminal worker outcome.
    pub fn after_terminal_outcome(self) -> (r: Result<Self, ExecutionTransitionError>)
        ensures
            (self == ExecutionKnowledge::InFlight || self == ExecutionKnowledge::OutcomeUnknown)
                <==> r is Ok,
            r matches Ok(k) ==> k == ExecutionKnowledge::Completed,
            r matches Err(e) ==> e == (ExecutionTransitionError {
                knowledge: self,
                disposition: RequestDisposition::Completed,
            }),
    {
        match self {
            Self::InFlight | Self::OutcomeUnknown => Ok(Self::Completed),
            _ => Err(ExecutionTransitionError {
                knowledge: self,
                disposition: RequestDisposition::Completed,
            }),
        }
    }

    /// Applies a consumer probe that proves the prior attempt completed.
    pub fn after_completed_probe(self) -> (r: Result<Self, ExecutionTransitionError>)
        ensures
            (self == ExecutionKnowledge::OutcomeUnknown) <==> r is Ok,
            r matches Ok(k) ==> k == ExecutionKnowledge::Completed,
            r matches Err(e) ==> e == (ExecutionTransitionError {
                knowledge: self,
                disposition: RequestDisposition::CompleteFromProbe,
            }),
    {
        match self {
            Self::OutcomeUnknown => Ok(Self::Completed),
            _ => Err(ExecutionTransitionError {
                knowledge: self,
                disposition: RequestDisposition::CompleteFromProbe,
            }),
        }
    }
}

impl ReplayAllowance {
    /// Attempts actually dispatched so far.
    pub closed spec fn used(self) -> u8 {
        self.attempts_used
    }

    /// Configured attempt ceiling.
    pub closed spec fn ceiling(self) -> u8 {
        self.max_attempts
    }

    /// The next attempt number, if one remains within the ceiling.
    pub open spec fn spec_next_attempt(self) -> Option<u8> {
        if self.used() + 1 <= self.ceiling() {
            Some((self.used() + 1) as u8)
        } else {
            None
        }
    }

    /// Constructs replay accounting from attempts actually dispatched.
    pub fn new(attempts_used: u8, max_attempts: u8) -> (r: Self)
        ensures
            r == spec_allowance(attempts_used, max_attempts),
            r.used() == attempts_used,
            r.ceiling() == max_attempts,
    {
        Self { attempts_used, max_attempts }
    }

    /// Returns attempts actually dispatched so far.
    pub fn attempts_used(self) -> (r: u8)
        ensures
            r == self.used(),
    {
        self.attempts_used
    }

    /// Returns the configured attempt ceiling.
    pub fn max_attempts(self) -> (r: u8)
        ensures
            r == self.ceiling(),
    {
        self.max_attempts
    }

    /// Returns the next attempt number without consuming it.
    pub fn next_attempt(self) -> (r: Option<u8>)
        ensures
            r == self.spec_next_attempt(),
    {
        match self.attempts_used.checked_add(1) {
            Some(next) if next <= self.max_attempts => Some(next),
            Some(_) | None => None,
        }
    }
}

/// Replay accounting with `used` attempts dispatched under a ceiling.
pub closed spec fn spec_allowance(used: u8, ceiling: u8) -> ReplayAllowance {
    ReplayAllowance { attempts_used: used, max_attempts: ceiling }
}

/// The accounting built from `used` and `ceiling` reports exactly them.
pub proof fn lemma_spec_allowance(used: u8, ceiling: u8)
    ensures
        spec_allowance(used, ceiling).used() == used,
        spec_allowance(used, ceiling).ceiling() == ceiling,
{
}

/// Replay when an attempt remains, otherwise the exhausted rejection.
pub open spec fn spec_replay_or_exhausted(allowance: ReplayAllowance) -> RequestDisposition {
    if allowance.spec_next_attempt() is Some {
        RequestDisposition::Replay
    } else {
        RequestDisposition::RejectReplayExhausted
    }
}

/// The recovery decision table: execution knowledge, replay contract, optional
/// probe evidence and remaining budget determine one disposition.
pub open spec fn spec_request_disposition(
    knowledge: ExecutionKnowledge,
    contract: ReplayContract,
    probe_resolution: Option<ProbeResolution>,
    allowance: ReplayAllowance,
) -> RequestDisposition {
    if probe_resolution is Some && !(knowledge == ExecutionKnowledge::OutcomeUnknown
        && contract == ReplayContract::ProbeRequired) {
        RequestDisposition::RejectUnexpectedProbeResolution
    } else {
        match knowledge {
            ExecutionKnowledge::NotDispatched => RequestDisposition::FirstDispatch,
            ExecutionKnowledge::InFlight => RequestDisposition::AwaitTerminal,
            ExecutionKnowledge::Completed => RequestDisposition::Completed,
            ExecutionKnowledge::OutcomeUnknown => match contract {
                ReplayContract::Convergent => spec_replay_or_exhausted(allowance),
                ReplayContract::ProbeRequired => match probe_resolution {
                    None => RequestDisposition::HoldForProbe,
                    Some(ProbeResolution::AlreadyCompleted) => RequestDisposition::CompleteFromProbe,
                    Some(ProbeResolution::SafeToReplay) => spec_replay_or_exhausted(allowance),
                },
                ReplayContract::NeverReplay => RequestDisposition::RejectAmbiguousOutcome,
            },
        }
    }
}

fn replay_or_exhausted(allowance: ReplayAllowance) -> (r: RequestDisposition)
    ensures
        r == spec_replay_or_exhausted(allowance),
{
    if allowance.next_attempt().is_some() {
        RequestDisposition::Replay
    } else {
        RequestDisposition::RejectReplayExhausted
    }
}

/// Computes the request disposition independently of process recovery policy.
pub fn request_disposition(
    knowledge: ExecutionKnowledge,
    contract: ReplayContract,
    probe_resolution: Option<ProbeResolution>,
    allowance: ReplayAllowance,
) -> (r: RequestDisposition)
    ensures
        r == spec_request_disposition(knowledge, contract, probe_resolution, allowance),
{
    if probe_resolution.is_some() && !(matches!(knowledge, ExecutionKnowledge::OutcomeUnknown)
        && matches!(contract, ReplayContract::ProbeRequired)) {
        return RequestDisposition::RejectUnexpectedProbeResolution;
    }
    match knowledge {
        ExecutionKnowledge::NotDispatched => RequestDisposition::FirstDispatch,
        ExecutionKnowledge::InFlight => RequestDisposition::AwaitTerminal,
        ExecutionKnowledge::Completed => RequestDisposition::Completed,
        ExecutionKnowledge::OutcomeUnknown => match contract {
            ReplayContract::Convergent => replay_or_exhausted(allowance),
            ReplayContract::ProbeRequired => match probe_resolution {
                None => RequestDisposition::HoldForProbe,
                Some(ProbeResolution::AlreadyCompleted) => RequestDisposition::CompleteFromProbe,
                Some(ProbeResolution::SafeToReplay) => replay_or_exhausted(allowance),
            },
            ReplayContract::NeverReplay => RequestDisposition::RejectAmbiguousOutcome,
        },
    }
}

/// No unauthorized replay: the decision table authorizes a redispatch only for
/// an invocation whose outcome is unknown, whose contract is convergent or
/// whose probe evidence proved replay safe, and whose budget still has an attempt.
pub proof fn lemma_replay_requires_authority(
    knowledge: ExecutionKnowledge,
    contract: ReplayContract,
    probe_resolution: Option<ProbeResolution>,
    allowance: ReplayAllowance,
)
    ensures
        spec_request_disposition(knowledge, contract, probe_resolution, allowance)
            == RequestDisposition::Replay ==> {
            &&& knowledge == ExecutionKnowledge::OutcomeUnknown
            &&& (contract == ReplayContract::Convergent && probe_resolution is None)
                || (contract == ReplayContract::ProbeRequired
                    && probe_resolution == Some(ProbeResolution::SafeToReplay))
            &&& allowance.spec_next_attempt() is Some
        },
{
}

/// A never-replay invocation with an unknown outcome is always rejected as
/// ambiguous, whatever budget remains, and is never redispatched.
pub proof fn lemma_never_replay_is_terminal(allowance: ReplayAllowance)
    ensures
        spec_request_disposition(
            ExecutionKnowledge::OutcomeUnknown,
            ReplayContract::NeverReplay,
            None,
            allowance,
        ) == RequestDisposition::RejectAmbiguousOutcome,
{
}

/// Probe evidence is accepted only for a probe-required invocation whose
/// outcome is unknown; any other evidence is rejected explicitly.
pub proof fn lemma_probe_evidence_is_scoped(
    knowledge: ExecutionKnowledge,
    contract: ReplayContract,
    resolution: ProbeResolution,
    allowance: ReplayAllowance,
)
    ensures
        (spec_request_disposition(knowledge, contract, Some(resolution), allowance)
            == RequestDisposition::RejectUnexpectedProbeResolution)
            <==> !(knowledge == ExecutionKnowledge::OutcomeUnknown
                && contract == ReplayContract::ProbeRequired),
{
}

/// Steady execution states ignore the replay contract and the budget.
pub proof fn lemma_steady_states_ignore_contract(
    contract: ReplayContract,
    allowance: ReplayAllowance,
)
    ensures
        spec_request_disposition(ExecutionKnowledge::NotDispatched, contract, None, allowance)
            == RequestDisposition::FirstDispatch,
        spec_request_disposition(ExecutionKnowledge::InFlight, contract, None, allowance)
            == RequestDisposition::AwaitTerminal,
        spec_request_disposition(ExecutionKnowledge::Completed, contract, None, allowance)
            == RequestDisposition::Completed,
{
}

/// Worker loss never invents evidence: it turns only an in-flight invocation
/// into an unknown outcome and never makes anything dispatchable for the first time.
pub proof fn lemma_worker_loss_invents_no_evidence(k: ExecutionKnowledge)
    ensures
        spec_after_worker_loss(k) != ExecutionKnowledge::NotDispatched
            || k == ExecutionKnowledge::NotDispatched,
        spec_after_worker_loss(k) != ExecutionKnowledge::Completed
            || k == ExecutionKnowledge::Completed,
        spec_after_worker_loss(spec_after_worker_loss(k)) == spec_after_worker_loss(k),
{
}

} // verus!

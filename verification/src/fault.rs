//! Fault taxonomy and advisory recovery hints.

use vstd::prelude::*;
use crate::text::{chars_of, is_ascii_digit, is_ascii_lowercase, owned};
use crate::types::{Generation, InvariantViolation};

verus! {

/// Broad operational fault class.
#[derive(Debug, Clone, Copy, PartialEq, Eq, Structural)]
pub enum FaultClass {
    /// Underlying transport or I/O failure.
    Transport,
    /// Process startup, liveness, or exit failure.
    Process,
    /// Protocol or framing failure.
    Protocol,
    /// Timeout or deadline failure.
    Timeout,
    /// Downstream service returned an error.
    Downstream,
    /// Resource budget or queue exhaustion.
    Resource,
    /// Replay or recovery budget exhaustion.
    Replay,
    /// Rollout or binary handoff failure.
    Rollout,
    /// Internal invariant breach.
    Invariant,
}

/// Recovery directive for an operational fault.
#[derive(Debug, Clone, Copy, PartialEq, Eq, Structural)]
pub enum RecoveryDirective {
    /// Retry on the current live process.
    RetryInPlace,
    /// Restart or roll forward, then replay if the replay contract allows it.
    RestartAndReplay,
    /// Abort the request and surface the failure.
    AbortRequest,
}

/// Advisory process-recovery hint carried by a fault.
///
/// A hint never confers request replay authority: replay remains governed by
/// the invocation's replay contract and execution knowledge.
#[derive(Debug, Clone, Copy, PartialEq, Eq, Structural)]
pub enum RecoveryHint {
    /// Continue on the current live process.
    RetryInPlace,
    /// Replace the disposable worker.
    ReplaceWorker,
    /// Roll forward to a newer release.
    RollForward,
    /// Abort the host.
    AbortHost,
}

/// A typed but extensible fault code: non-empty lowercase ASCII snake_case.
#[derive(Debug, PartialEq, Eq, Hash)]
pub struct FaultCode {
    code: String,
}

impl View for FaultCode {
    type V = Seq<char>;

    closed spec fn view(&self) -> Seq<char> {
        self.code@
    }
}

/// Whether a character may appear in a fault code.
pub open spec fn is_fault_code_char(c: char) -> bool {
    is_ascii_lowercase(c) || c == '_' || is_ascii_digit(c)
}

/// Whether a text is a valid fault code.
pub open spec fn is_fault_code(code: Seq<char>) -> bool {
    code.len() > 0 && forall|i: int| 0 <= i < code.len() ==> is_fault_code_char(#[trigger] code[i])
}

impl FaultCode {
    /// Constructs a new fault code.
    ///
    /// The code must be non-empty and use lowercase ASCII with underscores.
    pub fn try_new(code: &str) -> (r: Result<Self, InvariantViolation>)
        ensures
            is_fault_code(code@) <==> r is Ok,
            r matches Ok(c) ==> c@ == code@,
    {
        let cs = chars_of(code);
        let mut valid = cs.len() > 0;
        let mut i: usize = 0;
        while i < cs.len()
            invariant
                i <= cs.len(),
                cs@ == code@,
                valid == (cs@.len() > 0 && forall|k: int| 0 <= k < i ==> is_fault_code_char(#[trigger] cs@[k])),
            decreases cs.len() - i,
        {
            let c = cs[i];
            if !(('a' <= c && c <= 'z') || c == '_' || ('0' <= c && c <= '9')) {
                valid = false;
            }
            i += 1;
        }
        if !valid {
            return Err(InvariantViolation::new("fault code must be non-empty lowercase ascii snake_case"));
        }
        Ok(Self { code: owned(code) })
    }

    /// Returns the code text.
    pub fn as_str(&self) -> (r: &str)
        ensures
            r@ == self@,
    {
        self.code.as_str()
    }

    /// A copy of the same code.
    pub fn duplicate(&self) -> (r: Self)
        ensures
            r@ == self@,
    {
        Self { code: self.code.clone() }
    }
}

impl Clone for FaultCode {
    fn clone(&self) -> (r: Self)
        ensures
            r@ == self@,
    {
        self.duplicate()
    }
}

/// Structured operational fault.
#[derive(Debug, PartialEq, Eq)]
pub struct Fault {
    /// Generation in which the fault happened.
    pub generation: Generation,
    /// Broad fault class.
    pub class: FaultClass,
    /// Consumer-defined fine-grained code.
    pub code: FaultCode,
    /// Advisory recovery hint, if any.
    pub hint: Option<RecoveryHint>,
    /// Human-facing detail.
    pub detail: String,
}

/// Mathematical model of a fault.
pub struct FaultView {
    pub generation: u64,
    pub class: FaultClass,
    pub code: Seq<char>,
    pub hint: Option<RecoveryHint>,
    pub detail: Seq<char>,
}

impl View for Fault {
    type V = FaultView;

    open spec fn view(&self) -> FaultView {
        FaultView {
            generation: self.generation.spec_value(),
            class: self.class,
            code: self.code@,
            hint: self.hint,
            detail: self.detail@,
        }
    }
}

impl Fault {
    /// Constructs a new fault.
    pub fn new(
        generation: Generation,
        class: FaultClass,
        code: FaultCode,
        hint: Option<RecoveryHint>,
        detail: &str,
    ) -> (r: Self)
        ensures
            r@ == (FaultView {
                generation: generation.spec_value(),
                class,
                code: code@,
                hint,
                detail: detail@,
            }),
    {
        Self { generation, class, code, hint, detail: owned(detail) }
    }

    /// A copy of the same fault.
    pub fn duplicate(&self) -> (r: Self)
        ensures
            r@ == self@,
    {
        Self {
            generation: self.generation,
            class: self.class,
            code: self.code.duplicate(),
            hint: self.hint,
            detail: self.detail.clone(),
        }
    }
}

impl Clone for Fault {
    fn clone(&self) -> (r: Self)
        ensures
            r@ == self@,
    {
        self.duplicate()
    }
}

} // verus!

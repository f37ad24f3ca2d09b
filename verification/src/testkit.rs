//! Test helpers for consumers: a deterministic fake host boundary and projection doctrine checks.

use vstd::prelude::*;
use crate::host::{
    CompletedPendingRequest, DispatchQueueOutcome, DispatchView, HostRejection, HostSessionKernel, KernelView,
    ProbeResolutionOutcome, ReplayBudget, ReplayRequeueOutcome, completed_result_view, dispatch_result_view,
    frames_view, probe_result_view, spec_begin_request_dispatch, spec_complete_response, spec_pop_next_dispatch,
    spec_requeue_pending_for_replay, spec_resolve_probe,
};
use crate::jsonrpc::{FramedMessage, RequestId};
use crate::host::frame_request_id;
use crate::replay::{ProbeResolution, ReplayContract};
use crate::projection::{ProjectionError, ToolProjection};
use crate::render::DetailLevel;
use crate::text::owned;
use crate::json::JsonValue;

verus! {

/// Deterministic fake host boundary for recovery conformance tests.
#[derive(Debug)]
pub struct ChurnHarness {
    kernel: HostSessionKernel,
    dispatched: Vec<FramedMessage>,
}

impl ChurnHarness {
    /// The kernel's state.
    pub closed spec fn spec_kernel(&self) -> KernelView {
        self.kernel@
    }

    /// Every frame that crossed the fake worker dispatch boundary, in order.
    pub closed spec fn spec_dispatched(&self) -> Seq<crate::jsonrpc::FrameView> {
        frames_view(self.dispatched@)
    }

    /// Creates a cold fake host.
    pub fn cold() -> (r: Self)
        ensures
            r.spec_kernel() == crate::host::cold_kernel(),
            r.spec_dispatched() == Seq::<crate::jsonrpc::FrameView>::empty(),
    {
        let r = Self { kernel: HostSessionKernel::cold(), dispatched: Vec::new() };
        assert(frames_view(r.dispatched@) =~= Seq::<crate::jsonrpc::FrameView>::empty());
        r
    }

    /// Returns the underlying kernel for precise assertions.
    pub fn kernel(&self) -> (r: &HostSessionKernel)
        ensures
            r@ == self.spec_kernel(),
    {
        &self.kernel
    }

    /// Returns every frame that crossed the fake worker dispatch boundary.
    pub fn dispatched(&self) -> (r: &[FramedMessage])
        ensures
            frames_view(r@) == self.spec_dispatched(),
    {
        self.dispatched.as_slice()
    }

    /// Begins and records one first worker dispatch.
    pub fn dispatch_first(
        &mut self,
        frame: &FramedMessage,
        contract: ReplayContract,
        pending_capacity: usize,
    ) -> (r: Result<RequestId, HostRejection>)
        ensures
            match spec_begin_request_dispatch(old(self).spec_kernel(), frame@, contract, pending_capacity) {
                Ok(k) => r matches Ok(id) && final(self).spec_kernel() == k && frame_request_id(frame@) == Some(id@)
                    && final(self).spec_dispatched() == old(self).spec_dispatched().push(frame@),
                Err(e) => r == Err::<RequestId, HostRejection>(e) && final(self).spec_kernel() == old(self).spec_kernel()
                    && final(self).spec_dispatched() == old(self).spec_dispatched(),
            },
    {
        let id = self.kernel.begin_request_dispatch(frame, contract, pending_capacity)?;
        let ghost before = self.dispatched@;
        self.dispatched.push(frame.duplicate());
        assert(frames_view(self.dispatched@) =~= frames_view(before).push(frame@));
        Ok(id)
    }

    /// Applies worker loss and rebuilds the recovery queue.
    pub fn kill_worker(&mut self, budget: ReplayBudget) -> (r: ReplayRequeueOutcome)
        ensures
            final(self).spec_kernel() == spec_requeue_pending_for_replay(old(self).spec_kernel(), budget).0,
            r@ == spec_requeue_pending_for_replay(old(self).spec_kernel(), budget).1,
            final(self).spec_dispatched() == old(self).spec_dispatched(),
    {
        self.kernel.requeue_pending_for_replay(budget)
    }

    /// Takes one recovery-ordered dispatch and records actual redispatches.
    pub fn dispatch_next(&mut self) -> (r: Result<DispatchQueueOutcome, HostRejection>)
        ensures
            dispatch_result_view(r) == spec_pop_next_dispatch(old(self).spec_kernel()).0,
            final(self).spec_kernel() == spec_pop_next_dispatch(old(self).spec_kernel()).1,
            match spec_pop_next_dispatch(old(self).spec_kernel()).0 {
                Ok(DispatchView::Replay(f)) => final(self).spec_dispatched() == old(self).spec_dispatched().push(f),
                _ => final(self).spec_dispatched() == old(self).spec_dispatched(),
            },
    {
        let outcome = self.kernel.pop_next_dispatch()?;
        if let DispatchQueueOutcome::Replay(frame) = &outcome {
            let ghost before = self.dispatched@;
            self.dispatched.push(frame.duplicate());
            assert(frames_view(self.dispatched@) =~= frames_view(before).push(frame@));
        }
        Ok(outcome)
    }

    /// Supplies explicit evidence for one held probe-required invocation.
    pub fn resolve_probe(
        &mut self,
        request_id: &RequestId,
        resolution: ProbeResolution,
        max_attempts: u8,
    ) -> (r: Result<ProbeResolutionOutcome, HostRejection>)
        ensures
            probe_result_view(r) == spec_resolve_probe(old(self).spec_kernel(), request_id@, resolution, max_attempts).0,
            final(self).spec_kernel() == spec_resolve_probe(old(self).spec_kernel(), request_id@, resolution, max_attempts).1,
            final(self).spec_dispatched() == old(self).spec_dispatched(),
    {
        self.kernel.resolve_probe(request_id, resolution, max_attempts)
    }

    /// Records one terminal public response.
    pub fn complete(&mut self, response: &FramedMessage) -> (r: Result<CompletedPendingRequest, HostRejection>)
        ensures
            match spec_complete_response(old(self).spec_kernel(), response@) {
                Ok((k, p)) => final(self).spec_kernel() == k && completed_result_view(r) == Ok::<
                    (crate::host::PendingView, u8),
                    HostRejection,
                >((p, p.attempts)),
                Err(e) => r matches Err(f) && f == e && final(self).spec_kernel() == old(self).spec_kernel(),
            },
            final(self).spec_dispatched() == old(self).spec_dispatched(),
    {
        self.kernel.complete_response(response)
    }
}

/// Assertion failure for projection doctrine checks.
#[derive(Debug, Clone, PartialEq, Eq)]
pub struct ProjectionAssertion {
    path: String,
    message: String,
}

impl ProjectionAssertion {
    /// Where the doctrine failed.
    pub closed spec fn spec_path(&self) -> Seq<char> {
        self.path@
    }

    /// What failed.
    pub closed spec fn spec_message(&self) -> Seq<char> {
        self.message@
    }

    fn new(path: &str, message: String) -> (r: Self)
        ensures
            r.spec_path() == path@,
            r.spec_message() == message@,
    {
        Self { path: owned(path), message }
    }

    /// Where the doctrine failed.
    pub fn path(&self) -> (r: &str)
        ensures
            r@ == self.spec_path(),
    {
        self.path.as_str()
    }

    /// What failed.
    pub fn message(&self) -> (r: &str)
        ensures
            r@ == self.spec_message(),
    {
        self.message.as_str()
    }

    /// The failure as `path: message`.
    pub fn text(&self) -> (r: String)
        ensures
            r@ == self.spec_path() + ": "@ + self.spec_message(),
    {
        let mut out: Vec<char> = Vec::new();
        crate::text::extend_str(&mut out, self.path.as_str());
        crate::text::extend_str(&mut out, ": ");
        crate::text::extend_str(&mut out, self.message.as_str());
        crate::text::string_from_chars(out.as_slice())
    }
}

/// The failure message of a projection error.
pub open spec fn projection_failure(error: ProjectionError) -> Seq<char> {
    match error {
        ProjectionError::Serialize(detail) => "failed to serialize projection: "@ + detail@,
    }
}

/// The failure message of a projection error.
fn projection_error_message(error: ProjectionError) -> (r: String)
    ensures
        r@ == projection_failure(error),
{
    match error {
        ProjectionError::Serialize(detail) => {
            let mut out: Vec<char> = Vec::new();
            crate::text::extend_str(&mut out, "failed to serialize projection: ");
            crate::text::extend_str(&mut out, detail.as_str());
            crate::text::string_from_chars(out.as_slice())
        },
    }
}

/// Asserts that a projection obeys the doctrine implied by its surface policy: both detail
/// levels materialize.
/// The detail level that failed is named `$concise` or `$full`, with the projection's own
/// failure as the message; what a projection returns is up to its implementation.
pub fn assert_projection_doctrine<T: ToolProjection>(projection: &T) -> (r: Result<(), ProjectionAssertion>)
    ensures
        r is Ok ==> (exists|v: JsonValue|
            #[trigger] call_ensures(
                T::structured_projection,
                (projection, DetailLevel::Concise),
                Ok::<JsonValue, ProjectionError>(v),
            )) && (exists|v: JsonValue|
            #[trigger] call_ensures(
                T::structured_projection,
                (projection, DetailLevel::Full),
                Ok::<JsonValue, ProjectionError>(v),
            )),
        r matches Err(a) ==> (a.spec_path() == "$concise"@ && exists|e: ProjectionError|
            #[trigger] call_ensures(
                T::structured_projection,
                (projection, DetailLevel::Concise),
                Err::<JsonValue, ProjectionError>(e),
            ) && a.spec_message() == projection_failure(e)) || (a.spec_path() == "$full"@ && (exists|v: JsonValue|
            #[trigger] call_ensures(
                T::structured_projection,
                (projection, DetailLevel::Concise),
                Ok::<JsonValue, ProjectionError>(v),
            )) && exists|e: ProjectionError|
            #[trigger] call_ensures(
                T::structured_projection,
                (projection, DetailLevel::Full),
                Err::<JsonValue, ProjectionError>(e),
            ) && a.spec_message() == projection_failure(e)),
{
    match projection.structured_projection(DetailLevel::Concise) {
        Ok(_) => {},
        Err(error) => {
            return Err(ProjectionAssertion::new("$concise", projection_error_message(error)));
        },
    }
    match projection.structured_projection(DetailLevel::Full) {
        Ok(_) => {},
        Err(error) => {
            return Err(ProjectionAssertion::new("$full", projection_error_message(error)));
        },
    }
    Ok(())
}

} // verus!

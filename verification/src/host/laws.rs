//! Kernel laws: what every recovery, dispatch, completion and restoration keeps.

use vstd::prelude::*;
use crate::callmeta::spec_tool_call_meta;
use crate::jsonrpc::{EnvelopeView, FrameView, RequestIdView};
use crate::replay::{
    ExecutionKnowledge, ProbeResolution, ReplayContract, RequestDisposition, lemma_spec_allowance,
    spec_after_worker_loss,
};
use super::{
    DispatchView, HostRejection, KernelView, PendingView, ProbeView, RecoveryAcc, ReplayBudget,
    after_loss, frame_request_id, has_pending, is_first_slot, pending_slot, queued_request,
    recovery_prefix, retained_after_loss, spec_begin_request_dispatch, spec_complete_response,
    spec_pop_next_dispatch, spec_queue_client_frame, spec_requeue_pending_for_replay,
    spec_resolve_probe,
};
use super::snapshot::schedule_valid;

verus! {

/// A pending entry is the invocation its frame describes: the identifier and
/// method are the frame's, and the telemetry metadata is the frame's.
pub open spec fn pending_identity(e: (RequestIdView, PendingView)) -> bool {
    &&& e.1.frame.envelope == (EnvelopeView::Request { id: e.0, method: e.1.method })
    &&& e.1.meta == spec_tool_call_meta(e.1.frame.value, e.1.method, e.1.frame.payload.len())
}

/// Well-formed kernel state: every pending invocation keeps its identity, a
/// schedule its execution knowledge allows, and a sequence below the next
/// one; sequences ascend strictly and no identifier owns two invocations.
pub open spec fn kernel_wf(k: KernelView) -> bool {
    &&& forall|i: int|
        0 <= i < k.pending.len() ==> {
            &&& pending_identity(#[trigger] k.pending[i])
            &&& schedule_valid(k.pending[i].1.knowledge, k.pending[i].1.contract, k.pending[i].1.scheduled)
            &&& k.pending[i].1.sequence < k.next_sequence
        }
    &&& forall|i: int, j: int|
        0 <= i < j < k.pending.len() ==> (#[trigger] k.pending[i]).1.sequence < (#[trigger] k.pending[j]).1.sequence
    &&& forall|i: int, j: int|
        0 <= i < j < k.pending.len() ==> (#[trigger] k.pending[i]).0 != (#[trigger] k.pending[j]).0
}

/// Facts about the recovery walk over the first `n` lost invocations.
pub(crate) proof fn lemma_recovery_prefix(lost: Seq<(RequestIdView, PendingView)>, n: int, retained: nat, budget: ReplayBudget)
    requires
        0 <= n <= lost.len(),
    ensures
        ({
            let acc = recovery_prefix(lost, n, retained, budget);
            &&& acc.kept.len() + acc.rejected.len() == n
            &&& acc.frames.len() == acc.kept.len()
            &&& forall|i: int| 0 <= i < acc.kept.len() ==> (#[trigger] acc.frames[i]) == acc.kept[i].1.frame
            &&& acc.kept.len() > 0 ==> acc.frames.len() + retained <= if budget.queue_capacity > retained {
                budget.queue_capacity as int
            } else {
                retained as int
            }
            &&& forall|i: int|
                0 <= i < acc.kept.len() ==> exists|m: int|
                    0 <= m < n && (#[trigger] acc.kept[i]).0 == lost[m].0 && acc.kept[i].1 == (PendingView {
                        scheduled: acc.kept[i].1.scheduled,
                        ..lost[m].1
                    })
            &&& forall|i: int|
                0 <= i < acc.kept.len() ==> {
                    let p = (#[trigger] acc.kept[i]).1;
                    ||| (p.scheduled == Some(RequestDisposition::Replay) && p.contract == ReplayContract::Convergent
                        && p.knowledge == ExecutionKnowledge::OutcomeUnknown && p.attempts < budget.max_attempts)
                    ||| (p.scheduled == Some(RequestDisposition::HoldForProbe) && p.contract
                        == ReplayContract::ProbeRequired && p.knowledge == ExecutionKnowledge::OutcomeUnknown)
                }
            &&& forall|i: int, j: int|
                0 <= i < j < acc.kept.len() ==> exists|a: int, b: int|
                    0 <= a < b < n && (#[trigger] acc.kept[i]).0 == lost[a].0 && (#[trigger] acc.kept[j]).0
                        == lost[b].0 && acc.kept[i].1.sequence == lost[a].1.sequence && acc.kept[j].1.sequence
                        == lost[b].1.sequence
        }),
    decreases n,
{
    if n > 0 {
        lemma_recovery_prefix(lost, n - 1, retained, budget);
        let acc = recovery_prefix(lost, n - 1, retained, budget);
        let next = recovery_prefix(lost, n, retained, budget);
        let (id, p) = lost[n - 1];
        lemma_spec_allowance(p.attempts, budget.max_attempts);
        assert forall|i: int| 0 <= i < next.kept.len() implies exists|m: int|
            0 <= m < n && (#[trigger] next.kept[i]).0 == lost[m].0 && next.kept[i].1 == (PendingView {
                scheduled: next.kept[i].1.scheduled,
                ..lost[m].1
            }) by {
            if i < acc.kept.len() {
                assert(next.kept[i] == acc.kept[i]);
            } else {
                assert(next.kept[i].0 == lost[n - 1].0);
            }
        }
        assert forall|i: int, j: int| 0 <= i < j < next.kept.len() implies exists|a: int, b: int|
            0 <= a < b < n && (#[trigger] next.kept[i]).0 == lost[a].0 && (#[trigger] next.kept[j]).0
                == lost[b].0 && next.kept[i].1.sequence == lost[a].1.sequence && next.kept[j].1.sequence
                == lost[b].1.sequence by {
            if j < acc.kept.len() {
                assert(next.kept[i] == acc.kept[i]);
                assert(next.kept[j] == acc.kept[j]);
            } else {
                assert(next.kept[i] == acc.kept[i]);
                let m = choose|m: int|
                    0 <= m < n - 1 && (#[trigger] acc.kept[i]).0 == lost[m].0 && acc.kept[i].1 == (PendingView {
                        scheduled: acc.kept[i].1.scheduled,
                        ..lost[m].1
                    });
                assert(next.kept[j].0 == lost[n - 1].0);
                assert(0 <= m < n - 1);
            }
        }
    }
}

/// No unauthorized replay: recovery after worker loss schedules a replay only
/// for an invocation whose contract is convergent, whose outcome is unknown
/// and whose budget has an attempt left; a probe-required invocation is only
/// ever held, and every other invocation leaves pending state as rejected.
pub proof fn lemma_recovery_schedules_only_authorized_replays(k: KernelView, budget: ReplayBudget)
    ensures
        ({
            let (after, _) = spec_requeue_pending_for_replay(k, budget);
            forall|i: int|
                0 <= i < after.pending.len() ==> {
                    let p = (#[trigger] after.pending[i]).1;
                    ||| (p.scheduled == Some(RequestDisposition::Replay) && p.contract
                        == ReplayContract::Convergent && p.knowledge == ExecutionKnowledge::OutcomeUnknown
                        && p.attempts < budget.max_attempts)
                    ||| (p.scheduled == Some(RequestDisposition::HoldForProbe) && p.contract
                        == ReplayContract::ProbeRequired && p.knowledge == ExecutionKnowledge::OutcomeUnknown)
                }
        }),
{
    let lost = k.pending.map_values(|e: (RequestIdView, PendingView)| (e.0, after_loss(e.1)));
    let retained = k.queue.filter(|f: FrameView| retained_after_loss(k.pending, f));
    lemma_recovery_prefix(lost, lost.len() as int, retained.len(), budget);
}

/// No unauthorized replay: consumer evidence authorizes a replay only when it
/// proves replay safe for a held probe-required invocation whose outcome is
/// unknown and whose budget has an attempt left.
pub proof fn lemma_probe_replay_needs_evidence(
    k: KernelView,
    id: RequestIdView,
    resolution: ProbeResolution,
    max_attempts: u8,
)
    requires
        spec_resolve_probe(k, id, resolution, max_attempts).0 is Ok,
        spec_resolve_probe(k, id, resolution, max_attempts).0->Ok_0 is ReplayAuthorized,
    ensures
        resolution == ProbeResolution::SafeToReplay,
        pending_slot(k.pending, id) is Some,
        ({
            let p = k.pending[pending_slot(k.pending, id).unwrap()].1;
            &&& p.scheduled == Some(RequestDisposition::HoldForProbe)
            &&& p.contract == ReplayContract::ProbeRequired
            &&& p.knowledge == ExecutionKnowledge::OutcomeUnknown
            &&& p.attempts < max_attempts
        }),
{
    let i = pending_slot(k.pending, id).unwrap();
    lemma_spec_allowance(k.pending[i].1.attempts, max_attempts);
}

/// No unauthorized replay: a replay leaves the queue only for the pending
/// invocation at its head whose replay was scheduled, and it consumes exactly
/// one attempt of that invocation.
pub proof fn lemma_dispatch_replays_only_scheduled(k: KernelView)
    requires
        spec_pop_next_dispatch(k).0 matches Ok(DispatchView::Replay(_)),
    ensures
        k.queue.len() > 0,
        frame_request_id(k.queue[0]) is Some,
        pending_slot(k.pending, frame_request_id(k.queue[0]).unwrap()) is Some,
        ({
            let i = pending_slot(k.pending, frame_request_id(k.queue[0]).unwrap()).unwrap();
            let after = spec_pop_next_dispatch(k).1;
            &&& spec_pop_next_dispatch(k).0 == Ok::<DispatchView, HostRejection>(DispatchView::Replay(k.queue[0]))
            &&& k.pending[i].1.scheduled == Some(RequestDisposition::Replay)
            &&& k.pending[i].1.knowledge == ExecutionKnowledge::OutcomeUnknown
            &&& after.pending[i].1.attempts == k.pending[i].1.attempts + 1
            &&& after.pending[i].1.knowledge == ExecutionKnowledge::InFlight
            &&& after.pending[i].1.scheduled is None
            &&& after.queue == k.queue.drop_first()
        }),
{
}

/// Single terminal outcome: once a response completes its invocation, the
/// same response completes nothing more.
pub proof fn lemma_single_terminal_outcome(k: KernelView, response: FrameView)
    requires
        kernel_wf(k),
        spec_complete_response(k, response) is Ok,
    ensures
        spec_complete_response(spec_complete_response(k, response)->Ok_0.0, response) == Err::<
            (KernelView, PendingView),
            HostRejection,
        >(HostRejection::RequestNotPending),
{
    let id = response.envelope->Response_id;
    let i = pending_slot(k.pending, id).unwrap();
    let after = spec_complete_response(k, response)->Ok_0.0;
    assert(is_first_slot(k.pending, id, i));
    assert forall|j: int| !is_first_slot(after.pending, id, j) by {
        if 0 <= j < after.pending.len() {
            if j < i {
                assert(after.pending[j] == k.pending[j]);
            } else {
                assert(after.pending[j] == k.pending[j + 1]);
            }
        }
    }
}

/// Single terminal outcome: an identifier owned by an outstanding invocation,
/// or by a queued request, cannot begin another invocation.
pub proof fn lemma_outstanding_ids_are_not_reused(
    k: KernelView,
    f: FrameView,
    contract: ReplayContract,
    capacity: usize,
)
    requires
        frame_request_id(f) matches Some(id) && (has_pending(k.pending, id) || queued_request(k.queue, id)),
    ensures
        spec_begin_request_dispatch(k, f, contract, capacity) == Err::<KernelView, HostRejection>(
            HostRejection::DuplicateRequestId,
        ),
{
}

/// Bounded recovery: admitted work never exceeds the capacity it was admitted under.
pub proof fn lemma_admission_is_bounded(k: KernelView, f: FrameView, contract: ReplayContract, capacity: usize)
    ensures
        spec_queue_client_frame(k, f, capacity) matches Ok(after) ==> after.queue.len() <= capacity,
        spec_begin_request_dispatch(k, f, contract, capacity) matches Ok(after) ==> after.pending.len()
            <= capacity,
{
}

/// Bounded recovery: recovery accounts for every pending invocation, either
/// keeping it scheduled or reporting it rejected, and schedules no replay
/// beyond the queue capacity left by the retained client frames.
pub proof fn lemma_recovery_is_bounded(k: KernelView, budget: ReplayBudget)
    ensures
        ({
            let (after, outcome) = spec_requeue_pending_for_replay(k, budget);
            let retained = k.queue.filter(|f: FrameView| retained_after_loss(k.pending, f));
            &&& after.pending.len() + outcome.rejected.len() == k.pending.len()
            &&& after.queue.len() == after.pending.len() + retained.len()
            &&& after.pending.len() > 0 ==> after.queue.len() <= if budget.queue_capacity > retained.len() {
                budget.queue_capacity as int
            } else {
                retained.len() as int
            }
        }),
{
    let lost = k.pending.map_values(|e: (RequestIdView, PendingView)| (e.0, after_loss(e.1)));
    let retained = k.queue.filter(|f: FrameView| retained_after_loss(k.pending, f));
    lemma_recovery_prefix(lost, lost.len() as int, retained.len(), budget);
}

/// Ordered recovery: recovered invocations come first, in their original
/// dispatch order, and the client frames retained from the old queue follow
/// them in their own order.
pub proof fn lemma_recovery_preserves_dispatch_order(k: KernelView, budget: ReplayBudget)
    requires
        kernel_wf(k),
    ensures
        ({
            let (after, _) = spec_requeue_pending_for_replay(k, budget);
            let retained = k.queue.filter(|f: FrameView| retained_after_loss(k.pending, f));
            &&& forall|i: int, j: int|
                0 <= i < j < after.pending.len() ==> (#[trigger] after.pending[i]).1.sequence
                    < (#[trigger] after.pending[j]).1.sequence
            &&& after.queue.len() == after.pending.len() + retained.len()
            &&& forall|i: int| 0 <= i < after.pending.len() ==> (#[trigger] after.queue[i]) == after.pending[i].1.frame
            &&& after.queue.skip(after.pending.len() as int) == retained
        }),
{
    let lost = k.pending.map_values(|e: (RequestIdView, PendingView)| (e.0, after_loss(e.1)));
    let retained = k.queue.filter(|f: FrameView| retained_after_loss(k.pending, f));
    lemma_recovery_prefix(lost, lost.len() as int, retained.len(), budget);
    let (after, _) = spec_requeue_pending_for_replay(k, budget);
    let acc = recovery_prefix(lost, lost.len() as int, retained.len(), budget);
    assert forall|i: int, j: int| 0 <= i < j < after.pending.len() implies (#[trigger] after.pending[i]).1.sequence
        < (#[trigger] after.pending[j]).1.sequence by {
        let (a, b) = choose|a: int, b: int|
            0 <= a < b < lost.len() && (#[trigger] acc.kept[i]).0 == lost[a].0 && (#[trigger] acc.kept[j]).0
                == lost[b].0 && acc.kept[i].1.sequence == lost[a].1.sequence && acc.kept[j].1.sequence
                == lost[b].1.sequence;
        assert(lost[a].1.sequence == k.pending[a].1.sequence);
        assert(lost[b].1.sequence == k.pending[b].1.sequence);
    }
    assert(after.queue.skip(after.pending.len() as int) =~= retained);
}

/// Public-session isolation: worker churn and recovery dispatch leave the
/// public phase and initialization seed untouched.
pub proof fn lemma_worker_churn_keeps_public_session(k: KernelView, budget: ReplayBudget)
    ensures
        spec_requeue_pending_for_replay(k, budget).0.phase == k.phase,
        spec_requeue_pending_for_replay(k, budget).0.seed == k.seed,
        spec_requeue_pending_for_replay(k, budget).0.next_sequence == k.next_sequence,
        spec_pop_next_dispatch(k).1.phase == k.phase,
        spec_pop_next_dispatch(k).1.seed == k.seed,
{
}

} // verus!

verus! {

use super::snapshot::{
    DocumentsView, SnapshotLimits, SnapshotView, insert_by_sequence, restore_pending_entry,
    restore_pending_prefix, sequence_order, spec_restore,
};

/// Inserting an entry with a fresh sequence into a strictly ascending list
/// keeps it strictly ascending and adds exactly that entry.
proof fn lemma_insert_by_sequence_sorted(order: Seq<(RequestIdView, PendingView)>, e: (RequestIdView, PendingView))
    requires
        forall|i: int, j: int| 0 <= i < j < order.len() ==> (#[trigger] order[i]).1.sequence < (#[trigger] order[j]).1.sequence,
        forall|i: int| 0 <= i < order.len() ==> (#[trigger] order[i]).1.sequence != e.1.sequence,
    ensures
        ({
            let r = insert_by_sequence(order, e);
            &&& r.len() == order.len() + 1
            &&& forall|i: int, j: int| 0 <= i < j < r.len() ==> (#[trigger] r[i]).1.sequence < (#[trigger] r[j]).1.sequence
            &&& forall|i: int| 0 <= i < r.len() ==> #[trigger] r[i] == e || exists|j: int| 0 <= j < order.len() && r[i] == order[j]
        }),
    decreases order.len(),
{
    let r = insert_by_sequence(order, e);
    if order.len() == 0 {
        assert(r[0] == e);
    } else if e.1.sequence < order[0].1.sequence {
        assert(r == seq![e] + order);
        assert(r[0] == e);
        assert forall|i: int| 0 <= i < r.len() implies #[trigger] r[i] == e || exists|j: int| 0 <= j < order.len() && r[i] == order[j] by {
            if i > 0 {
                assert(r[i] == order[i - 1]);
            }
        }
        assert forall|i: int, j: int| 0 <= i < j < r.len() implies (#[trigger] r[i]).1.sequence < (#[trigger] r[j]).1.sequence by {
            if i == 0 {
                assert(r[j] == order[j - 1]);
                if j - 1 > 0 {
                    assert(order[0].1.sequence < order[j - 1].1.sequence);
                }
            } else {
                assert(r[i] == order[i - 1]);
                assert(r[j] == order[j - 1]);
            }
        }
    } else {
        let rest = order.drop_first();
        assert forall|i: int, j: int| 0 <= i < j < rest.len() implies (#[trigger] rest[i]).1.sequence < (#[trigger] rest[j]).1.sequence by {
            assert(rest[i] == order[i + 1]);
            assert(rest[j] == order[j + 1]);
        }
        assert forall|i: int| 0 <= i < rest.len() implies (#[trigger] rest[i]).1.sequence != e.1.sequence by {
            assert(rest[i] == order[i + 1]);
        }
        lemma_insert_by_sequence_sorted(rest, e);
        let tail = insert_by_sequence(rest, e);
        assert(r == seq![order[0]] + tail);
        assert(order[0].1.sequence < e.1.sequence);
        assert forall|i: int| 0 <= i < tail.len() implies order[0].1.sequence < (#[trigger] tail[i]).1.sequence by {
            if tail[i] != e {
                let j = choose|j: int| 0 <= j < rest.len() && tail[i] == rest[j];
                assert(rest[j] == order[j + 1]);
            }
        }
        assert forall|i: int, j: int| 0 <= i < j < r.len() implies (#[trigger] r[i]).1.sequence < (#[trigger] r[j]).1.sequence by {
            if i == 0 {
                assert(r[j] == tail[j - 1]);
            } else {
                assert(r[i] == tail[i - 1]);
                assert(r[j] == tail[j - 1]);
            }
        }
        assert forall|i: int| 0 <= i < r.len() implies #[trigger] r[i] == e || exists|j: int| 0 <= j < order.len() && r[i] == order[j] by {
            if i == 0 {
                assert(r[0] == order[0]);
            } else {
                assert(r[i] == tail[i - 1]);
                if tail[i - 1] != e {
                    let j = choose|j: int| 0 <= j < rest.len() && tail[i - 1] == rest[j];
                    assert(rest[j] == order[j + 1]);
                }
            }
        }
    }
}

/// Ordering entries with distinct sequences yields a strictly ascending list
/// of as many entries, each drawn from them.
proof fn lemma_sequence_order_sorted(entries: Seq<(RequestIdView, PendingView)>, n: int)
    requires
        0 <= n <= entries.len(),
        forall|a: int, b: int| 0 <= a < b < n ==> (#[trigger] entries[a]).1.sequence != (#[trigger] entries[b]).1.sequence,
    ensures
        ({
            let r = sequence_order(entries, n);
            &&& r.len() == n
            &&& forall|i: int, j: int| 0 <= i < j < r.len() ==> (#[trigger] r[i]).1.sequence < (#[trigger] r[j]).1.sequence
            &&& forall|i: int| 0 <= i < r.len() ==> exists|m: int| 0 <= m < n && #[trigger] r[i] == entries[m]
        }),
    decreases n,
{
    if n > 0 {
        lemma_sequence_order_sorted(entries, n - 1);
        let order = sequence_order(entries, n - 1);
        let e = entries[n - 1];
        assert forall|i: int| 0 <= i < order.len() implies (#[trigger] order[i]).1.sequence != e.1.sequence by {
            let m = choose|m: int| 0 <= m < n - 1 && #[trigger] order[i] == entries[m];
            assert(entries[m].1.sequence != entries[n - 1].1.sequence);
        }
        lemma_insert_by_sequence_sorted(order, e);
        let r = sequence_order(entries, n);
        assert forall|i: int| 0 <= i < r.len() implies exists|m: int| 0 <= m < n && #[trigger] r[i] == entries[m] by {
            if r[i] != e {
                let j = choose|j: int| 0 <= j < order.len() && r[i] == order[j];
                let m = choose|m: int| 0 <= m < n - 1 && #[trigger] order[j] == entries[m];
                assert(r[i] == entries[m]);
            } else {
                assert(r[i] == entries[n - 1]);
            }
        }
    }
}

/// Every restored pending entry keeps its identity, an allowed schedule and a
/// sequence below the next one; restored sequences and identifiers are distinct.
proof fn lemma_restored_entries(s: SnapshotView, d: DocumentsView, limits: SnapshotLimits, n: int)
    requires
        0 <= n <= s.pending.len(),
        restore_pending_prefix(s, d, limits, n) is Ok,
    ensures
        ({
            let acc = restore_pending_prefix(s, d, limits, n)->Ok_0;
            &&& acc.len() == n
            &&& forall|m: int|
                0 <= m < n ==> {
                    &&& pending_identity(#[trigger] acc[m])
                    &&& schedule_valid(acc[m].1.knowledge, acc[m].1.contract, acc[m].1.scheduled)
                    &&& acc[m].1.sequence < s.next_sequence
                }
            &&& forall|a: int, b: int|
                0 <= a < b < n ==> (#[trigger] acc[a]).1.sequence != (#[trigger] acc[b]).1.sequence && acc[a].0 != acc[b].0
        }),
    decreases n,
{
    if n > 0 {
        lemma_restored_entries(s, d, limits, n - 1);
        let prev = restore_pending_prefix(s, d, limits, n - 1)->Ok_0;
        let acc = restore_pending_prefix(s, d, limits, n)->Ok_0;
        let earlier = s.pending.take(n - 1);
        let p = restore_pending_entry(s.pending[n - 1], d.pending[n - 1], limits, s.next_sequence, earlier)->Ok_0;
        assert(acc == prev.push((s.pending[n - 1].id, p)));
        assert forall|a: int| 0 <= a < n - 1 implies prev[a].1.sequence == s.pending[a].sequence && prev[a].0 == s.pending[a].id by {
            lemma_restored_entry_positions(s, d, limits, n - 1, a);
        }
        assert forall|a: int, b: int| 0 <= a < b < n implies (#[trigger] acc[a]).1.sequence != (#[trigger] acc[b]).1.sequence
            && acc[a].0 != acc[b].0 by {
            if b == n - 1 {
                assert(acc[a] == prev[a]);
                assert(earlier[a] == s.pending[a]);
                assert(!(earlier[a].sequence == s.pending[n - 1].sequence));
                assert(!(earlier[a].id == s.pending[n - 1].id));
            } else {
                assert(acc[a] == prev[a]);
                assert(acc[b] == prev[b]);
            }
        }
        assert forall|m: int| 0 <= m < n implies {
            &&& pending_identity(#[trigger] acc[m])
            &&& schedule_valid(acc[m].1.knowledge, acc[m].1.contract, acc[m].1.scheduled)
            &&& acc[m].1.sequence < s.next_sequence
        } by {
            if m < n - 1 {
                assert(acc[m] == prev[m]);
            }
        }
    }
}

/// Restored entry `a` carries the identifier and sequence of snapshot entry `a`.
proof fn lemma_restored_entry_positions(s: SnapshotView, d: DocumentsView, limits: SnapshotLimits, n: int, a: int)
    requires
        0 <= a < n <= s.pending.len(),
        restore_pending_prefix(s, d, limits, n) is Ok,
    ensures
        restore_pending_prefix(s, d, limits, n)->Ok_0[a].1.sequence == s.pending[a].sequence,
        restore_pending_prefix(s, d, limits, n)->Ok_0[a].0 == s.pending[a].id,
    decreases n,
{
    lemma_restored_length(s, d, limits, n - 1);
    if a < n - 1 {
        lemma_restored_entry_positions(s, d, limits, n - 1, a);
    }
}

proof fn lemma_restored_length(s: SnapshotView, d: DocumentsView, limits: SnapshotLimits, n: int)
    requires
        0 <= n <= s.pending.len(),
        restore_pending_prefix(s, d, limits, n) is Ok,
    ensures
        restore_pending_prefix(s, d, limits, n)->Ok_0.len() == n,
    decreases n,
{
    if n > 0 {
        lemma_restored_length(s, d, limits, n - 1);
    }
}

/// Atomic restoration: a snapshot restores only to a well-formed kernel with
/// the snapshot's phase, seed and next sequence.
pub proof fn lemma_restored_kernel_is_well_formed(s: SnapshotView, limits: SnapshotLimits, d: DocumentsView)
    requires
        spec_restore(s, limits, d) is Ok,
    ensures
        kernel_wf(spec_restore(s, limits, d)->Ok_0),
        spec_restore(s, limits, d)->Ok_0.phase == s.phase,
        spec_restore(s, limits, d)->Ok_0.seed == s.seed,
        spec_restore(s, limits, d)->Ok_0.next_sequence == s.next_sequence,
        spec_restore(s, limits, d)->Ok_0.pending.len() == s.pending.len(),
{
    let n = s.pending.len() as int;
    lemma_restored_entries(s, d, limits, n);
    let acc = restore_pending_prefix(s, d, limits, n)->Ok_0;
    lemma_sequence_order_sorted(acc, n);
    let k = spec_restore(s, limits, d)->Ok_0;
    assert(k.pending == sequence_order(acc, n));
    assert forall|i: int| 0 <= i < k.pending.len() implies {
        &&& pending_identity(#[trigger] k.pending[i])
        &&& schedule_valid(k.pending[i].1.knowledge, k.pending[i].1.contract, k.pending[i].1.scheduled)
        &&& k.pending[i].1.sequence < k.next_sequence
    } by {
        let m = choose|m: int| 0 <= m < n && #[trigger] k.pending[i] == acc[m];
        assert(pending_identity(acc[m]));
    }
    assert forall|i: int, j: int| 0 <= i < j < k.pending.len() implies (#[trigger] k.pending[i]).0 != (#[trigger] k.pending[j]).0 by {
        let a = choose|m: int| 0 <= m < n && #[trigger] k.pending[i] == acc[m];
        let b = choose|m: int| 0 <= m < n && #[trigger] k.pending[j] == acc[m];
        assert(k.pending[i].1.sequence < k.pending[j].1.sequence);
        if a < b {
            assert(acc[a].0 != acc[b].0);
        } else if b < a {
            assert(acc[b].0 != acc[a].0);
        }
    }
}

} // verus!

verus! {

use super::{
    cold_kernel, spec_observe_client_frame,
};

/// A fresh kernel is well formed.
pub proof fn lemma_cold_kernel_is_well_formed()
    ensures
        kernel_wf(cold_kernel()),
{
}

/// Observing and queueing client frames keep the kernel well formed.
pub proof fn lemma_client_frames_keep_well_formed(k: KernelView, f: FrameView, capacity: usize)
    requires
        kernel_wf(k),
    ensures
        spec_observe_client_frame(k, f) matches Ok(after) ==> kernel_wf(after),
        spec_queue_client_frame(k, f, capacity) matches Ok(after) ==> kernel_wf(after),
{
}

/// Beginning a first dispatch keeps the kernel well formed.
pub proof fn lemma_first_dispatch_keeps_well_formed(
    k: KernelView,
    f: FrameView,
    contract: ReplayContract,
    capacity: usize,
)
    requires
        kernel_wf(k),
    ensures
        spec_begin_request_dispatch(k, f, contract, capacity) matches Ok(after) ==> kernel_wf(after),
{
    if spec_begin_request_dispatch(k, f, contract, capacity) is Ok {
        let after = spec_begin_request_dispatch(k, f, contract, capacity)->Ok_0;
        let id = f.envelope->Request_id;
        let n = k.pending.len() as int;
        assert forall|i: int, j: int| 0 <= i < j < after.pending.len() implies (#[trigger] after.pending[i]).0
            != (#[trigger] after.pending[j]).0 by {
            if j == n {
                assert(after.pending[i] == k.pending[i]);
                assert(!(k.pending[i].0 == id));
            } else {
                assert(after.pending[i] == k.pending[i]);
                assert(after.pending[j] == k.pending[j]);
            }
        }
        assert forall|i: int, j: int| 0 <= i < j < after.pending.len() implies (#[trigger] after.pending[i]).1.sequence
            < (#[trigger] after.pending[j]).1.sequence by {
            assert(after.pending[i] == k.pending[i]);
            if j < n {
                assert(after.pending[j] == k.pending[j]);
            }
        }
        assert forall|i: int| 0 <= i < after.pending.len() implies {
            &&& pending_identity(#[trigger] after.pending[i])
            &&& schedule_valid(after.pending[i].1.knowledge, after.pending[i].1.contract, after.pending[i].1.scheduled)
            &&& after.pending[i].1.sequence < after.next_sequence
        } by {
            if i < n {
                assert(after.pending[i] == k.pending[i]);
            }
        }
    }
}

/// Completing a response keeps the kernel well formed.
pub proof fn lemma_completion_keeps_well_formed(k: KernelView, response: FrameView)
    requires
        kernel_wf(k),
    ensures
        spec_complete_response(k, response) matches Ok((after, _)) ==> kernel_wf(after),
{
    if spec_complete_response(k, response) is Ok {
        let after = spec_complete_response(k, response)->Ok_0.0;
        let i = pending_slot(k.pending, response.envelope->Response_id).unwrap();
        assert forall|a: int| 0 <= a < after.pending.len() implies #[trigger] after.pending[a] == k.pending[
            if a < i { a } else { a + 1 }
        ] by {}
        assert forall|a: int, b: int| 0 <= a < b < after.pending.len() implies (#[trigger] after.pending[a]).0
            != (#[trigger] after.pending[b]).0 && after.pending[a].1.sequence < after.pending[b].1.sequence by {
            let x = if a < i { a } else { a + 1 };
            let y = if b < i { b } else { b + 1 };
            assert(after.pending[a] == k.pending[x]);
            assert(after.pending[b] == k.pending[y]);
        }
    }
}

/// Taking the next dispatch keeps the kernel well formed, except when the
/// replayed invocation's attempt counter is already at its maximum.
pub proof fn lemma_dispatch_keeps_well_formed(k: KernelView)
    requires
        kernel_wf(k),
        spec_pop_next_dispatch(k).0 != Err::<DispatchView, HostRejection>(HostRejection::ReplayBudgetExhausted),
    ensures
        kernel_wf(spec_pop_next_dispatch(k).1),
{
    let after = spec_pop_next_dispatch(k).1;
    if k.queue.len() > 0 && frame_request_id(k.queue[0]) is Some && pending_slot(
        k.pending,
        frame_request_id(k.queue[0]).unwrap(),
    ) is Some {
        let i = pending_slot(k.pending, frame_request_id(k.queue[0]).unwrap()).unwrap();
        assert forall|a: int| 0 <= a < after.pending.len() && a != i implies #[trigger] after.pending[a]
            == k.pending[a] by {}
        assert(after.pending.len() == k.pending.len());
        assert forall|a: int, b: int| 0 <= a < b < after.pending.len() implies (#[trigger] after.pending[a]).0
            != (#[trigger] after.pending[b]).0 && after.pending[a].1.sequence < after.pending[b].1.sequence by {
            assert(after.pending[a].0 == k.pending[a].0 && after.pending[a].1.sequence == k.pending[a].1.sequence);
            assert(after.pending[b].0 == k.pending[b].0 && after.pending[b].1.sequence == k.pending[b].1.sequence);
        }
        assert forall|a: int| 0 <= a < after.pending.len() implies {
            &&& pending_identity(#[trigger] after.pending[a])
            &&& schedule_valid(after.pending[a].1.knowledge, after.pending[a].1.contract, after.pending[a].1.scheduled)
            &&& after.pending[a].1.sequence < after.next_sequence
        } by {
            assert(pending_identity(k.pending[a]));
        }
    }
}

/// Recovery after worker loss keeps the kernel well formed.
pub proof fn lemma_recovery_keeps_well_formed(k: KernelView, budget: ReplayBudget)
    requires
        kernel_wf(k),
    ensures
        kernel_wf(spec_requeue_pending_for_replay(k, budget).0),
{
    let lost = k.pending.map_values(|e: (RequestIdView, PendingView)| (e.0, after_loss(e.1)));
    let retained = k.queue.filter(|f: FrameView| retained_after_loss(k.pending, f));
    lemma_recovery_prefix(lost, lost.len() as int, retained.len(), budget);
    lemma_recovery_preserves_dispatch_order(k, budget);
    let after = spec_requeue_pending_for_replay(k, budget).0;
    let acc = recovery_prefix(lost, lost.len() as int, retained.len(), budget);
    assert(after.pending == acc.kept);
    assert forall|i: int| 0 <= i < after.pending.len() implies {
        &&& pending_identity(#[trigger] after.pending[i])
        &&& schedule_valid(after.pending[i].1.knowledge, after.pending[i].1.contract, after.pending[i].1.scheduled)
        &&& after.pending[i].1.sequence < after.next_sequence
    } by {
        let m = choose|m: int|
            0 <= m < lost.len() && (#[trigger] acc.kept[i]).0 == lost[m].0 && acc.kept[i].1 == (PendingView {
                scheduled: acc.kept[i].1.scheduled,
                ..lost[m].1
            });
        assert(lost[m].1 == after_loss(k.pending[m].1));
        assert(pending_identity(k.pending[m]));
    }
    assert forall|i: int, j: int| 0 <= i < j < after.pending.len() implies (#[trigger] after.pending[i]).0
        != (#[trigger] after.pending[j]).0 by {
        let (a, b) = choose|a: int, b: int|
            0 <= a < b < lost.len() && (#[trigger] acc.kept[i]).0 == lost[a].0 && (#[trigger] acc.kept[j]).0
                == lost[b].0 && acc.kept[i].1.sequence == lost[a].1.sequence && acc.kept[j].1.sequence
                == lost[b].1.sequence;
        assert(k.pending[a].0 != k.pending[b].0);
    }
}

/// Applying probe evidence keeps the kernel well formed.
pub proof fn lemma_probe_resolution_keeps_well_formed(
    k: KernelView,
    id: RequestIdView,
    resolution: ProbeResolution,
    max_attempts: u8,
)
    requires
        kernel_wf(k),
    ensures
        kernel_wf(spec_resolve_probe(k, id, resolution, max_attempts).1),
{
    let after = spec_resolve_probe(k, id, resolution, max_attempts).1;
    if pending_slot(k.pending, id) is Some {
        let i = pending_slot(k.pending, id).unwrap();
        lemma_spec_allowance(k.pending[i].1.attempts, max_attempts);
        if after.pending.len() == k.pending.len() {
            assert forall|a: int| 0 <= a < after.pending.len() && a != i implies #[trigger] after.pending[a]
                == k.pending[a] by {}
            assert forall|a: int, b: int| 0 <= a < b < after.pending.len() implies (#[trigger] after.pending[a]).0
                != (#[trigger] after.pending[b]).0 && after.pending[a].1.sequence < after.pending[b].1.sequence by {
                assert(after.pending[a].0 == k.pending[a].0 && after.pending[a].1.sequence
                    == k.pending[a].1.sequence);
                assert(after.pending[b].0 == k.pending[b].0 && after.pending[b].1.sequence
                    == k.pending[b].1.sequence);
            }
            assert forall|a: int| 0 <= a < after.pending.len() implies {
                &&& pending_identity(#[trigger] after.pending[a])
                &&& schedule_valid(
                    after.pending[a].1.knowledge,
                    after.pending[a].1.contract,
                    after.pending[a].1.scheduled,
                )
                &&& after.pending[a].1.sequence < after.next_sequence
            } by {
                assert(pending_identity(k.pending[a]));
            }
        } else {
            assert forall|a: int, b: int| 0 <= a < b < after.pending.len() implies (#[trigger] after.pending[a]).0
                != (#[trigger] after.pending[b]).0 && after.pending[a].1.sequence < after.pending[b].1.sequence by {
                let x = if a < i { a } else { a + 1 };
                let y = if b < i { b } else { b + 1 };
                assert(after.pending[a] == k.pending[x]);
                assert(after.pending[b] == k.pending[y]);
            }
            assert forall|a: int| 0 <= a < after.pending.len() implies #[trigger] after.pending[a] == k.pending[
                if a < i { a } else { a + 1 }
            ] by {}
        }
    }
}

/// Completing the pending `initialize`: an error response returns the session to `Cold` with no
/// seed, so a new `initialize` is admitted; a success awaits `initialized` with the seed kept,
/// and a second `initialize` is refused.
pub proof fn lemma_initialize_outcome_sets_the_session(k: KernelView, response: FrameView, id: RequestIdView, has_error: bool, retry: FrameView, retry_id: RequestIdView)
    requires
        k.phase == super::SessionPhase::Initializing,
        response.envelope == (EnvelopeView::Response { id, has_error }),
        pending_slot(k.pending, id) matches Some(i) && k.pending[i].1.method == "initialize"@ && (k.pending[i].1.knowledge
            == ExecutionKnowledge::InFlight || k.pending[i].1.knowledge == ExecutionKnowledge::OutcomeUnknown),
        retry.envelope == (EnvelopeView::Request { id: retry_id, method: "initialize"@ }),
    ensures
        spec_complete_response(k, response) matches Ok((after, _)) && if has_error {
            &&& after.phase == super::SessionPhase::Cold
            &&& after.seed is None
            &&& super::spec_observe_client_frame(after, retry) is Ok
        } else {
            &&& after.phase == super::SessionPhase::AwaitingInitialized
            &&& after.seed == k.seed
            &&& super::spec_observe_client_frame(after, retry) == Err::<KernelView, HostRejection>(
                HostRejection::InvalidExecutionState,
            )
        },
{
}

/// The `initialize` handshake: the first dispatch of an `initialize` from a cold session starts
/// it and records the request as the seed unless the seed already names it; `initialized` then
/// makes the session live and records its payload; a request whose identifier is pending is
/// refused as a duplicate.
pub proof fn lemma_initialize_handshake(
    k: KernelView,
    request: FrameView,
    id: RequestIdView,
    contract: ReplayContract,
    capacity: usize,
    notification: FrameView,
)
    requires
        request.envelope == (EnvelopeView::Request { id, method: "initialize"@ }),
        notification.envelope == (EnvelopeView::Notification { method: "notifications/initialized"@ }),
    ensures
        has_pending(k.pending, id) ==> spec_begin_request_dispatch(k, request, contract, capacity) == Err::<
            KernelView,
            HostRejection,
        >(HostRejection::DuplicateRequestId),
        k.phase == super::SessionPhase::Cold && !has_pending(k.pending, id) && !queued_request(k.queue, id)
            && k.pending.len() < capacity && k.next_sequence < u64::MAX ==> (spec_begin_request_dispatch(
            k,
            request,
            contract,
            capacity,
        ) matches Ok(after) && after.phase == super::SessionPhase::Initializing && (after.seed matches Some(sd)
            && sd.id == id && sd.payload == request.payload) && after.pending.len() == k.pending.len() + 1
            && after.pending.last().0 == id),
        k.phase == super::SessionPhase::AwaitingInitialized && k.seed is Some ==> (super::spec_observe_client_frame(
            k,
            notification,
        ) matches Ok(after) && after.phase == super::SessionPhase::Live && (after.seed matches Some(sd) && sd.notification
            == Some(notification.payload))),
        k.phase != super::SessionPhase::AwaitingInitialized ==> super::spec_observe_client_frame(k, notification) == Err::<
            KernelView,
            HostRejection,
        >(HostRejection::InvalidExecutionState),
{
}

/// A client frame queued behind an empty queue is the next dispatch, and taking it leaves the
/// kernel as it was before the frame was queued.
pub proof fn lemma_queued_frames_come_back_first(k: KernelView, f: FrameView, capacity: usize)
    requires
        k.queue.len() == 0,
        f.envelope is Request,
    ensures
        spec_queue_client_frame(k, f, capacity) matches Ok(after) ==> spec_pop_next_dispatch(after) == (
            Ok::<DispatchView, HostRejection>(DispatchView::ClientFrame(f)),
            k,
        ),
{
    if let Ok(after) = spec_queue_client_frame(k, f, capacity) {
        let id = frame_request_id(f)->0;
        assert(!has_pending(k.pending, id));
        if pending_slot(after.pending, id) is Some {
            let i = pending_slot(after.pending, id)->0;
            assert(is_first_slot(after.pending, id, i));
        }
        assert(after.queue[0] == f);
        assert(after.queue.drop_first() =~= k.queue);
    }
}

} // verus!

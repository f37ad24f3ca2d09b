//! Reexec continuity: a snapshot of a kernel restores exactly that kernel.

use vstd::prelude::*;
use crate::jsonrpc::{FrameView, RequestIdView, frame_accepts, spec_parse_frame};
use super::{
    KernelView, PendingView, SessionPhase, frame_request_id, pending_slot, is_first_slot, cold_kernel,
    spec_observe_client_frame, spec_queue_client_frame, has_pending, queued_request, is_request_for,
    spec_pop_next_dispatch, DispatchView, HostRejection, spec_begin_request_dispatch, spec_complete_response,
    without_request, spec_requeue_pending_for_replay, ReplayBudget, after_loss, retained_after_loss,
    recovery_prefix,
};
use crate::replay::ReplayContract;
use super::laws::{kernel_wf, pending_identity};
use super::snapshot::{
    SNAPSHOT_FORMAT_VERSION, is_pending_initialize, scheduled_absent, seed_exceeds, seed_notification_check,
    seed_request_matches, session_phase_valid, spec_restore, validate_session, DocumentsView, QueueScan, SnapshotErrorView, SnapshotLimits, SnapshotView, insert_by_sequence, records_pending,
    restore_pending_entry, restore_pending_prefix, restore_queue_prefix, restore_queue_step, sequence_order,
    snapshot_records, id_taken, sequence_taken,
};

verus! {

/// Whether a frame's value and envelope are sealed together, as every frame's are.
pub open spec fn frame_sealed(f: FrameView) -> bool {
    frame_accepts(f.value, f.envelope)
}

/// A sealed frame parses back from its own payload and value.
proof fn lemma_sealed_frame_parses(f: FrameView)
    requires
        frame_sealed(f),
    ensures
        spec_parse_frame(f.payload, Ok(f.value)) == Ok::<FrameView, crate::jsonrpc::FrameErrorView>(f),
{
}

/// Inserting an entry whose sequence exceeds every other appends it.
proof fn lemma_insert_last(order: Seq<(RequestIdView, PendingView)>, e: (RequestIdView, PendingView))
    requires
        forall|i: int| 0 <= i < order.len() ==> (#[trigger] order[i]).1.sequence < e.1.sequence,
    ensures
        insert_by_sequence(order, e) == order.push(e),
    decreases order.len(),
{
    if order.len() > 0 {
        let rest = order.drop_first();
        assert forall|i: int| 0 <= i < rest.len() implies (#[trigger] rest[i]).1.sequence < e.1.sequence by {
            assert(rest[i] == order[i + 1]);
        }
        lemma_insert_last(rest, e);
        assert(seq![order[0]] + rest.push(e) =~= order.push(e));
    }
}

/// Entries already in ascending sequence order are their own order.
proof fn lemma_sorted_order(entries: Seq<(RequestIdView, PendingView)>, n: int)
    requires
        0 <= n <= entries.len(),
        forall|i: int, j: int| 0 <= i < j < entries.len() ==> (#[trigger] entries[i]).1.sequence < (
        #[trigger] entries[j]).1.sequence,
    ensures
        sequence_order(entries, n) == entries.take(n),
    decreases n,
{
    if n > 0 {
        lemma_sorted_order(entries, n - 1);
        let prefix = entries.take(n - 1);
        assert forall|i: int| 0 <= i < prefix.len() implies (#[trigger] prefix[i]).1.sequence < entries[n - 1].1.sequence by {
            assert(prefix[i] == entries[i]);
        }
        lemma_insert_last(prefix, entries[n - 1]);
        assert(prefix.push(entries[n - 1]) =~= entries.take(n));
    }
}

/// What a snapshot's pending entry records of the kernel entry at the same position.
proof fn lemma_records_at(s: SnapshotView, k: KernelView, i: int)
    requires
        kernel_wf(k),
        snapshot_records(s, k),
        0 <= i < k.pending.len(),
    ensures
        records_pending(s.pending[i], k.pending[i]),
        s.pending.len() == k.pending.len(),
{
    lemma_sorted_order(k.pending, k.pending.len() as int);
    assert(k.pending.take(k.pending.len() as int) =~= k.pending);
}

/// The snapshot's pending entries restore, in order, to the kernel's.
proof fn lemma_pending_prefix_restores(s: SnapshotView, k: KernelView, limits: SnapshotLimits, d: DocumentsView, n: int)
    requires
        kernel_wf(k),
        snapshot_records(s, k),
        0 <= n <= k.pending.len(),
        d.pending.len() == k.pending.len(),
        forall|i: int| 0 <= i < k.pending.len() ==> d.pending[i] == Ok::<crate::json::JsonView, Seq<char>>(
            (#[trigger] k.pending[i]).1.frame.value,
        ),
        forall|i: int| 0 <= i < k.pending.len() ==> frame_sealed((#[trigger] k.pending[i]).1.frame),
        forall|i: int| 0 <= i < k.pending.len() ==> (#[trigger] k.pending[i]).1.frame.payload.len()
            <= limits.spec_max_frame_bytes(),
        forall|i: int| 0 <= i < k.pending.len() ==> (#[trigger] k.pending[i]).1.attempts
            <= limits.spec_max_replay_attempts(),
    ensures
        restore_pending_prefix(s, d, limits, n) == Ok::<Seq<(RequestIdView, PendingView)>, super::snapshot::SnapshotErrorView>(
            k.pending.take(n),
        ),
    decreases n,
{
    if n > 0 {
        lemma_pending_prefix_restores(s, k, limits, d, n - 1);
        let i = n - 1;
        lemma_records_at(s, k, i);
        let e = s.pending[i];
        let entry = k.pending[i];
        let earlier = s.pending.take(i);
        assert(pending_identity(entry));
        lemma_sealed_frame_parses(entry.1.frame);
        assert(!sequence_taken(earlier, e.sequence)) by {
            if sequence_taken(earlier, e.sequence) {
                let m = choose|m: int| 0 <= m < earlier.len() && (#[trigger] earlier[m]).sequence == e.sequence;
                lemma_records_at(s, k, m);
                assert(earlier[m] == s.pending[m]);
                assert(k.pending[m].1.sequence < k.pending[i].1.sequence);
            }
        }
        assert(!id_taken(earlier, e.id)) by {
            if id_taken(earlier, e.id) {
                let m = choose|m: int| 0 <= m < earlier.len() && (#[trigger] earlier[m]).id == e.id;
                lemma_records_at(s, k, m);
                assert(earlier[m] == s.pending[m]);
                assert(k.pending[m].0 != k.pending[i].0);
            }
        }
        assert(restore_pending_entry(e, d.pending[i], limits, s.next_sequence, earlier) == Ok::<
            PendingView,
            super::snapshot::SnapshotErrorView,
        >(entry.1));
        assert(k.pending.take(n - 1).push((e.id, entry.1)) =~= k.pending.take(n));
    } else {
        assert(k.pending.take(n) =~= Seq::<(RequestIdView, PendingView)>::empty());
    }
}

/// The sequence of the pending invocation that frame `f` requests.
pub open spec fn slot_sequence(k: KernelView, f: FrameView) -> u64 {
    k.pending[pending_slot(k.pending, frame_request_id(f)->0)->0].1.sequence
}

/// Whether `f` is the replay of a pending invocation scheduled for recovery.
pub open spec fn replay_frame(k: KernelView, f: FrameView) -> bool {
    frame_request_id(f) matches Some(id) && (pending_slot(k.pending, id) matches Some(j) && (k.pending[j].1.scheduled
        is Some && k.pending[j].1.frame.payload == f.payload))
}

/// The kernel queue a recovery leaves: its first `replay_len` frames replay the scheduled
/// pending invocations, every one of them, in ascending sequence; the rest is client backlog
/// whose requests are not pending; no request identifier is queued twice.
pub open spec fn recovery_queue(k: KernelView, replay_len: int) -> bool {
    let q = k.queue;
    &&& 0 <= replay_len <= q.len()
    &&& forall|i: int| 0 <= i < replay_len ==> replay_frame(k, #[trigger] q[i])
    &&& forall|i: int, j: int| 0 <= i < j < replay_len ==> slot_sequence(k, #[trigger] q[i]) < slot_sequence(k, #[trigger] q[j])
    &&& forall|i: int| replay_len <= i < q.len() ==> (frame_request_id(#[trigger] q[i]) matches Some(id) ==> pending_slot(
        k.pending,
        id,
    ) is None)
    &&& forall|i: int, j: int| 0 <= i < j < q.len() && frame_request_id(#[trigger] q[i]) is Some ==> frame_request_id(q[i])
        != frame_request_id(#[trigger] q[j])
    &&& forall|m: int| 0 <= m < k.pending.len() && (#[trigger] k.pending[m]).1.scheduled is Some ==> exists|i: int|
        0 <= i < replay_len && frame_request_id(#[trigger] q[i]) == Some(k.pending[m].0)
}

/// The identifiers of the requests among the first `n` frames, in order.
pub open spec fn queue_ids(q: Seq<FrameView>, n: int) -> Seq<RequestIdView>
    decreases n,
{
    if n <= 0 {
        Seq::empty()
    } else {
        match frame_request_id(q[n - 1]) {
            Some(id) => queue_ids(q, n - 1).push(id),
            None => queue_ids(q, n - 1),
        }
    }
}

proof fn lemma_queue_ids_contains(q: Seq<FrameView>, n: int, id: RequestIdView)
    requires
        0 <= n <= q.len(),
    ensures
        queue_ids(q, n).contains(id) <==> exists|i: int| 0 <= i < n && frame_request_id(#[trigger] q[i]) == Some(id),
    decreases n,
{
    if n > 0 {
        lemma_queue_ids_contains(q, n - 1, id);
        if queue_ids(q, n).contains(id) {
            if !queue_ids(q, n - 1).contains(id) {
                assert(frame_request_id(q[n - 1]) == Some(id)) by {
                    let w = choose|w: int| 0 <= w < queue_ids(q, n).len() && queue_ids(q, n)[w] == id;
                    if frame_request_id(q[n - 1]) is None {
                        assert(queue_ids(q, n) == queue_ids(q, n - 1));
                        assert(queue_ids(q, n - 1).contains(id));
                    } else if w < queue_ids(q, n - 1).len() {
                        assert(queue_ids(q, n - 1)[w] == id);
                    }
                }
            }
        }
        if exists|i: int| 0 <= i < n && frame_request_id(#[trigger] q[i]) == Some(id) {
            let i = choose|i: int| 0 <= i < n && frame_request_id(#[trigger] q[i]) == Some(id);
            if i == n - 1 {
                assert(queue_ids(q, n) == queue_ids(q, n - 1).push(id));
                assert(queue_ids(q, n)[queue_ids(q, n - 1).len() as int] == id);
            } else {
                let c = queue_ids(q, n - 1);
                let w = choose|w: int| 0 <= w < c.len() && c[w] == id;
                match frame_request_id(q[n - 1]) {
                    Some(x) => assert(queue_ids(q, n)[w] == id),
                    None => {},
                }
            }
        }
    }
}

/// The scan state that the first `n` frames of a recovery queue leave.
pub open spec fn expected_scan(k: KernelView, replay_len: int, n: int) -> QueueScan {
    let m = if n < replay_len { n } else { replay_len };
    QueueScan {
        ids: queue_ids(k.queue, n),
        seen: queue_ids(k.queue, m),
        last: if m == 0 { None } else { Some(slot_sequence(k, k.queue[m - 1])) },
        backlog: n > replay_len,
        frames: k.queue.take(n),
    }
}

/// The snapshot's queued frames restore, in order, to the kernel's queue.
proof fn lemma_queue_prefix_restores(
    s: SnapshotView,
    k: KernelView,
    limits: SnapshotLimits,
    d: DocumentsView,
    replay_len: int,
    n: int,
)
    requires
        recovery_queue(k, replay_len),
        s.queued == k.queue.map_values(|f: FrameView| f.payload),
        0 <= n <= k.queue.len(),
        d.queued.len() == k.queue.len(),
        forall|i: int| 0 <= i < k.queue.len() ==> d.queued[i] == Ok::<crate::json::JsonView, Seq<char>>(
            (#[trigger] k.queue[i]).value,
        ),
        forall|i: int| 0 <= i < k.queue.len() ==> frame_sealed(#[trigger] k.queue[i]),
        forall|i: int| 0 <= i < k.queue.len() ==> (#[trigger] k.queue[i]).payload.len() <= limits.spec_max_frame_bytes(),
    ensures
        restore_queue_prefix(s, d, k.pending, limits, n) == Ok::<QueueScan, SnapshotErrorView>(
            expected_scan(k, replay_len, n),
        ),
    decreases n,
{
    let q = k.queue;
    if n == 0 {
        assert(q.take(0) =~= Seq::<FrameView>::empty());
    } else {
        lemma_queue_prefix_restores(s, k, limits, d, replay_len, n - 1);
        let st = expected_scan(k, replay_len, n - 1);
        let f = q[n - 1];
        assert(s.queued[n - 1] == f.payload);
        lemma_sealed_frame_parses(f);
        assert(q.take(n - 1).push(f) =~= q.take(n));
        match frame_request_id(f) {
            None => {
                assert(n - 1 >= replay_len);
            },
            Some(id) => {
                lemma_queue_ids_contains(q, n - 1, id);
                assert(!st.ids.contains(id)) by {
                    if st.ids.contains(id) {
                        let i = choose|i: int| 0 <= i < n - 1 && frame_request_id(#[trigger] q[i]) == Some(id);
                        assert(frame_request_id(q[i]) != frame_request_id(q[n - 1]));
                    }
                }
                if n - 1 < replay_len {
                    assert(replay_frame(k, q[n - 1]));
                    if n - 1 > 0 {
                        assert(slot_sequence(k, q[n - 2]) < slot_sequence(k, q[n - 1]));
                    }
                }
            },
        }
        assert(restore_queue_step(st, s.queued[n - 1], d.queued[n - 1], k.pending, limits) == Ok::<
            QueueScan,
            SnapshotErrorView,
        >(expected_scan(k, replay_len, n)));
    }
}

/// The kernel's public session agrees with its initialization seed and its pending
/// `initialize` invocations: at most one is pending, and without a seed the session is cold.
pub open spec fn session_consistent(k: KernelView) -> bool {
    let inits = k.pending.filter(|e: (RequestIdView, PendingView)| is_pending_initialize(e));
    &&& inits.len() <= 1
    &&& match k.seed {
        None => k.phase == SessionPhase::Cold && inits.len() == 0,
        Some(sd) => session_phase_valid(k.phase, sd, inits),
    }
}

/// The documents decode the seed's payloads, within `max_frame_bytes`, to the `initialize`
/// request and the `initialized` notification that the seed captured.
pub open spec fn seed_documents(k: KernelView, d: DocumentsView, max_frame_bytes: usize) -> bool {
    match k.seed {
        None => true,
        Some(sd) => {
            &&& !seed_exceeds(sd, max_frame_bytes)
            &&& d.initialize matches Some(doc) && (spec_parse_frame(sd.payload, doc) matches Ok(f) && seed_request_matches(
                f,
                sd,
            ))
            &&& seed_notification_check(sd, d) is Ok
        },
    }
}

/// The documents hold the decoded value of each payload that the snapshot records, position
/// for position.
pub open spec fn documents_decode(k: KernelView, d: DocumentsView) -> bool {
    &&& d.pending.len() == k.pending.len()
    &&& forall|i: int| 0 <= i < k.pending.len() ==> d.pending[i] == Ok::<crate::json::JsonView, Seq<char>>(
        (#[trigger] k.pending[i]).1.frame.value,
    )
    &&& d.queued.len() == k.queue.len()
    &&& forall|i: int| 0 <= i < k.queue.len() ==> d.queued[i] == Ok::<crate::json::JsonView, Seq<char>>(
        (#[trigger] k.queue[i]).value,
    )
}

/// The restoration limits admit the kernel: its pending invocations, queued frames, frame
/// sizes, and replay attempts are within them.
pub open spec fn limits_admit(k: KernelView, limits: SnapshotLimits) -> bool {
    &&& k.pending.len() <= limits.spec_max_pending()
    &&& k.queue.len() <= limits.spec_max_queued()
    &&& forall|i: int| 0 <= i < k.pending.len() ==> (#[trigger] k.pending[i]).1.frame.payload.len()
        <= limits.spec_max_frame_bytes() && k.pending[i].1.attempts <= limits.spec_max_replay_attempts()
    &&& forall|i: int| 0 <= i < k.queue.len() ==> (#[trigger] k.queue[i]).payload.len() <= limits.spec_max_frame_bytes()
}

/// Reexec continuity: a snapshot of a well-formed kernel, read back with the decodings of
/// its own payloads under limits that admit it, restores exactly that kernel: the public
/// phase and seed, every pending invocation with its execution state and replay accounting,
/// the recovery queue in order, and the next sequence.
pub proof fn lemma_snapshot_restores_the_kernel(
    k: KernelView,
    s: SnapshotView,
    limits: SnapshotLimits,
    d: DocumentsView,
    replay_len: int,
)
    requires
        kernel_wf(k),
        session_consistent(k),
        recovery_queue(k, replay_len),
        forall|i: int| 0 <= i < k.pending.len() ==> frame_sealed((#[trigger] k.pending[i]).1.frame),
        forall|i: int| 0 <= i < k.queue.len() ==> frame_sealed(#[trigger] k.queue[i]),
        snapshot_records(s, k),
        documents_decode(k, d),
        seed_documents(k, d, limits.spec_max_frame_bytes()),
        limits_admit(k, limits),
    ensures
        spec_restore(s, limits, d) == Ok::<KernelView, SnapshotErrorView>(k),
{
    let n = k.pending.len() as int;
    lemma_sorted_order(k.pending, n);
    assert(k.pending.take(n) =~= k.pending);
    assert(s.pending.len() == n);
    lemma_pending_prefix_restores(s, k, limits, d, n);
    let len = k.queue.len() as int;
    lemma_queue_prefix_restores(s, k, limits, d, replay_len, len);
    assert(k.queue.take(len) =~= k.queue);
    let st = expected_scan(k, replay_len, len);
    assert(st.seen == queue_ids(k.queue, replay_len));
    assert(!scheduled_absent(k.pending, st.seen)) by {
        if scheduled_absent(k.pending, st.seen) {
            let m = choose|m: int| 0 <= m < k.pending.len() && (#[trigger] k.pending[m]).1.scheduled is Some
                && !st.seen.contains(k.pending[m].0);
            let i = choose|i: int| 0 <= i < replay_len && frame_request_id(#[trigger] k.queue[i]) == Some(k.pending[m].0);
            lemma_queue_ids_contains(k.queue, replay_len, k.pending[m].0);
        }
    }
    assert(validate_session(k.phase, k.seed, k.pending, limits.spec_max_frame_bytes(), d) is Ok);
}

/// Whether every frame the kernel holds is sealed.
pub open spec fn frames_sealed(k: KernelView) -> bool {
    &&& forall|i: int| 0 <= i < k.pending.len() ==> frame_sealed((#[trigger] k.pending[i]).1.frame)
    &&& forall|i: int| 0 <= i < k.queue.len() ==> frame_sealed(#[trigger] k.queue[i])
}

/// Whether a kernel is one whose snapshot restores it: well formed, with its session
/// consistent, its frames sealed, and its queue a recovery queue whose first `replay_len` frames
/// replay scheduled invocations.
pub open spec fn restorable(k: KernelView, replay_len: int) -> bool {
    &&& kernel_wf(k)
    &&& session_consistent(k)
    &&& frames_sealed(k)
    &&& recovery_queue(k, replay_len)
}

/// The cold kernel is restorable.
pub proof fn lemma_cold_kernel_is_restorable()
    ensures
        restorable(cold_kernel(), 0),
{
    let k = cold_kernel();
    assert(k.pending.filter(|e: (RequestIdView, PendingView)| is_pending_initialize(e)) =~= Seq::empty());
}

/// Observing a sealed client frame keeps a kernel restorable.
pub proof fn lemma_observing_keeps_restorable(k: KernelView, replay_len: int, f: FrameView)
    requires
        restorable(k, replay_len),
        frame_sealed(f),
    ensures
        spec_observe_client_frame(k, f) matches Ok(after) ==> restorable(after, replay_len),
{
    super::laws::lemma_client_frames_keep_well_formed(k, f, 0);
}

/// Queueing a sealed client frame keeps a kernel restorable.
pub proof fn lemma_queueing_keeps_restorable(k: KernelView, replay_len: int, f: FrameView, capacity: usize)
    requires
        restorable(k, replay_len),
        frame_sealed(f),
    ensures
        spec_queue_client_frame(k, f, capacity) matches Ok(after) ==> restorable(after, replay_len),
{
    super::laws::lemma_client_frames_keep_well_formed(k, f, capacity);
    if let Ok(after) = spec_queue_client_frame(k, f, capacity) {
        let q = after.queue;
        assert(q == k.queue.push(f));
        assert forall|i: int| replay_len <= i < q.len() implies (frame_request_id(#[trigger] q[i]) matches Some(id)
            ==> pending_slot(after.pending, id) is None) by {
            if i == k.queue.len() {
                if let Some(id) = frame_request_id(f) {
                    if pending_slot(after.pending, id) is Some {
                        let j = choose|j: int| is_first_slot(after.pending, id, j);
                        assert(after.pending[j].0 == id);
                    }
                }
            } else {
                assert(q[i] == k.queue[i]);
            }
        }
        assert forall|i: int, j: int| 0 <= i < j < q.len() && frame_request_id(#[trigger] q[i]) is Some implies frame_request_id(q[i])
            != frame_request_id(#[trigger] q[j]) by {
            assert(q[i] == k.queue[i]);
            if j == k.queue.len() {
                if frame_request_id(q[i]) == frame_request_id(f) {
                    assert(is_request_for(k.queue[i], frame_request_id(f)->0));
                }
            } else {
                assert(q[j] == k.queue[j]);
            }
        }
        assert forall|i: int| 0 <= i < replay_len implies replay_frame(after, #[trigger] q[i]) by {
            assert(q[i] == k.queue[i]);
        }
        assert forall|i: int, j: int| 0 <= i < j < replay_len implies slot_sequence(after, #[trigger] q[i])
            < slot_sequence(after, #[trigger] q[j]) by {
            assert(q[i] == k.queue[i]);
            assert(q[j] == k.queue[j]);
        }
        assert forall|m: int| 0 <= m < after.pending.len() && (#[trigger] after.pending[m]).1.scheduled is Some implies exists|i: int|
            0 <= i < replay_len && frame_request_id(#[trigger] q[i]) == Some(after.pending[m].0) by {
            let i = choose|i: int| 0 <= i < replay_len && frame_request_id(#[trigger] k.queue[i]) == Some(k.pending[m].0);
            assert(q[i] == k.queue[i]);
        }
        assert forall|i: int| 0 <= i < q.len() implies frame_sealed(#[trigger] q[i]) by {
            if i < k.queue.len() {
                assert(q[i] == k.queue[i]);
            }
        }
    }
}

/// The pending `initialize` invocations of a pending list.
pub open spec fn pending_inits(ps: Seq<(RequestIdView, PendingView)>) -> Seq<(RequestIdView, PendingView)> {
    ps.filter(|e: (RequestIdView, PendingView)| is_pending_initialize(e))
}

/// What the session check reads of a pending `initialize`: its identifier and payload.
pub open spec fn init_key(e: (RequestIdView, PendingView)) -> (RequestIdView, Seq<u8>) {
    (e.0, e.1.frame.payload)
}

/// Replacing a pending entry by one with the same method, identifier and payload leaves the
/// pending `initialize` invocations as the session check reads them.
proof fn lemma_inits_update(ps: Seq<(RequestIdView, PendingView)>, i: int, e: (RequestIdView, PendingView))
    requires
        0 <= i < ps.len(),
        is_pending_initialize(e) == is_pending_initialize(ps[i]),
        init_key(e) == init_key(ps[i]),
    ensures
        pending_inits(ps.update(i, e)).len() == pending_inits(ps).len(),
        forall|j: int| 0 <= j < pending_inits(ps).len() ==> init_key(#[trigger] pending_inits(ps.update(i, e))[j])
            == init_key(pending_inits(ps)[j]),
    decreases ps.len(),
{
    reveal(Seq::filter);
    let ps2 = ps.update(i, e);
    if i == ps.len() - 1 {
        assert(ps2.drop_last() =~= ps.drop_last());
    } else {
        assert(ps2.drop_last() =~= ps.drop_last().update(i, e));
        lemma_inits_update(ps.drop_last(), i, e);
        assert(ps2.last() == ps.last());
    }
    let pred = |x: (RequestIdView, PendingView)| is_pending_initialize(x);
    let a = ps.drop_last().filter(pred);
    let b = ps2.drop_last().filter(pred);
    assert(a.len() == b.len());
    if pred(ps.last()) {
        assert forall|j: int| 0 <= j < pending_inits(ps).len() implies init_key(#[trigger] pending_inits(ps2)[j])
            == init_key(pending_inits(ps)[j]) by {
            if j < a.len() {
                assert(pending_inits(ps2)[j] == b[j]);
                assert(pending_inits(ps)[j] == a[j]);
            }
        }
    } else {
        assert forall|j: int| 0 <= j < pending_inits(ps).len() implies init_key(#[trigger] pending_inits(ps2)[j])
            == init_key(pending_inits(ps)[j]) by {
            assert(pending_inits(ps2)[j] == b[j]);
            assert(pending_inits(ps)[j] == a[j]);
        }
    }
}

/// Session consistency reads only the phase, the seed, and the pending `initialize`
/// invocations' identifiers and payloads.
proof fn lemma_session_consistent_same_inits(k: KernelView, after: KernelView)
    requires
        session_consistent(k),
        after.phase == k.phase,
        after.seed == k.seed,
        pending_inits(after.pending).len() == pending_inits(k.pending).len(),
        forall|j: int| 0 <= j < pending_inits(k.pending).len() ==> init_key(#[trigger] pending_inits(after.pending)[j])
            == init_key(pending_inits(k.pending)[j]),
    ensures
        session_consistent(after),
{
    if pending_inits(k.pending).len() > 0 {
        assert(init_key(pending_inits(after.pending)[0]) == init_key(pending_inits(k.pending)[0]));
    }
}

/// Pending lists with the same identifiers in the same places have the same first slots.
proof fn lemma_slots_follow_ids(ps: Seq<(RequestIdView, PendingView)>, ps2: Seq<(RequestIdView, PendingView)>, id: RequestIdView)
    requires
        ps2.len() == ps.len(),
        forall|m: int| 0 <= m < ps.len() ==> (#[trigger] ps2[m]).0 == ps[m].0,
    ensures
        pending_slot(ps2, id) == pending_slot(ps, id),
{
    assert forall|m: int| is_first_slot(ps2, id, m) <==> is_first_slot(ps, id, m) by {
        if is_first_slot(ps, id, m) {
            assert forall|a: int| 0 <= a < m implies (#[trigger] ps2[a]).0 != id by {
                assert(ps2[a].0 == ps[a].0);
            }
        }
        if is_first_slot(ps2, id, m) {
            assert forall|a: int| 0 <= a < m implies (#[trigger] ps[a]).0 != id by {
                assert(ps2[a].0 == ps[a].0);
            }
        }
    }
    if pending_slot(ps, id) is Some {
        let a = pending_slot(ps, id)->0;
        let b = choose|b: int| is_first_slot(ps2, id, b);
        lemma_first_slot_is_unique(ps, id, a, b);
    } else if pending_slot(ps2, id) is Some {
        let b = pending_slot(ps2, id)->0;
        assert(is_first_slot(ps, id, b));
    }
}

proof fn lemma_first_slot_is_unique(ps: Seq<(RequestIdView, PendingView)>, id: RequestIdView, i: int, j: int)
    requires
        is_first_slot(ps, id, i),
        is_first_slot(ps, id, j),
    ensures
        i == j,
{
    if i < j {
        assert(ps[i].0 != id);
    } else if j < i {
        assert(ps[j].0 != id);
    }
}

/// The replay prefix after taking the next dispatch: one shorter when a replay left the queue.
pub open spec fn replay_len_after_pop(k: KernelView, replay_len: int) -> int {
    match spec_pop_next_dispatch(k).0 {
        Ok(DispatchView::Replay(_)) => replay_len - 1,
        _ => replay_len,
    }
}

/// Taking the next dispatch keeps a kernel restorable, except when a replay's attempt counter
/// is already at its maximum.
pub proof fn lemma_dispatch_keeps_restorable(k: KernelView, replay_len: int)
    requires
        restorable(k, replay_len),
        spec_pop_next_dispatch(k).0 != Err::<DispatchView, HostRejection>(HostRejection::ReplayBudgetExhausted),
    ensures
        restorable(spec_pop_next_dispatch(k).1, replay_len_after_pop(k, replay_len)),
{
    super::laws::lemma_dispatch_keeps_well_formed(k);
    let after = spec_pop_next_dispatch(k).1;
    let rl2 = replay_len_after_pop(k, replay_len);
    if k.queue.len() > 0 {
        let head = k.queue[0];
        let q = k.queue;
        let q2 = after.queue;
        let slot = match frame_request_id(head) {
            Some(id) => pending_slot(k.pending, id),
            None => None,
        };
        if slot is None {
            if replay_len > 0 {
                assert(replay_frame(k, q[0]));
            }
            assert(q2 =~= q.drop_first());
            assert(after.pending == k.pending);
            assert forall|i: int| rl2 <= i < q2.len() implies (frame_request_id(#[trigger] q2[i]) matches Some(id)
                ==> pending_slot(after.pending, id) is None) by {
                assert(q2[i] == q[i + 1]);
            }
            assert forall|i: int, j: int| 0 <= i < j < q2.len() && frame_request_id(#[trigger] q2[i]) is Some implies frame_request_id(q2[i])
                != frame_request_id(#[trigger] q2[j]) by {
                assert(q2[i] == q[i + 1]);
                assert(q2[j] == q[j + 1]);
            }
            assert forall|i: int| 0 <= i < q2.len() implies frame_sealed(#[trigger] q2[i]) by {
                assert(q2[i] == q[i + 1]);
            }
        } else {
            let id = frame_request_id(head)->0;
            let j = slot->0;
            let p = k.pending[j].1;
            if p.scheduled == Some(crate::replay::RequestDisposition::Replay) && super::dispatch_is_lawful(
                p.knowledge,
                crate::replay::RequestDisposition::Replay,
            ) && p.attempts != u8::MAX {
                assert(is_first_slot(k.pending, id, j));
                if replay_len == 0 {
                    assert(frame_request_id(q[0]) matches Some(x) ==> pending_slot(k.pending, x) is None);
                }
                let e = after.pending[j];
                assert(after.pending == k.pending.update(j, e));
                assert(q2 =~= q.drop_first());
                assert forall|m: int| 0 <= m < k.pending.len() implies (#[trigger] after.pending[m]).0 == k.pending[m].0 by {}
                assert forall|x: RequestIdView| pending_slot(after.pending, x) == pending_slot(k.pending, x) by {
                    lemma_slots_follow_ids(k.pending, after.pending, x);
                }
                assert forall|m: int| 0 <= m < k.pending.len() implies (#[trigger] after.pending[m]).1.sequence
                    == k.pending[m].1.sequence by {}
                assert forall|i: int| 0 <= i < rl2 implies replay_frame(after, #[trigger] q2[i]) by {
                    assert(q2[i] == q[i + 1]);
                    assert(replay_frame(k, q[i + 1]));
                    assert(frame_request_id(q[0]) != frame_request_id(q[i + 1]));
                    let x = frame_request_id(q[i + 1])->0;
                    assert(pending_slot(after.pending, x) == pending_slot(k.pending, x));
                    let m = pending_slot(k.pending, x)->0;
                    assert(is_first_slot(k.pending, x, m));
                    assert(m != j);
                }
                assert forall|a: int, b: int| 0 <= a < b < rl2 implies slot_sequence(after, #[trigger] q2[a])
                    < slot_sequence(after, #[trigger] q2[b]) by {
                    assert(q2[a] == q[a + 1]);
                    assert(q2[b] == q[b + 1]);
                    assert(slot_sequence(k, q[a + 1]) < slot_sequence(k, q[b + 1]));
                    let xa = frame_request_id(q[a + 1])->0;
                    let xb = frame_request_id(q[b + 1])->0;
                    assert(pending_slot(after.pending, xa) == pending_slot(k.pending, xa));
                    assert(pending_slot(after.pending, xb) == pending_slot(k.pending, xb));
                    assert(replay_frame(k, q[a + 1]));
                    assert(replay_frame(k, q[b + 1]));
                }
                assert forall|i: int| rl2 <= i < q2.len() implies (frame_request_id(#[trigger] q2[i]) matches Some(x)
                    ==> pending_slot(after.pending, x) is None) by {
                    assert(q2[i] == q[i + 1]);
                    if let Some(x) = frame_request_id(q2[i]) {
                        assert(pending_slot(after.pending, x) == pending_slot(k.pending, x));
                    }
                }
                assert forall|a: int, b: int| 0 <= a < b < q2.len() && frame_request_id(#[trigger] q2[a]) is Some implies frame_request_id(q2[a])
                    != frame_request_id(#[trigger] q2[b]) by {
                    assert(q2[a] == q[a + 1]);
                    assert(q2[b] == q[b + 1]);
                }
                assert forall|m: int| 0 <= m < after.pending.len() && (#[trigger] after.pending[m]).1.scheduled is Some implies exists|i: int|
                    0 <= i < rl2 && frame_request_id(#[trigger] q2[i]) == Some(after.pending[m].0) by {
                    assert(m != j);
                    assert(after.pending[m] == k.pending[m]);
                    let i = choose|i: int| 0 <= i < replay_len && frame_request_id(#[trigger] q[i]) == Some(k.pending[m].0);
                    assert(k.pending[m].0 != k.pending[j].0);
                    assert(i != 0);
                    assert(q2[i - 1] == q[i]);
                }
                assert forall|i: int| 0 <= i < q2.len() implies frame_sealed(#[trigger] q2[i]) by {
                    assert(q2[i] == q[i + 1]);
                }
                assert forall|m: int| 0 <= m < after.pending.len() implies frame_sealed((#[trigger] after.pending[m]).1.frame) by {
                    assert(after.pending[m].1.frame == k.pending[m].1.frame);
                }
                lemma_inits_update(k.pending, j, e);
                lemma_session_consistent_same_inits(k, after);
            }
        }
    }
}

/// Appending a pending entry appends it to the pending `initialize` invocations when it is one.
proof fn lemma_inits_push(ps: Seq<(RequestIdView, PendingView)>, e: (RequestIdView, PendingView))
    ensures
        pending_inits(ps.push(e)) == if is_pending_initialize(e) {
            pending_inits(ps).push(e)
        } else {
            pending_inits(ps)
        },
{
    reveal(Seq::filter);
    assert(ps.push(e).drop_last() =~= ps);
}

/// Appending an entry for a new identifier leaves the first slots of the other identifiers.
proof fn lemma_slots_after_push(ps: Seq<(RequestIdView, PendingView)>, e: (RequestIdView, PendingView), x: RequestIdView)
    requires
        x != e.0,
    ensures
        pending_slot(ps.push(e), x) == pending_slot(ps, x),
{
    let ps2 = ps.push(e);
    assert forall|m: int| is_first_slot(ps2, x, m) <==> is_first_slot(ps, x, m) by {
        if is_first_slot(ps, x, m) {
            assert forall|a: int| 0 <= a < m implies (#[trigger] ps2[a]).0 != x by {
                assert(ps2[a] == ps[a]);
            }
            assert(ps2[m] == ps[m]);
        }
        if is_first_slot(ps2, x, m) {
            assert(m < ps.len());
            assert forall|a: int| 0 <= a < m implies (#[trigger] ps[a]).0 != x by {
                assert(ps2[a] == ps[a]);
            }
            assert(ps2[m] == ps[m]);
        }
    }
    if pending_slot(ps, x) is Some {
        let a = pending_slot(ps, x)->0;
        let b = choose|b: int| is_first_slot(ps2, x, b);
        lemma_first_slot_is_unique(ps, x, a, b);
    } else if pending_slot(ps2, x) is Some {
        let b = pending_slot(ps2, x)->0;
        assert(is_first_slot(ps, x, b));
    }
}

/// Beginning the first dispatch of a sealed client request keeps a kernel restorable.
pub proof fn lemma_first_dispatch_keeps_restorable(
    k: KernelView,
    replay_len: int,
    f: FrameView,
    contract: ReplayContract,
    capacity: usize,
)
    requires
        restorable(k, replay_len),
        frame_sealed(f),
    ensures
        spec_begin_request_dispatch(k, f, contract, capacity) matches Ok(after) ==> restorable(after, replay_len),
{
    super::laws::lemma_first_dispatch_keeps_well_formed(k, f, contract, capacity);
    if let Ok(after) = spec_begin_request_dispatch(k, f, contract, capacity) {
        let id = frame_request_id(f)->0;
        let e = after.pending.last();
        assert(after.pending == k.pending.push(e));
        assert(e.0 == id);
        assert(after.queue == k.queue);
        let q = k.queue;
        assert forall|i: int| 0 <= i < q.len() implies frame_request_id(#[trigger] q[i]) != Some(id) by {
            if frame_request_id(q[i]) == Some(id) {
                assert(is_request_for(q[i], id));
            }
        }
        assert forall|x: RequestIdView| x != id implies pending_slot(after.pending, x) == pending_slot(k.pending, x) by {
            lemma_slots_after_push(k.pending, e, x);
        }
        assert forall|i: int| 0 <= i < replay_len implies replay_frame(after, #[trigger] q[i]) by {
            assert(replay_frame(k, q[i]));
            let x = frame_request_id(q[i])->0;
            let m = pending_slot(k.pending, x)->0;
            assert(is_first_slot(k.pending, x, m));
            assert(after.pending[m] == k.pending[m]);
        }
        assert forall|a: int, b: int| 0 <= a < b < replay_len implies slot_sequence(after, #[trigger] q[a])
            < slot_sequence(after, #[trigger] q[b]) by {
            assert(replay_frame(k, q[a]));
            assert(replay_frame(k, q[b]));
            let ma = pending_slot(k.pending, frame_request_id(q[a])->0)->0;
            let mb = pending_slot(k.pending, frame_request_id(q[b])->0)->0;
            assert(is_first_slot(k.pending, frame_request_id(q[a])->0, ma));
            assert(is_first_slot(k.pending, frame_request_id(q[b])->0, mb));
            assert(after.pending[ma] == k.pending[ma]);
            assert(after.pending[mb] == k.pending[mb]);
        }
        assert forall|i: int| replay_len <= i < q.len() implies (frame_request_id(#[trigger] q[i]) matches Some(x)
            ==> pending_slot(after.pending, x) is None) by {}
        assert forall|m: int| 0 <= m < after.pending.len() && (#[trigger] after.pending[m]).1.scheduled is Some implies exists|i: int|
            0 <= i < replay_len && frame_request_id(#[trigger] q[i]) == Some(after.pending[m].0) by {
            assert(m < k.pending.len());
            assert(after.pending[m] == k.pending[m]);
        }
        assert forall|m: int| 0 <= m < after.pending.len() implies frame_sealed((#[trigger] after.pending[m]).1.frame) by {
            if m < k.pending.len() {
                assert(after.pending[m] == k.pending[m]);
            }
        }
        lemma_inits_push(k.pending, e);
        if is_pending_initialize(e) {
            assert(pending_inits(k.pending).len() == 0);
            assert(pending_inits(after.pending) =~= seq![e]);
        }
    }
}

/// Whether no request identifier is queued twice.
pub open spec fn queue_ids_distinct(q: Seq<FrameView>) -> bool {
    forall|i: int, j: int| 0 <= i < j < q.len() && frame_request_id(#[trigger] q[i]) is Some ==> frame_request_id(q[i])
        != frame_request_id(#[trigger] q[j])
}

/// Where the request carrying `id` sits in the queue.
pub open spec fn queue_position(q: Seq<FrameView>, id: RequestIdView) -> Option<int> {
    if exists|i: int| 0 <= i < q.len() && frame_request_id(#[trigger] q[i]) == Some(id) {
        Some(choose|i: int| 0 <= i < q.len() && frame_request_id(#[trigger] q[i]) == Some(id))
    } else {
        None
    }
}

/// Without duplicate identifiers, dropping the requests carrying `id` drops at most the one
/// frame at its position.
proof fn lemma_without_request_drops_one(q: Seq<FrameView>, id: RequestIdView)
    requires
        queue_ids_distinct(q),
    ensures
        without_request(q, id) == match queue_position(q, id) {
            Some(pos) => q.remove(pos),
            None => q,
        },
    decreases q.len(),
{
    reveal(Seq::filter);
    if q.len() > 0 {
        let d = q.drop_last();
        assert(queue_ids_distinct(d)) by {
            assert forall|i: int, j: int| 0 <= i < j < d.len() && frame_request_id(#[trigger] d[i]) is Some implies frame_request_id(d[i])
                != frame_request_id(#[trigger] d[j]) by {
                assert(d[i] == q[i]);
                assert(d[j] == q[j]);
            }
        }
        lemma_without_request_drops_one(d, id);
        let last = q.len() - 1;
        if frame_request_id(q[last]) == Some(id) {
            assert forall|i: int| 0 <= i < d.len() implies frame_request_id(#[trigger] d[i]) != Some(id) by {
                assert(d[i] == q[i]);
            }
            assert(queue_position(d, id) is None);
            let pos = queue_position(q, id)->0;
            assert(pos == last) by {
                if pos < last {
                    assert(frame_request_id(q[pos]) == frame_request_id(q[last]));
                }
            }
            assert(q.remove(last) =~= d);
        } else {
            assert(without_request(q, id) == without_request(d, id).push(q[last]));
            if queue_position(d, id) is Some {
                let pd = queue_position(d, id)->0;
                assert(d[pd] == q[pd]);
                let pos = queue_position(q, id)->0;
                assert(pos == pd) by {
                    if pos < pd {
                        assert(frame_request_id(q[pos]) == frame_request_id(q[pd]));
                    } else if pd < pos {
                        assert(pos != last);
                        assert(frame_request_id(q[pd]) == frame_request_id(q[pos]));
                    }
                }
                assert(d.remove(pd).push(q[last]) =~= q.remove(pd));
            } else {
                assert(queue_position(q, id) is None) by {
                    if queue_position(q, id) is Some {
                        let pos = queue_position(q, id)->0;
                        assert(pos != last);
                        assert(d[pos] == q[pos]);
                    }
                }
                assert(d.push(q[last]) =~= q);
            }
        }
    }
}

/// Removing a pending entry that is not an `initialize` leaves the pending `initialize`
/// invocations; removing one that is drops one of them.
proof fn lemma_inits_remove(ps: Seq<(RequestIdView, PendingView)>, i: int)
    requires
        0 <= i < ps.len(),
    ensures
        !is_pending_initialize(ps[i]) ==> pending_inits(ps.remove(i)) == pending_inits(ps),
        is_pending_initialize(ps[i]) ==> pending_inits(ps.remove(i)).len() + 1 == pending_inits(ps).len(),
    decreases ps.len(),
{
    reveal(Seq::filter);
    let ps2 = ps.remove(i);
    if i == ps.len() - 1 {
        assert(ps2 =~= ps.drop_last());
    } else {
        assert(ps2.drop_last() =~= ps.drop_last().remove(i));
        assert(ps2.last() == ps.last());
        lemma_inits_remove(ps.drop_last(), i);
    }
}

/// Removing the entry of one identifier shifts the first slots of the others past it.
proof fn lemma_slots_after_remove(ps: Seq<(RequestIdView, PendingView)>, i: int, x: RequestIdView)
    requires
        0 <= i < ps.len(),
        x != ps[i].0,
    ensures
        pending_slot(ps.remove(i), x) == match pending_slot(ps, x) {
            Some(m) => Some(if m < i {
                m
            } else {
                m - 1
            }),
            None => None::<int>,
        },
{
    let ps2 = ps.remove(i);
    let to = |m: int| if m < i { m } else { m + 1 };
    assert forall|m: int| 0 <= m < ps2.len() implies #[trigger] ps2[m] == ps[to(m)] by {}
    if pending_slot(ps, x) is Some {
        let m = pending_slot(ps, x)->0;
        assert(is_first_slot(ps, x, m));
        assert(m != i);
        let m2 = if m < i { m } else { m - 1 };
        assert(is_first_slot(ps2, x, m2)) by {
            assert(ps2[m2] == ps[m]);
            assert forall|a: int| 0 <= a < m2 implies (#[trigger] ps2[a]).0 != x by {
                assert(ps2[a] == ps[to(a)]);
            }
        }
        let b = choose|b: int| is_first_slot(ps2, x, b);
        lemma_first_slot_is_unique(ps2, x, m2, b);
    } else if pending_slot(ps2, x) is Some {
        let b = pending_slot(ps2, x)->0;
        assert(is_first_slot(ps2, x, b));
        assert(ps2[b] == ps[to(b)]);
        assert(is_first_slot(ps, x, to(b))) by {
            assert forall|a: int| 0 <= a < to(b) implies (#[trigger] ps[a]).0 != x by {
                if a < i {
                    assert(ps2[a] == ps[a]);
                } else if a > i {
                    assert(ps2[a - 1] == ps[a]);
                }
            }
        }
    }
}

/// The replay prefix after a completion: one shorter when the completed request's replay
/// frame was queued in it.
pub open spec fn replay_len_after_completion(q: Seq<FrameView>, id: RequestIdView, replay_len: int) -> int {
    match queue_position(q, id) {
        Some(pos) => if pos < replay_len {
            replay_len - 1
        } else {
            replay_len
        },
        None => replay_len,
    }
}

/// Dropping the pending invocation of `id` and its queued request keeps the queue a recovery
/// queue and every frame sealed.
#[verifier::rlimit(100)]
#[verifier::spinoff_prover]
proof fn lemma_removal_keeps_recovery_queue(k: KernelView, replay_len: int, id: RequestIdView, i: int, after: KernelView)
    requires
        kernel_wf(k),
        recovery_queue(k, replay_len),
        frames_sealed(k),
        is_first_slot(k.pending, id, i),
        pending_slot(k.pending, id) == Some(i),
        after.pending == k.pending.remove(i),
        after.queue == without_request(k.queue, id),
    ensures
        recovery_queue(after, replay_len_after_completion(k.queue, id, replay_len)),
        frames_sealed(after),
{
    {
        let q = k.queue;
        let q2 = after.queue;
        let rl2 = replay_len_after_completion(q, id, replay_len);
        lemma_without_request_drops_one(q, id);
        assert(after.pending == k.pending.remove(i));
        // Where each remaining frame came from.
        let pos = match queue_position(q, id) {
            Some(p) => p,
            None => q.len() as int,
        };
        if queue_position(q, id) is Some {
            assert(0 <= pos < q.len() && frame_request_id(q[pos]) == Some(id));
        }
        let from = |a: int| if a < pos { a } else { a + 1 };
        assert forall|a: int| 0 <= a < q2.len() implies #[trigger] q2[a] == q[from(a)] && 0 <= from(a) < q.len() && from(a) != pos by {}
        assert forall|a: int| 0 <= a < q2.len() implies frame_request_id(#[trigger] q2[a]) != Some(id) by {
            assert(q2[a] == q[from(a)]);
            if queue_position(q, id) is None {
                if frame_request_id(q[from(a)]) == Some(id) {
                    assert(exists|b: int| 0 <= b < q.len() && frame_request_id(#[trigger] q[b]) == Some(id));
                }
            }
        }
        assert forall|a: int| 0 <= a < q2.len() implies (a < rl2 <==> #[trigger] from(a) < replay_len) by {}
        assert forall|x: RequestIdView| x != id implies pending_slot(after.pending, x) == match pending_slot(k.pending, x) {
            Some(m) => Some(if m < i { m } else { m - 1 }),
            None => None::<int>,
        } by {
            lemma_slots_after_remove(k.pending, i, x);
        }
        assert forall|a: int| 0 <= a < rl2 implies replay_frame(after, #[trigger] q2[a]) by {
            assert(q2[a] == q[from(a)]);
            assert(replay_frame(k, q[from(a)]));
            let x = frame_request_id(q[from(a)])->0;
            let m = pending_slot(k.pending, x)->0;
            assert(is_first_slot(k.pending, x, m));
            assert(m != i);
            let m2 = if m < i { m } else { m - 1 };
            assert(after.pending[m2] == k.pending[m]);
        }
        assert forall|a: int, b: int| 0 <= a < b < rl2 implies slot_sequence(after, #[trigger] q2[a])
            < slot_sequence(after, #[trigger] q2[b]) by {
            assert(q2[a] == q[from(a)]);
            assert(q2[b] == q[from(b)]);
            assert(replay_frame(k, q[from(a)]));
            assert(replay_frame(k, q[from(b)]));
            assert(slot_sequence(k, q[from(a)]) < slot_sequence(k, q[from(b)]));
            let xa = frame_request_id(q[from(a)])->0;
            let xb = frame_request_id(q[from(b)])->0;
            let ma = pending_slot(k.pending, xa)->0;
            let mb = pending_slot(k.pending, xb)->0;
            assert(is_first_slot(k.pending, xa, ma));
            assert(is_first_slot(k.pending, xb, mb));
            assert(after.pending[if ma < i { ma } else { ma - 1 }] == k.pending[ma]);
            assert(after.pending[if mb < i { mb } else { mb - 1 }] == k.pending[mb]);
        }
        assert forall|a: int| rl2 <= a < q2.len() implies (frame_request_id(#[trigger] q2[a]) matches Some(x)
            ==> pending_slot(after.pending, x) is None) by {
            assert(q2[a] == q[from(a)]);
        }
        assert forall|a: int, b: int| 0 <= a < b < q2.len() && frame_request_id(#[trigger] q2[a]) is Some implies frame_request_id(q2[a])
            != frame_request_id(#[trigger] q2[b]) by {
            assert(q2[a] == q[from(a)]);
            assert(q2[b] == q[from(b)]);
        }
        assert forall|m: int| 0 <= m < after.pending.len() && (#[trigger] after.pending[m]).1.scheduled is Some implies exists|a: int|
            0 <= a < rl2 && frame_request_id(#[trigger] q2[a]) == Some(after.pending[m].0) by {
            let mo = if m < i { m } else { m + 1 };
            assert(after.pending[m] == k.pending[mo]);
            let b = choose|b: int| 0 <= b < replay_len && frame_request_id(#[trigger] q[b]) == Some(k.pending[mo].0);
            assert(k.pending[mo].0 != id);
            assert(b != pos);
            let a = if b < pos { b } else { b - 1 };
            assert(from(a) == b);
            assert(q2[a] == q[b]);
        }
        assert forall|a: int| 0 <= a < q2.len() implies frame_sealed(#[trigger] q2[a]) by {
            assert(q2[a] == q[from(a)]);
        }
        assert forall|m: int| 0 <= m < after.pending.len() implies frame_sealed((#[trigger] after.pending[m]).1.frame) by {
            let mo = if m < i { m } else { m + 1 };
            assert(after.pending[m] == k.pending[mo]);
        }
    }
}

/// Recording a terminal response keeps a kernel restorable.
pub proof fn lemma_completion_keeps_restorable(k: KernelView, replay_len: int, response: FrameView)
    requires
        restorable(k, replay_len),
    ensures
        spec_complete_response(k, response) matches Ok((after, _)) ==> restorable(
            after,
            replay_len_after_completion(k.queue, response.envelope->Response_id, replay_len),
        ),
{
    super::laws::lemma_completion_keeps_well_formed(k, response);
    if let Ok((after, _)) = spec_complete_response(k, response) {
        let id = response.envelope->Response_id;
        let i = pending_slot(k.pending, id)->0;
        assert(is_first_slot(k.pending, id, i));
        lemma_removal_keeps_recovery_queue(k, replay_len, id, i, after);
        lemma_inits_remove(k.pending, i);
    }
}

/// Resolving a held invocation with probe evidence keeps a kernel restorable, unless the
/// resolution removes a pending `initialize`.
pub proof fn lemma_probe_resolution_keeps_restorable(
    k: KernelView,
    replay_len: int,
    id: RequestIdView,
    resolution: crate::replay::ProbeResolution,
    max_attempts: u8,
)
    requires
        restorable(k, replay_len),
        !(pending_slot(k.pending, id) matches Some(i) && is_pending_initialize(k.pending[i])
            && super::spec_resolve_probe(k, id, resolution, max_attempts).1.pending.len() < k.pending.len()),
    ensures
        ({
            let (r, after) = super::spec_resolve_probe(k, id, resolution, max_attempts);
            restorable(after, if after.pending.len() < k.pending.len() {
                replay_len_after_completion(k.queue, id, replay_len)
            } else {
                replay_len
            })
        }),
{
    super::laws::lemma_probe_resolution_keeps_well_formed(k, id, resolution, max_attempts);
    let after = super::spec_resolve_probe(k, id, resolution, max_attempts).1;
    if pending_slot(k.pending, id) is Some {
        let i = pending_slot(k.pending, id)->0;
        assert(is_first_slot(k.pending, id, i));
        if after.pending.len() < k.pending.len() {
            lemma_removal_keeps_recovery_queue(k, replay_len, id, i, after);
            lemma_inits_remove(k.pending, i);
        } else if after != k {
            let e = after.pending[i];
            assert(after.pending == k.pending.update(i, e));
            assert forall|m: int| 0 <= m < k.pending.len() implies (#[trigger] after.pending[m]).0 == k.pending[m].0 by {}
            assert forall|x: RequestIdView| pending_slot(after.pending, x) == pending_slot(k.pending, x) by {
                lemma_slots_follow_ids(k.pending, after.pending, x);
            }
            let q = k.queue;
            assert forall|a: int| 0 <= a < replay_len implies replay_frame(after, #[trigger] q[a]) by {
                assert(replay_frame(k, q[a]));
            }
            assert forall|a: int, b: int| 0 <= a < b < replay_len implies slot_sequence(after, #[trigger] q[a])
                < slot_sequence(after, #[trigger] q[b]) by {
                assert(replay_frame(k, q[a]));
                assert(replay_frame(k, q[b]));
                assert(slot_sequence(k, q[a]) < slot_sequence(k, q[b]));
            }
            assert forall|m: int| 0 <= m < after.pending.len() && (#[trigger] after.pending[m]).1.scheduled is Some implies exists|a: int|
                0 <= a < replay_len && frame_request_id(#[trigger] q[a]) == Some(after.pending[m].0) by {
                assert(k.pending[m].1.scheduled is Some);
            }
            assert forall|m: int| 0 <= m < after.pending.len() implies frame_sealed((#[trigger] after.pending[m]).1.frame) by {
                assert(after.pending[m].1.frame == k.pending[m].1.frame);
            }
            lemma_inits_update(k.pending, i, e);
            lemma_session_consistent_same_inits(k, after);
        }
    }
}

/// Filtering a queue keeps its request identifiers distinct.
proof fn lemma_filter_keeps_ids_distinct(q: Seq<FrameView>, pred: spec_fn(FrameView) -> bool)
    requires
        queue_ids_distinct(q),
    ensures
        queue_ids_distinct(q.filter(pred)),
    decreases q.len(),
{
    reveal(Seq::filter);
    if q.len() > 0 {
        let d = q.drop_last();
        assert(queue_ids_distinct(d)) by {
            assert forall|i: int, j: int| 0 <= i < j < d.len() && frame_request_id(#[trigger] d[i]) is Some implies frame_request_id(d[i])
                != frame_request_id(#[trigger] d[j]) by {
                assert(d[i] == q[i]);
                assert(d[j] == q[j]);
            }
        }
        lemma_filter_keeps_ids_distinct(d, pred);
        let fd = d.filter(pred);
        if pred(q.last()) {
            let out = fd.push(q.last());
            assert forall|i: int, j: int| 0 <= i < j < out.len() && frame_request_id(#[trigger] out[i]) is Some implies frame_request_id(out[i])
                != frame_request_id(#[trigger] out[j]) by {
                if j == out.len() - 1 {
                    assert(out[i] == fd[i]);
                    assert(fd.contains(fd[i]));
                    d.lemma_filter_contains_rev(pred, fd[i]);
                    let b = choose|b: int| 0 <= b < d.len() && d[b] == fd[i];
                    assert(d[b] == q[b]);
                } else {
                    assert(out[i] == fd[i]);
                    assert(out[j] == fd[j]);
                }
            }
        }
    }
}

/// A sequence none of whose entries is a pending `initialize` has none among its filter.
proof fn lemma_no_inits(ps: Seq<(RequestIdView, PendingView)>)
    requires
        forall|i: int| 0 <= i < ps.len() ==> !is_pending_initialize(#[trigger] ps[i]),
    ensures
        pending_inits(ps).len() == 0,
    decreases ps.len(),
{
    reveal(Seq::filter);
    if ps.len() > 0 {
        assert forall|i: int| 0 <= i < ps.drop_last().len() implies !is_pending_initialize(#[trigger] ps.drop_last()[i]) by {
            assert(ps.drop_last()[i] == ps[i]);
        }
        lemma_no_inits(ps.drop_last());
        assert(!is_pending_initialize(ps[ps.len() - 1]));
    }
}

/// A sequence with exactly one pending `initialize`, at `j`, has just that one among its filter.
proof fn lemma_one_init(ps: Seq<(RequestIdView, PendingView)>, j: int)
    requires
        0 <= j < ps.len(),
        is_pending_initialize(ps[j]),
        forall|i: int| 0 <= i < ps.len() && i != j ==> !is_pending_initialize(#[trigger] ps[i]),
    ensures
        pending_inits(ps) == seq![ps[j]],
    decreases ps.len(),
{
    reveal(Seq::filter);
    let d = ps.drop_last();
    if j == ps.len() - 1 {
        assert forall|i: int| 0 <= i < d.len() implies !is_pending_initialize(#[trigger] d[i]) by {
            assert(d[i] == ps[i]);
        }
        lemma_no_inits(d);
        assert(pending_inits(d) =~= Seq::<(RequestIdView, PendingView)>::empty());
        assert(pending_inits(ps) =~= seq![ps[j]]);
    } else {
        assert forall|i: int| 0 <= i < d.len() && i != j implies !is_pending_initialize(#[trigger] d[i]) by {
            assert(d[i] == ps[i]);
        }
        assert(d[j] == ps[j]);
        lemma_one_init(d, j);
        assert(!is_pending_initialize(ps[ps.len() - 1]));
    }
}

/// What recovery keeps of each pending invocation: its identifier, frame and method, and a
/// schedule; the rebuilt queue is the kept frames, in order, then the retained client frames.
#[verifier::spinoff_prover]
proof fn lemma_recovery_layout(k: KernelView, budget: ReplayBudget)
    ensures
        ({
            let after = spec_requeue_pending_for_replay(k, budget).0;
            let retained = k.queue.filter(|f: FrameView| retained_after_loss(k.pending, f));
            &&& after.queue.len() == after.pending.len() + retained.len()
            &&& forall|a: int| 0 <= a < after.pending.len() ==> #[trigger] after.queue[a] == after.pending[a].1.frame
            &&& forall|a: int| 0 <= a < retained.len() ==> #[trigger] after.queue[after.pending.len() + a] == retained[a]
            &&& forall|m: int| 0 <= m < after.pending.len() ==> (#[trigger] after.pending[m]).1.scheduled is Some
            &&& forall|m: int| 0 <= m < after.pending.len() ==> exists|c: int|
                0 <= c < k.pending.len() && (#[trigger] after.pending[m]).0 == k.pending[c].0 && after.pending[m].1.frame
                    == k.pending[c].1.frame && after.pending[m].1.method == k.pending[c].1.method
        }),
{
    let lost = k.pending.map_values(|e: (RequestIdView, PendingView)| (e.0, after_loss(e.1)));
    let pred = |f: FrameView| retained_after_loss(k.pending, f);
    let retained = k.queue.filter(pred);
    super::laws::lemma_recovery_prefix(lost, lost.len() as int, retained.len(), budget);
    let acc = recovery_prefix(lost, lost.len() as int, retained.len(), budget);
    let after = spec_requeue_pending_for_replay(k, budget).0;
    assert(after.pending == acc.kept);
    assert(after.queue == acc.frames + retained);
    assert forall|m: int| 0 <= m < after.pending.len() implies exists|c: int|
        0 <= c < k.pending.len() && (#[trigger] after.pending[m]).0 == k.pending[c].0 && after.pending[m].1.frame
            == k.pending[c].1.frame && after.pending[m].1.method == k.pending[c].1.method by {
        let c = choose|c: int| 0 <= c < lost.len() && (#[trigger] acc.kept[m]).0 == lost[c].0 && acc.kept[m].1 == (PendingView {
            scheduled: acc.kept[m].1.scheduled,
            ..lost[c].1
        });
        assert(lost[c].0 == k.pending[c].0 && lost[c].1.frame == k.pending[c].1.frame && lost[c].1.method == k.pending[c].1.method);
    }
    assert forall|m: int| 0 <= m < after.pending.len() implies (#[trigger] after.pending[m]).1.scheduled is Some by {
        assert(acc.kept[m].1.scheduled is Some);
    }
    assert forall|a: int| 0 <= a < after.pending.len() implies #[trigger] after.queue[a] == after.pending[a].1.frame by {
        assert(acc.frames[a] == acc.kept[a].1.frame);
    }
}

/// Recovery after worker loss keeps a kernel restorable, unless it drops the pending
/// `initialize` of the handshake: its replay prefix is then the rebuilt replay queue.
#[verifier::rlimit(100)]
#[verifier::spinoff_prover]
pub proof fn lemma_recovery_keeps_restorable(k: KernelView, replay_len: int, budget: ReplayBudget)
    requires
        restorable(k, replay_len),
        k.phase == SessionPhase::Initializing ==> has_pending(
            spec_requeue_pending_for_replay(k, budget).0.pending,
            k.seed->0.id,
        ),
    ensures
        ({
            let after = spec_requeue_pending_for_replay(k, budget).0;
            restorable(after, after.pending.len() as int)
        }),
{
    super::laws::lemma_recovery_keeps_well_formed(k, budget);
    lemma_recovery_layout(k, budget);
    let pred = |f: FrameView| retained_after_loss(k.pending, f);
    let retained = k.queue.filter(pred);
    let after = spec_requeue_pending_for_replay(k, budget).0;
    let kept = after.pending;
    let q2 = after.queue;
    let rl2 = kept.len() as int;
    assert forall|a: int| 0 <= a < kept.len() implies pending_slot(kept, #[trigger] kept[a].0) == Some(a) by {
        assert(is_first_slot(kept, kept[a].0, a));
        let b = choose|b: int| is_first_slot(kept, kept[a].0, b);
        lemma_first_slot_is_unique(kept, kept[a].0, a, b);
    }
    assert forall|a: int| 0 <= a < rl2 implies replay_frame(after, #[trigger] q2[a]) by {
        assert(q2[a] == kept[a].1.frame);
        assert(pending_identity(kept[a]));
        assert(pending_slot(kept, kept[a].0) == Some(a));
    }
    assert forall|a: int, b: int| 0 <= a < b < rl2 implies slot_sequence(after, #[trigger] q2[a])
        < slot_sequence(after, #[trigger] q2[b]) by {
        assert(q2[a] == kept[a].1.frame);
        assert(q2[b] == kept[b].1.frame);
        assert(pending_identity(kept[a]));
        assert(pending_identity(kept[b]));
        assert(pending_slot(kept, kept[a].0) == Some(a));
        assert(pending_slot(kept, kept[b].0) == Some(b));
    }
    assert forall|m: int| 0 <= m < kept.len() implies has_pending(k.pending, #[trigger] kept[m].0) by {
        let c = choose|c: int| 0 <= c < k.pending.len() && (#[trigger] kept[m]).0 == k.pending[c].0 && kept[m].1.frame
            == k.pending[c].1.frame && kept[m].1.method == k.pending[c].1.method;
    }
    assert forall|a: int| rl2 <= a < q2.len() implies (frame_request_id(#[trigger] q2[a]) matches Some(x)
        ==> pending_slot(after.pending, x) is None) by {
        assert(q2[a] == retained[a - rl2]);
        k.queue.lemma_filter_pred(pred, a - rl2);
        if let Some(x) = frame_request_id(q2[a]) {
            if pending_slot(kept, x) is Some {
                let m = pending_slot(kept, x)->0;
                assert(is_first_slot(kept, x, m));
                assert(has_pending(k.pending, kept[m].0));
            }
        }
    }
    assert(queue_ids_distinct(k.queue));
    lemma_filter_keeps_ids_distinct(k.queue, pred);
    assert forall|a: int, b: int| 0 <= a < b < q2.len() && frame_request_id(#[trigger] q2[a]) is Some implies frame_request_id(q2[a])
        != frame_request_id(#[trigger] q2[b]) by {
        if b < rl2 {
            assert(q2[a] == kept[a].1.frame);
            assert(q2[b] == kept[b].1.frame);
            assert(pending_identity(kept[a]));
            assert(pending_identity(kept[b]));
        } else if a < rl2 {
            assert(q2[a] == kept[a].1.frame);
            assert(pending_identity(kept[a]));
            assert(has_pending(k.pending, kept[a].0));
            assert(q2[b] == retained[b - rl2]);
            k.queue.lemma_filter_pred(pred, b - rl2);
        } else {
            assert(q2[a] == retained[a - rl2]);
            assert(q2[b] == retained[b - rl2]);
        }
    }
    assert forall|m: int| 0 <= m < after.pending.len() && (#[trigger] after.pending[m]).1.scheduled is Some implies exists|a: int|
        0 <= a < rl2 && frame_request_id(#[trigger] q2[a]) == Some(after.pending[m].0) by {
        assert(q2[m] == kept[m].1.frame);
        assert(pending_identity(kept[m]));
    }
    assert forall|a: int| 0 <= a < q2.len() implies frame_sealed(#[trigger] q2[a]) by {
        if a < rl2 {
            assert(q2[a] == kept[a].1.frame);
            let c = choose|c: int| 0 <= c < k.pending.len() && (#[trigger] kept[a]).0 == k.pending[c].0 && kept[a].1.frame
                == k.pending[c].1.frame && kept[a].1.method == k.pending[c].1.method;
            assert(frame_sealed(k.pending[c].1.frame));
        } else {
            assert(q2[a] == retained[a - rl2]);
            assert(retained.contains(retained[a - rl2]));
            k.queue.lemma_filter_contains_rev(pred, retained[a - rl2]);
            let b = choose|b: int| 0 <= b < k.queue.len() && k.queue[b] == retained[a - rl2];
            assert(frame_sealed(k.queue[b]));
        }
    }
    assert forall|m: int| 0 <= m < kept.len() implies frame_sealed((#[trigger] kept[m]).1.frame) by {
        let c = choose|c: int| 0 <= c < k.pending.len() && (#[trigger] kept[m]).0 == k.pending[c].0 && kept[m].1.frame
            == k.pending[c].1.frame && kept[m].1.method == k.pending[c].1.method;
        assert(frame_sealed(k.pending[c].1.frame));
    }
    let inits = pending_inits(k.pending);
    // A kept `initialize` is the pending one of the handshake.
    assert forall|m: int| 0 <= m < kept.len() && is_pending_initialize(#[trigger] kept[m]) implies k.phase
        == SessionPhase::Initializing && kept[m].0 == k.seed->0.id && kept[m].1.frame.payload == k.seed->0.payload by {
        let c = choose|c: int| 0 <= c < k.pending.len() && (#[trigger] kept[m]).0 == k.pending[c].0 && kept[m].1.frame
            == k.pending[c].1.frame && kept[m].1.method == k.pending[c].1.method;
        assert(is_pending_initialize(k.pending[c]));
        k.pending.lemma_filter_contains(|e: (RequestIdView, PendingView)| is_pending_initialize(e), c);
        assert(inits.contains(k.pending[c]));
        assert(inits.len() > 0);
        assert(inits.len() == 1);
        assert(inits[0] == k.pending[c]);
    }
    if k.phase == SessionPhase::Initializing {
        let sd = k.seed->0;
        let j = choose|j: int| 0 <= j < kept.len() && (#[trigger] kept[j]).0 == sd.id;
        let c = choose|c: int| 0 <= c < k.pending.len() && (#[trigger] kept[j]).0 == k.pending[c].0 && kept[j].1.frame
            == k.pending[c].1.frame && kept[j].1.method == k.pending[c].1.method;
        assert(inits.len() == 1 && inits[0].0 == sd.id);
        assert(inits.contains(inits[0]));
        k.pending.lemma_filter_contains_rev(|e: (RequestIdView, PendingView)| is_pending_initialize(e), inits[0]);
        let c0 = choose|c0: int| 0 <= c0 < k.pending.len() && k.pending[c0] == inits[0];
        assert(c0 == c) by {
            if c0 != c {
                assert(k.pending[c0].0 == k.pending[c].0);
            }
        }
        k.pending.lemma_filter_pred(|e: (RequestIdView, PendingView)| is_pending_initialize(e), 0);
        assert(is_pending_initialize(kept[j]));
        assert forall|i: int| 0 <= i < kept.len() && i != j implies !is_pending_initialize(#[trigger] kept[i]) by {
            if is_pending_initialize(kept[i]) {
                assert(kept[i].0 == sd.id);
            }
        }
        lemma_one_init(kept, j);
        assert(pending_inits(kept)[0] == kept[j]);
    } else {
        assert forall|m: int| 0 <= m < kept.len() implies !is_pending_initialize(#[trigger] kept[m]) by {}
        lemma_no_inits(kept);
    }
}

/// One call of the continuity kernel's public interface.
pub enum KernelStep {
    /// `observe_client_frame` of a frame.
    Observe(FrameView),
    /// `queue_client_frame` of a frame under a capacity.
    Queue(FrameView, usize),
    /// `pop_next_dispatch`.
    Dispatch,
    /// `begin_request_dispatch` of a frame under a contract and a capacity.
    Begin(FrameView, ReplayContract, usize),
    /// `complete_response` of a response frame.
    Complete(FrameView),
    /// `requeue_pending_for_replay` under a budget.
    Recover(ReplayBudget),
    /// `resolve_probe` of a request with evidence and an attempt ceiling.
    Resolve(RequestIdView, crate::replay::ProbeResolution, u8),
}

/// The kernel after one call; a refused call leaves the kernel as the call's contract says.
pub open spec fn apply_step(k: KernelView, step: KernelStep) -> KernelView {
    match step {
        KernelStep::Observe(f) => match spec_observe_client_frame(k, f) {
            Ok(a) => a,
            Err(_) => k,
        },
        KernelStep::Queue(f, capacity) => match spec_queue_client_frame(k, f, capacity) {
            Ok(a) => a,
            Err(_) => k,
        },
        KernelStep::Dispatch => spec_pop_next_dispatch(k).1,
        KernelStep::Begin(f, contract, capacity) => match spec_begin_request_dispatch(k, f, contract, capacity) {
            Ok(a) => a,
            Err(_) => k,
        },
        KernelStep::Complete(f) => match spec_complete_response(k, f) {
            Ok((a, _)) => a,
            Err(_) => k,
        },
        KernelStep::Recover(budget) => spec_requeue_pending_for_replay(k, budget).0,
        KernelStep::Resolve(id, resolution, max_attempts) => super::spec_resolve_probe(k, id, resolution, max_attempts).1,
    }
}

/// Whether a call is one whose result a snapshot carries over: its frames are sealed, a
/// dispatch does not exhaust a replay's attempt counter, recovery during the `initialize`
/// handshake keeps the pending `initialize`, and a probe resolution does not drop one.
pub open spec fn carried_step(k: KernelView, step: KernelStep) -> bool {
    match step {
        KernelStep::Observe(f) => frame_sealed(f),
        KernelStep::Queue(f, _) => frame_sealed(f),
        KernelStep::Dispatch => spec_pop_next_dispatch(k).0 != Err::<DispatchView, HostRejection>(
            HostRejection::ReplayBudgetExhausted,
        ),
        KernelStep::Begin(f, _, _) => frame_sealed(f),
        KernelStep::Complete(_) => true,
        KernelStep::Recover(budget) => k.phase == SessionPhase::Initializing ==> has_pending(
            spec_requeue_pending_for_replay(k, budget).0.pending,
            k.seed->0.id,
        ),
        KernelStep::Resolve(id, resolution, max_attempts) => !(pending_slot(k.pending, id) matches Some(i)
            && is_pending_initialize(k.pending[i]) && super::spec_resolve_probe(k, id, resolution, max_attempts).1.pending.len()
            < k.pending.len()),
    }
}

/// The kernel that a sequence of calls reaches from the cold kernel.
pub open spec fn run_steps(steps: Seq<KernelStep>) -> KernelView
    decreases steps.len(),
{
    if steps.len() == 0 {
        cold_kernel()
    } else {
        apply_step(run_steps(steps.drop_last()), steps.last())
    }
}

/// Whether every call of a sequence is carried over from the kernel it meets.
pub open spec fn carried_steps(steps: Seq<KernelStep>) -> bool
    decreases steps.len(),
{
    if steps.len() == 0 {
        true
    } else {
        carried_steps(steps.drop_last()) && carried_step(run_steps(steps.drop_last()), steps.last())
    }
}

/// Every kernel reached from the cold kernel by carried calls is restorable.
pub proof fn lemma_reached_kernels_are_restorable(steps: Seq<KernelStep>)
    requires
        carried_steps(steps),
    ensures
        exists|replay_len: int| restorable(run_steps(steps), replay_len),
    decreases steps.len(),
{
    if steps.len() == 0 {
        lemma_cold_kernel_is_restorable();
    } else {
        lemma_reached_kernels_are_restorable(steps.drop_last());
        let k = run_steps(steps.drop_last());
        let rl = choose|replay_len: int| restorable(k, replay_len);
        match steps.last() {
            KernelStep::Observe(f) => {
                lemma_observing_keeps_restorable(k, rl, f);
            },
            KernelStep::Queue(f, capacity) => {
                lemma_queueing_keeps_restorable(k, rl, f, capacity);
            },
            KernelStep::Dispatch => {
                lemma_dispatch_keeps_restorable(k, rl);
                assert(restorable(run_steps(steps), replay_len_after_pop(k, rl)));
            },
            KernelStep::Begin(f, contract, capacity) => {
                lemma_first_dispatch_keeps_restorable(k, rl, f, contract, capacity);
            },
            KernelStep::Complete(f) => {
                lemma_completion_keeps_restorable(k, rl, f);
                if let Ok((a, _)) = spec_complete_response(k, f) {
                    assert(restorable(a, replay_len_after_completion(k.queue, f.envelope->Response_id, rl)));
                }
            },
            KernelStep::Recover(budget) => {
                lemma_recovery_keeps_restorable(k, rl, budget);
                let a = spec_requeue_pending_for_replay(k, budget).0;
                assert(restorable(a, a.pending.len() as int));
            },
            KernelStep::Resolve(id, resolution, max_attempts) => {
                lemma_probe_resolution_keeps_restorable(k, rl, id, resolution, max_attempts);
                let a = super::spec_resolve_probe(k, id, resolution, max_attempts).1;
                if a.pending.len() < k.pending.len() {
                    assert(restorable(a, replay_len_after_completion(k.queue, id, rl)));
                } else {
                    assert(restorable(a, rl));
                }
            },
        }
    }
}

/// Reexec continuity for every kernel the public calls reach: a snapshot of a kernel reached
/// from the cold kernel by carried calls, read back with the decodings of its own payloads
/// under limits that admit it, restores exactly that kernel.
pub proof fn lemma_reached_kernel_snapshot_restores(
    steps: Seq<KernelStep>,
    s: SnapshotView,
    limits: SnapshotLimits,
    d: DocumentsView,
)
    requires
        carried_steps(steps),
        snapshot_records(s, run_steps(steps)),
        documents_decode(run_steps(steps), d),
        seed_documents(run_steps(steps), d, limits.spec_max_frame_bytes()),
        limits_admit(run_steps(steps), limits),
    ensures
        spec_restore(s, limits, d) == Ok::<KernelView, SnapshotErrorView>(run_steps(steps)),
{
    lemma_reached_kernels_are_restorable(steps);
    let k = run_steps(steps);
    let rl = choose|replay_len: int| restorable(k, replay_len);
    lemma_snapshot_restores_the_kernel(k, s, limits, d, rl);
}

} // verus!

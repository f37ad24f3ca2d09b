//! Ledger laws: what every counter transition keeps.

use vstd::prelude::*;
use crate::fault::FaultView;
use crate::text::{lemma_seq_lt_irreflexive, lemma_seq_lt_total, lemma_seq_lt_transitive, seq_lt};
use super::{
    LedgerView, MethodLedgerView, empty_method, insert_method, is_method_slot, live_slot, method_slot,
    new_ledger, spec_record_latency, spec_record_recovery_error, spec_record_recovery_fault,
    spec_record_replay, spec_record_request, spec_record_response_error, spec_record_success,
    spec_replace_worker,
};

verus! {

/// Counter consistency of one method: every admitted request is in flight,
/// succeeded or failed, and every failure is a response or recovery error.
pub open spec fn method_balanced(e: MethodLedgerView) -> bool {
    &&& e.request_count == e.success_count + e.error_count + e.in_flight
    &&& e.error_count == e.response_error_count + e.recovery_error_count
}

/// Well-formed ledger: methods in strictly ascending order of their text,
/// balanced per-method counters, and total errors split into response and
/// recovery errors.
pub open spec fn ledger_wf(l: LedgerView) -> bool {
    &&& forall|i: int, j: int|
        0 <= i < j < l.methods.len() ==> seq_lt((#[trigger] l.methods[i]).0, (#[trigger] l.methods[j]).0)
    &&& forall|i: int| 0 <= i < l.methods.len() ==> method_balanced(#[trigger] l.methods[i].1)
    &&& l.totals.error_count == l.totals.response_error_count + l.totals.recovery_error_count
}

/// A fresh ledger is well formed.
pub proof fn lemma_new_ledger_is_well_formed(generation: u64)
    ensures
        ledger_wf(new_ledger(generation)),
{
}

proof fn lemma_insert_method_sorted(ms: Seq<(Seq<char>, MethodLedgerView)>, e: (Seq<char>, MethodLedgerView))
    requires
        forall|i: int, j: int| 0 <= i < j < ms.len() ==> seq_lt((#[trigger] ms[i]).0, (#[trigger] ms[j]).0),
        forall|i: int| 0 <= i < ms.len() ==> (#[trigger] ms[i]).0 != e.0,
    ensures
        insert_method(ms, e).len() == ms.len() + 1,
        forall|i: int, j: int|
            0 <= i < j < insert_method(ms, e).len() ==> seq_lt(
                (#[trigger] insert_method(ms, e)[i]).0,
                (#[trigger] insert_method(ms, e)[j]).0,
            ),
        forall|i: int|
            0 <= i < insert_method(ms, e).len() ==> #[trigger] insert_method(ms, e)[i] == e || exists|j: int|
                0 <= j < ms.len() && insert_method(ms, e)[i] == ms[j],
    decreases ms.len(),
{
    let r = insert_method(ms, e);
    if ms.len() == 0 {
    } else if seq_lt(e.0, ms[0].0) {
        assert(r =~= seq![e] + ms);
        assert forall|i: int, j: int| 0 <= i < j < r.len() implies seq_lt((#[trigger] r[i]).0, (#[trigger] r[j]).0) by {
            if i == 0 {
                if j > 1 {
                    lemma_seq_lt_transitive(e.0, ms[0].0, ms[j - 1].0);
                }
            }
        }
        assert forall|i: int| 0 <= i < r.len() implies #[trigger] r[i] == e || exists|j: int| 0 <= j < ms.len() && r[i] == ms[j] by {
            if i > 0 {
                assert(r[i] == ms[i - 1]);
            }
        }
    } else {
        let rest = ms.drop_first();
        assert forall|i: int, j: int| 0 <= i < j < rest.len() implies seq_lt((#[trigger] rest[i]).0, (#[trigger] rest[j]).0) by {
            assert(rest[i] == ms[i + 1]);
            assert(rest[j] == ms[j + 1]);
        }
        assert forall|i: int| 0 <= i < rest.len() implies (#[trigger] rest[i]).0 != e.0 by {
            assert(rest[i] == ms[i + 1]);
        }
        lemma_insert_method_sorted(rest, e);
        let tail = insert_method(rest, e);
        assert(r =~= seq![ms[0]] + tail);
        lemma_seq_lt_total(e.0, ms[0].0);
        assert forall|i: int| 0 <= i < tail.len() implies seq_lt(ms[0].0, (#[trigger] tail[i]).0) by {
            if tail[i] != e {
                let j = choose|j: int| 0 <= j < rest.len() && tail[i] == rest[j];
                assert(rest[j] == ms[j + 1]);
            }
        }
        assert forall|i: int, j: int| 0 <= i < j < r.len() implies seq_lt((#[trigger] r[i]).0, (#[trigger] r[j]).0) by {
            if i == 0 {
                assert(r[j] == tail[j - 1]);
            } else {
                assert(r[i] == tail[i - 1]);
                assert(r[j] == tail[j - 1]);
            }
        }
        assert forall|i: int| 0 <= i < r.len() implies #[trigger] r[i] == e || exists|j: int| 0 <= j < ms.len() && r[i] == ms[j] by {
            if i > 0 {
                assert(r[i] == tail[i - 1]);
                if tail[i - 1] != e {
                    let j = choose|j: int| 0 <= j < rest.len() && tail[i - 1] == rest[j];
                    assert(rest[j] == ms[j + 1]);
                }
            }
        }
    }
}

/// Admitting a request keeps the ledger well formed: a new method takes its
/// place in ascending order.
pub proof fn lemma_request_keeps_well_formed(l: LedgerView, m: Seq<char>)
    requires
        ledger_wf(l),
    ensures
        spec_record_request(l, m) matches Ok(after) ==> ledger_wf(after),
{
    if spec_record_request(l, m) is Ok {
        let after = spec_record_request(l, m)->Ok_0;
        if method_slot(l.methods, m) is None {
            assert forall|i: int| 0 <= i < l.methods.len() implies (#[trigger] l.methods[i]).0 != m by {
                if l.methods[i].0 == m {
                    assert(is_method_slot(l.methods, m, i) || exists|k: int| 0 <= k < i && l.methods[k].0 == m);
                    if !is_method_slot(l.methods, m, i) {
                        let k = choose|k: int| 0 <= k < i && l.methods[k].0 == m;
                        assert(exists|j: int| is_method_slot(l.methods, m, j)) by {
                            lemma_first_key(l.methods, m, k);
                        }
                    }
                }
            }
            let e2 = MethodLedgerView { request_count: (0 + 1) as u64, in_flight: (0 + 1) as u64, ..empty_method() };
            lemma_insert_method_sorted(l.methods, (m, e2));
            assert forall|i: int| 0 <= i < after.methods.len() implies super::laws::method_balanced(#[trigger] after.methods[i].1) by {
                if after.methods[i] != (m, e2) {
                    let j = choose|j: int| 0 <= j < l.methods.len() && after.methods[i] == l.methods[j];
                }
            }
        }
    }
}

/// Some first slot exists whenever a key occurs.
proof fn lemma_first_key(ms: Seq<(Seq<char>, MethodLedgerView)>, m: Seq<char>, k: int)
    requires
        0 <= k < ms.len(),
        ms[k].0 == m,
    ensures
        exists|j: int| is_method_slot(ms, m, j),
    decreases k,
{
    if forall|x: int| 0 <= x < k ==> (#[trigger] ms[x]).0 != m {
        assert(is_method_slot(ms, m, k));
    } else {
        let x = choose|x: int| 0 <= x < k && (#[trigger] ms[x]).0 == m;
        lemma_first_key(ms, m, x);
    }
}

/// Terminal outcomes, replays and faults keep the ledger well formed.
pub proof fn lemma_outcomes_keep_well_formed(
    l: LedgerView,
    m: Seq<char>,
    latency_ms: u64,
    detail: Seq<char>,
    fault_method: Option<Seq<char>>,
    fault: FaultView,
    generation: u64,
)
    requires
        ledger_wf(l),
    ensures
        spec_record_success(l, m, latency_ms) matches Ok(after) ==> ledger_wf(after),
        spec_record_response_error(l, m, latency_ms, detail) matches Ok(after) ==> ledger_wf(after),
        spec_record_recovery_error(l, m, detail) matches Ok(after) ==> ledger_wf(after),
        spec_record_recovery_fault(l, fault_method, fault) matches Ok(after) ==> ledger_wf(after),
        spec_record_replay(l, m) matches Ok(after) ==> ledger_wf(after),
        spec_replace_worker(l, generation) matches Ok(after) ==> ledger_wf(after),
{
}

/// Worker replacement preserves public-session totals and per-method
/// aggregates, and the generation strictly advances.
pub proof fn lemma_worker_replacement_preserves_session_totals(l: LedgerView, generation: u64)
    requires
        spec_replace_worker(l, generation) is Ok,
    ensures
        ({
            let after = spec_replace_worker(l, generation)->Ok_0;
            &&& after.totals == l.totals
            &&& after.methods == l.methods
            &&& after.consecutive_failures == l.consecutive_failures
            &&& after.last_fault == l.last_fault
            &&& after.generation == generation
            &&& after.generation > l.generation
            &&& after.restart_count == l.restart_count + 1
        }),
{
}

/// A retry is counted only when an invocation is actually redispatched:
/// admissions, terminal outcomes and faults leave every retry counter as it was.
pub proof fn lemma_only_replays_count_retries(
    l: LedgerView,
    m: Seq<char>,
    latency_ms: u64,
    detail: Seq<char>,
    fault_method: Option<Seq<char>>,
    fault: FaultView,
)
    ensures
        spec_record_request(l, m) matches Ok(after) ==> after.totals.retry_count == l.totals.retry_count,
        spec_record_success(l, m, latency_ms) matches Ok(after) ==> after.totals.retry_count
            == l.totals.retry_count,
        spec_record_response_error(l, m, latency_ms, detail) matches Ok(after) ==> after.totals.retry_count
            == l.totals.retry_count,
        spec_record_recovery_error(l, m, detail) matches Ok(after) ==> after.totals.retry_count
            == l.totals.retry_count,
        spec_record_recovery_fault(l, fault_method, fault) matches Ok(after) ==> after.totals.retry_count
            == l.totals.retry_count,
        spec_record_replay(l, m) matches Ok(after) ==> after.totals.retry_count == l.totals.retry_count + 1,
{
}

/// Consecutive failures count recovery-triggering faults since the last
/// terminal success: a success resets them, a fault adds one, and terminal
/// errors leave them unchanged.
pub proof fn lemma_consecutive_failures_track_faults_since_success(
    l: LedgerView,
    m: Seq<char>,
    latency_ms: u64,
    detail: Seq<char>,
    fault_method: Option<Seq<char>>,
    fault: FaultView,
)
    ensures
        spec_record_success(l, m, latency_ms) matches Ok(after) ==> after.consecutive_failures == 0,
        spec_record_recovery_fault(l, fault_method, fault) matches Ok(after) ==> after.consecutive_failures
            == l.consecutive_failures + 1 && after.last_fault == Some(fault),
        spec_record_response_error(l, m, latency_ms, detail) matches Ok(after) ==> after.consecutive_failures
            == l.consecutive_failures,
        spec_record_recovery_error(l, m, detail) matches Ok(after) ==> after.consecutive_failures
            == l.consecutive_failures,
{
}

/// Terminal recovery errors are distinct from recovery-triggering fault
/// incidents: each touches only its own counters.
pub proof fn lemma_recovery_errors_are_not_fault_incidents(
    l: LedgerView,
    m: Seq<char>,
    detail: Seq<char>,
    fault_method: Option<Seq<char>>,
    fault: FaultView,
)
    ensures
        spec_record_recovery_error(l, m, detail) matches Ok(after) ==> after.totals.recovery_fault_count
            == l.totals.recovery_fault_count && after.totals.error_count == l.totals.error_count + 1
            && after.totals.recovery_error_count == l.totals.recovery_error_count + 1,
        spec_record_recovery_fault(l, fault_method, fault) matches Ok(after) ==> after.totals.error_count
            == l.totals.error_count && after.totals.recovery_error_count == l.totals.recovery_error_count
            && after.totals.recovery_fault_count == l.totals.recovery_fault_count + 1,
{
}

/// Terminal outcomes and replays name only an invocation in flight.
pub proof fn lemma_outcomes_need_an_invocation_in_flight(l: LedgerView, m: Seq<char>, latency_ms: u64, detail: Seq<char>)
    requires
        live_slot(l.methods, m) is None,
    ensures
        spec_record_success(l, m, latency_ms) == Err::<LedgerView, super::MetricErrorView>(
            super::MetricErrorView::NoInFlightInvocation,
        ),
        spec_record_response_error(l, m, latency_ms, detail) == Err::<LedgerView, super::MetricErrorView>(
            super::MetricErrorView::NoInFlightInvocation,
        ),
        spec_record_recovery_error(l, m, detail) == Err::<LedgerView, super::MetricErrorView>(
            super::MetricErrorView::NoInFlightInvocation,
        ),
        spec_record_replay(l, m) == Err::<LedgerView, super::MetricErrorView>(
            super::MetricErrorView::NoInFlightInvocation,
        ),
{
}

} // verus!

//! Bounded, record-atomic JSONL telemetry: per-path aggregation and the log's byte bound.

use vstd::prelude::*;
use crate::text::{lemma_seq_lt_irreflexive, lemma_seq_lt_total, lemma_seq_lt_transitive, seq_lt, str_eq, text_lt};

verus! {

/// Largest telemetry log, in bytes.
pub const TELEMETRY_MAX_BYTES: u64 = 8388608;

/// Durability applied after each complete telemetry record.
#[derive(Debug, Clone, Copy, PartialEq, Eq, Structural)]
pub enum TelemetryFlushPolicy {
    /// Return after appending to the operating-system page cache.
    PageCache,
    /// Flush language-level buffering after each record.
    Flush,
    /// Request data durability from the operating system after each record.
    SyncData,
}

/// Tool completion outcome.
#[derive(Debug, Clone, Copy, PartialEq, Eq, Structural)]
pub enum ToolOutcome {
    /// The request completed successfully.
    Success,
    /// The request completed with an error.
    Error,
}

/// Serializable tool error detail.
#[derive(Debug, Clone, PartialEq, Eq)]
pub struct ToolErrorDetail {
    /// Error code when one exists.
    pub code: Option<i64>,
    /// Structured error kind.
    pub kind: Option<String>,
    /// Human-facing error message.
    pub message: Option<String>,
}

impl Default for ToolErrorDetail {
    fn default() -> (r: Self)
        ensures
            r.code is None && r.kind is None && r.message is None,
    {
        Self { code: None, kind: None, message: None }
    }
}

/// Why a telemetry record was refused.
#[derive(Debug, Clone, Copy, PartialEq, Eq, Structural)]
pub enum TelemetryError {
    /// The snapshot interval is zero.
    ZeroSnapshotInterval,
    /// The tool event counter is exhausted.
    EventCounterExhausted,
    /// A per-path request counter is exhausted.
    PathCounterExhausted,
    /// A per-path latency total is exhausted.
    LatencyTotalExhausted,
    /// A per-path error counter is exhausted.
    ErrorCounterExhausted,
    /// A record is larger than the whole log may be (the bound is carried).
    RecordTooLarge(u64),
    /// A path's average latency does not fit in `u64`.
    AverageLatencyExceeded,
}

/// Where a record goes in the bounded log.
#[derive(Debug, Clone, Copy, PartialEq, Eq, Structural)]
pub enum AppendPlan {
    /// Append after the existing records.
    Append,
    /// Empty the log first, then append.
    TruncateThenAppend,
}

/// A sum of byte counts, saturating at the largest `u64`.
pub open spec fn saturating_total(a: u64, b: u64) -> int {
    if a + b > u64::MAX {
        u64::MAX as int
    } else {
        a + b
    }
}

/// How a record of `record_bytes` joins a log of `log_bytes` bounded by `max_bytes`.
pub open spec fn spec_append_plan(record_bytes: u64, log_bytes: u64, max_bytes: u64) -> Result<AppendPlan, TelemetryError> {
    if record_bytes > max_bytes {
        Err(TelemetryError::RecordTooLarge(max_bytes))
    } else if saturating_total(log_bytes, record_bytes) > max_bytes {
        Ok(AppendPlan::TruncateThenAppend)
    } else {
        Ok(AppendPlan::Append)
    }
}

/// The log's size once a record is placed by a plan.
pub open spec fn bytes_after(plan: AppendPlan, log_bytes: u64, record_bytes: u64) -> int {
    match plan {
        AppendPlan::Append => log_bytes + record_bytes,
        AppendPlan::TruncateThenAppend => record_bytes as int,
    }
}

/// Decides how a record of `record_bytes` joins a log of `log_bytes` bounded by `max_bytes`:
/// a record larger than the bound is refused, and a record that would cross the bound
/// empties the log first, so the log never exceeds its bound.
pub fn append_plan(record_bytes: u64, log_bytes: u64, max_bytes: u64) -> (r: Result<AppendPlan, TelemetryError>)
    ensures
        r == spec_append_plan(record_bytes, log_bytes, max_bytes),
{
    if record_bytes > max_bytes {
        return Err(TelemetryError::RecordTooLarge(max_bytes));
    }
    let total = if log_bytes > u64::MAX - record_bytes {
        u64::MAX
    } else {
        log_bytes + record_bytes
    };
    if total > max_bytes {
        Ok(AppendPlan::TruncateThenAppend)
    } else {
        Ok(AppendPlan::Append)
    }
}

/// Request, error, and latency totals of one path.
#[derive(Debug, Clone, Copy, PartialEq, Eq, Structural)]
pub struct PathAggregate {
    /// Requests that named the path.
    pub request_count: u64,
    /// Those that failed.
    pub error_count: u64,
    /// Sum of their latencies, in milliseconds.
    pub total_latency_ms: u128,
    /// Largest latency, in milliseconds.
    pub max_latency_ms: u64,
}

/// The aggregate after one more completion of `latency_ms`, failed or not; `None` when a
/// counter would overflow.
pub open spec fn aggregate_after(a: PathAggregate, latency_ms: u64, is_error: bool) -> Option<PathAggregate> {
    if a.request_count == u64::MAX || a.total_latency_ms + latency_ms > u128::MAX || (is_error && a.error_count
        == u64::MAX) {
        None
    } else {
        Some(
            PathAggregate {
                request_count: (a.request_count + 1) as u64,
                error_count: if is_error { (a.error_count + 1) as u64 } else { a.error_count },
                total_latency_ms: (a.total_latency_ms + latency_ms) as u128,
                max_latency_ms: if latency_ms > a.max_latency_ms { latency_ms } else { a.max_latency_ms },
            },
        )
    }
}

/// Which counter one more completion would exhaust, checked in this order: requests, the
/// latency total, then errors.
pub open spec fn completion_refusal(a: PathAggregate, latency_ms: u64, is_error: bool) -> Option<TelemetryError> {
    if a.request_count == u64::MAX {
        Some(TelemetryError::PathCounterExhausted)
    } else if a.total_latency_ms + latency_ms > u128::MAX {
        Some(TelemetryError::LatencyTotalExhausted)
    } else if is_error && a.error_count == u64::MAX {
        Some(TelemetryError::ErrorCounterExhausted)
    } else {
        None
    }
}

/// Adds one completion to a path aggregate.
pub fn record_completion(a: PathAggregate, latency_ms: u64, is_error: bool) -> (r: Result<PathAggregate, TelemetryError>)
    ensures
        match completion_refusal(a, latency_ms, is_error) {
            Some(e) => r == Err::<PathAggregate, TelemetryError>(e),
            None => r == Ok::<PathAggregate, TelemetryError>(aggregate_after(a, latency_ms, is_error)->0),
        },
        aggregate_after(a, latency_ms, is_error) is None <==> completion_refusal(a, latency_ms, is_error) is Some,
{
    if a.request_count == u64::MAX {
        return Err(TelemetryError::PathCounterExhausted);
    }
    if a.total_latency_ms > u128::MAX - latency_ms as u128 {
        return Err(TelemetryError::LatencyTotalExhausted);
    }
    if is_error && a.error_count == u64::MAX {
        return Err(TelemetryError::ErrorCounterExhausted);
    }
    Ok(PathAggregate {
        request_count: a.request_count + 1,
        error_count: if is_error { a.error_count + 1 } else { a.error_count },
        total_latency_ms: a.total_latency_ms + latency_ms as u128,
        max_latency_ms: if latency_ms > a.max_latency_ms { latency_ms } else { a.max_latency_ms },
    })
}

/// Whether a hot-path snapshot follows the `emitted`th tool event.
pub fn snapshot_due(emitted: u64, snapshot_every: u64) -> (r: bool)
    requires
        snapshot_every > 0,
    ensures
        r == (emitted % snapshot_every == 0),
{
    emitted % snapshot_every == 0
}

/// The average latency of an aggregate; `None` when it exceeds `u64`.
pub fn average_latency(a: PathAggregate) -> (r: Option<u64>)
    ensures
        a.request_count == 0 ==> r == Some(0u64),
        a.request_count > 0 ==> (if a.total_latency_ms / (a.request_count as u128) <= u64::MAX {
            r == Some((a.total_latency_ms / (a.request_count as u128)) as u64)
        } else {
            r is None
        }),
{
    if a.request_count == 0 {
        return Some(0);
    }
    let avg = a.total_latency_ms / (a.request_count as u128);
    if avg > u64::MAX as u128 {
        None
    } else {
        Some(avg as u64)
    }
}

/// One path's row in a hot-path snapshot.
#[derive(Debug, Clone, PartialEq, Eq)]
pub struct HotPathLine {
    /// The path.
    pub path: String,
    /// Requests that named it.
    pub request_count: u64,
    /// Those that failed.
    pub error_count: u64,
    /// Average latency, in milliseconds.
    pub avg_latency_ms: u64,
    /// Largest latency, in milliseconds.
    pub max_latency_ms: u64,
}

/// A snapshot row as values.
pub struct LineView {
    pub path: Seq<char>,
    pub request_count: u64,
    pub error_count: u64,
    pub avg_latency_ms: u64,
    pub max_latency_ms: u64,
}

/// The view of a row.
pub open spec fn line_view(l: HotPathLine) -> LineView {
    LineView {
        path: l.path@,
        request_count: l.request_count,
        error_count: l.error_count,
        avg_latency_ms: l.avg_latency_ms,
        max_latency_ms: l.max_latency_ms,
    }
}

/// Whether row `a` ranks before row `b`: the hottest ranking puts more requests first, then
/// larger maximum latency; the slowest ranking puts larger average latency first, then more
/// requests; both then order paths ascending.
pub open spec fn ranks_before(a: LineView, b: LineView, hottest: bool) -> bool {
    if hottest {
        a.request_count > b.request_count || (a.request_count == b.request_count && (a.max_latency_ms
            > b.max_latency_ms || (a.max_latency_ms == b.max_latency_ms && seq_lt(a.path, b.path))))
    } else {
        a.avg_latency_ms > b.avg_latency_ms || (a.avg_latency_ms == b.avg_latency_ms && (a.request_count
            > b.request_count || (a.request_count == b.request_count && seq_lt(a.path, b.path))))
    }
}

/// Inserts a row into a ranking after every row it does not rank before.
pub open spec fn insert_ranked(sorted: Seq<LineView>, x: LineView, hottest: bool) -> Seq<LineView>
    decreases sorted.len(),
{
    if sorted.len() == 0 {
        seq![x]
    } else if ranks_before(x, sorted[0], hottest) {
        seq![x] + sorted
    } else {
        seq![sorted[0]] + insert_ranked(sorted.drop_first(), x, hottest)
    }
}

/// Rows ranked by insertion, in input order.
pub open spec fn ranked(rows: Seq<LineView>, hottest: bool) -> Seq<LineView>
    decreases rows.len(),
{
    if rows.len() == 0 {
        Seq::empty()
    } else {
        insert_ranked(ranked(rows.drop_last(), hottest), rows.last(), hottest)
    }
}

/// Whether a row ranks before another, as computed.
fn row_before(a: &HotPathLine, b: &HotPathLine, hottest: bool) -> (r: bool)
    ensures
        r == ranks_before(line_view(*a), line_view(*b), hottest),
{
    if hottest {
        a.request_count > b.request_count || (a.request_count == b.request_count && (a.max_latency_ms
            > b.max_latency_ms || (a.max_latency_ms == b.max_latency_ms && text_lt(a.path.as_str(), b.path.as_str()))))
    } else {
        a.avg_latency_ms > b.avg_latency_ms || (a.avg_latency_ms == b.avg_latency_ms && (a.request_count
            > b.request_count || (a.request_count == b.request_count && text_lt(a.path.as_str(), b.path.as_str()))))
    }
}

/// A copy of a row.
fn copy_line(l: &HotPathLine) -> (r: HotPathLine)
    ensures
        r == *l,
{
    HotPathLine {
        path: l.path.clone(),
        request_count: l.request_count,
        error_count: l.error_count,
        avg_latency_ms: l.avg_latency_ms,
        max_latency_ms: l.max_latency_ms,
    }
}

/// The views of rows.
pub open spec fn lines_view(v: Seq<HotPathLine>) -> Seq<LineView> {
    v.map_values(|l: HotPathLine| line_view(l))
}

proof fn lemma_insert_ranked_len(sorted: Seq<LineView>, x: LineView, hottest: bool)
    ensures
        insert_ranked(sorted, x, hottest).len() == sorted.len() + 1,
    decreases sorted.len(),
{
    if sorted.len() > 0 {
        lemma_insert_ranked_len(sorted.drop_first(), x, hottest);
    }
}

proof fn lemma_ranked_len(rows: Seq<LineView>, hottest: bool)
    ensures
        ranked(rows, hottest).len() == rows.len(),
    decreases rows.len(),
{
    if rows.len() > 0 {
        lemma_ranked_len(rows.drop_last(), hottest);
        lemma_insert_ranked_len(ranked(rows.drop_last(), hottest), rows.last(), hottest);
    }
}

/// Inserting at the first position whose row the new row ranks before.
proof fn lemma_insert_ranked_at(sorted: Seq<LineView>, x: LineView, hottest: bool, p: int)
    requires
        0 <= p <= sorted.len(),
        forall|k: int| 0 <= k < p ==> !ranks_before(x, #[trigger] sorted[k], hottest),
        p < sorted.len() ==> ranks_before(x, sorted[p], hottest),
    ensures
        insert_ranked(sorted, x, hottest) == sorted.take(p) + seq![x] + sorted.skip(p),
    decreases sorted.len(),
{
    if sorted.len() == 0 {
        assert(sorted.take(p) + seq![x] + sorted.skip(p) =~= seq![x]);
    } else if p == 0 {
        assert(sorted.take(p) + seq![x] + sorted.skip(p) =~= seq![x] + sorted);
    } else {
        assert forall|k: int| 0 <= k < p - 1 implies !ranks_before(x, #[trigger] sorted.drop_first()[k], hottest) by {
            assert(sorted.drop_first()[k] == sorted[k + 1]);
        }
        assert(!ranks_before(x, sorted[0], hottest));
        lemma_insert_ranked_at(sorted.drop_first(), x, hottest, p - 1);
        assert(seq![sorted[0]] + (sorted.drop_first().take(p - 1) + seq![x] + sorted.drop_first().skip(p - 1))
            =~= sorted.take(p) + seq![x] + sorted.skip(p));
    }
}

/// Ranks rows and keeps the first `keep`.
pub fn rank_lines(rows: Vec<HotPathLine>, hottest: bool, keep: usize) -> (r: Vec<HotPathLine>)
    ensures
        lines_view(r@) == top(ranked(lines_view(rows@), hottest), keep as int),
{
    proof {
        lemma_ranked_len(lines_view(rows@), hottest);
    }
    let mut out: Vec<HotPathLine> = Vec::new();
    let mut i: usize = 0;
    while i < rows.len()
        invariant
            i <= rows.len(),
            lines_view(out@) == ranked(lines_view(rows@).take(i as int), hottest),
            out@.len() == i,
        decreases rows.len() - i,
    {
        let row = copy_line(&rows[i]);
        let mut p: usize = 0;
        while p < out.len() && !row_before(&row, &out[p], hottest)
            invariant
                p <= out.len(),
                forall|k: int| 0 <= k < p ==> !ranks_before(line_view(row), #[trigger] lines_view(out@)[k], hottest),
            decreases out.len() - p,
        {
            p += 1;
        }
        let ghost before = lines_view(out@);
        proof {
            lemma_insert_ranked_at(before, line_view(row), hottest, p as int);
            let t = lines_view(rows@).take(i + 1);
            assert(t.drop_last() =~= lines_view(rows@).take(i as int));
            assert(t.last() == line_view(row));
        }
        out.insert(p, row);
        assert(lines_view(out@) =~= before.take(p as int) + seq![line_view(row)] + before.skip(p as int));
        i += 1;
    }
    assert(lines_view(rows@).take(i as int) =~= lines_view(rows@));
    let n = if keep < out.len() { keep } else { out.len() };
    let mut kept: Vec<HotPathLine> = Vec::new();
    let mut j: usize = 0;
    while j < n
        invariant
            j <= n <= out@.len(),
            kept@.len() == j,
            lines_view(kept@) == lines_view(out@).take(j as int),
        decreases n - j,
    {
        let ghost prev = kept@;
        kept.push(copy_line(&out[j]));
        assert(kept@ == prev.push(out@[j as int]));
        assert forall|k: int| 0 <= k < j + 1 implies #[trigger] lines_view(kept@)[k] == lines_view(out@)[k] by {
            if k < j {
                assert(lines_view(prev)[k] == lines_view(out@).take(j as int)[k]);
                assert(kept@[k] == prev[k]);
            } else {
                assert(kept@[k] == out@[k]);
            }
        }
        assert(lines_view(kept@) =~= lines_view(out@).take(j + 1));
        j += 1;
    }
    kept
}

/// Rows kept in each ranking of a hot-path snapshot.
pub const HOT_PATH_ROWS: usize = 12;

/// The snapshot row of a path with its totals; `None` when its average latency does not fit
/// in `u64`.
pub open spec fn line_of(path: Seq<char>, a: PathAggregate) -> Option<LineView> {
    if a.request_count > 0 && a.total_latency_ms / (a.request_count as u128) > u64::MAX {
        None
    } else {
        Some(
            LineView {
                path,
                request_count: a.request_count,
                error_count: a.error_count,
                avg_latency_ms: if a.request_count == 0 {
                    0
                } else {
                    (a.total_latency_ms / (a.request_count as u128)) as u64
                },
                max_latency_ms: a.max_latency_ms,
            },
        )
    }
}

/// The snapshot row of a path.
fn hot_path_line(path: &String, a: &PathAggregate) -> (r: Result<HotPathLine, TelemetryError>)
    ensures
        match line_of(path@, *a) {
            Some(l) => r matches Ok(row) && line_view(row) == l,
            None => r == Err::<HotPathLine, TelemetryError>(TelemetryError::AverageLatencyExceeded),
        },
{
    match average_latency(*a) {
        None => Err(TelemetryError::AverageLatencyExceeded),
        Some(avg) => Ok(
            HotPathLine {
                path: path.clone(),
                request_count: a.request_count,
                error_count: a.error_count,
                avg_latency_ms: avg,
                max_latency_ms: a.max_latency_ms,
            },
        ),
    }
}

/// The per-path totals that a sequence of distinct entries holds.
pub open spec fn aggregates_map(s: Seq<(String, PathAggregate)>) -> Map<Seq<char>, PathAggregate>
    decreases s.len(),
{
    if s.len() == 0 {
        Map::empty()
    } else {
        aggregates_map(s.drop_last()).insert(s.last().0@, s.last().1)
    }
}

/// No path occurs twice among the entries.
pub open spec fn distinct_paths(s: Seq<(String, PathAggregate)>) -> bool {
    forall|i: int, j: int| 0 <= i < j < s.len() ==> (#[trigger] s[i]).0@ != (#[trigger] s[j]).0@
}

/// The totals of a path, zero for a path not seen yet.
pub open spec fn aggregate_or_zero(m: Map<Seq<char>, PathAggregate>, p: Seq<char>) -> PathAggregate {
    if m.dom().contains(p) {
        m[p]
    } else {
        PathAggregate { request_count: 0, error_count: 0, total_latency_ms: 0, max_latency_ms: 0 }
    }
}

proof fn lemma_aggregates_lookup(s: Seq<(String, PathAggregate)>, i: int)
    requires
        distinct_paths(s),
        0 <= i < s.len(),
    ensures
        aggregates_map(s).dom().contains(s[i].0@),
        aggregates_map(s)[s[i].0@] == s[i].1,
    decreases s.len(),
{
    if i < s.len() - 1 {
        assert(s.drop_last()[i] == s[i]);
        assert(s[i].0@ != s[s.len() - 1].0@);
        lemma_aggregates_lookup(s.drop_last(), i);
    }
}

proof fn lemma_aggregates_absent(s: Seq<(String, PathAggregate)>, p: Seq<char>)
    requires
        forall|i: int| 0 <= i < s.len() ==> (#[trigger] s[i]).0@ != p,
    ensures
        !aggregates_map(s).dom().contains(p),
    decreases s.len(),
{
    if s.len() > 0 {
        assert(s[s.len() - 1].0@ != p);
        assert forall|i: int| 0 <= i < s.drop_last().len() implies (#[trigger] s.drop_last()[i]).0@ != p by {
            assert(s.drop_last()[i] == s[i]);
        }
        lemma_aggregates_absent(s.drop_last(), p);
    }
}

proof fn lemma_aggregates_update(s: Seq<(String, PathAggregate)>, i: int, e: (String, PathAggregate))
    requires
        distinct_paths(s),
        0 <= i < s.len(),
        e.0@ == s[i].0@,
    ensures
        aggregates_map(s.update(i, e)) == aggregates_map(s).insert(e.0@, e.1),
        distinct_paths(s.update(i, e)),
    decreases s.len(),
{
    let t = s.update(i, e);
    assert forall|a: int, b: int| 0 <= a < b < t.len() implies (#[trigger] t[a]).0@ != (#[trigger] t[b]).0@ by {
        assert(s[a].0@ != s[b].0@);
    }
    if i == s.len() - 1 {
        assert(t.drop_last() =~= s.drop_last());
        assert(aggregates_map(t) =~= aggregates_map(s).insert(e.0@, e.1));
    } else {
        assert(t.drop_last() =~= s.drop_last().update(i, e));
        assert(t.last() == s.last());
        assert(s.drop_last()[i] == s[i]);
        assert(s[i].0@ != s[s.len() - 1].0@);
        assert forall|a: int, b: int| 0 <= a < b < s.drop_last().len() implies (#[trigger] s.drop_last()[a]).0@ != (
        #[trigger] s.drop_last()[b]).0@ by {
            assert(s[a].0@ != s[b].0@);
        }
        lemma_aggregates_update(s.drop_last(), i, e);
        assert(aggregates_map(t) =~= aggregates_map(s).insert(e.0@, e.1));
    }
}

/// What one tool completion will change once its record is written: the event count after
/// it, and the path totals it updates.
#[derive(Debug, Clone, PartialEq, Eq)]
pub struct PendingCompletion {
    /// Tool events emitted once this one is.
    pub next_emitted: u64,
    /// The path named by the completion, with its totals after it.
    pub updated: Option<(String, PathAggregate)>,
}

/// The counters behind the telemetry log: tool events emitted, per-path totals, and the
/// snapshot interval.
#[derive(Debug)]
pub struct TelemetryState {
    by_path: Vec<(String, PathAggregate)>,
    emitted_tool_events: u64,
    snapshot_every: u64,
}

/// A hot-path snapshot: the hottest and the slowest paths, and the events counted so far.
#[derive(Debug, Clone, PartialEq, Eq)]
pub struct HotPathsSnapshot {
    /// Tool events emitted so far.
    pub total_tool_events: u64,
    /// Paths by request count, then largest latency, then path.
    pub hottest_paths: Vec<HotPathLine>,
    /// Requested paths by average latency, then request count, then path.
    pub slowest_paths: Vec<HotPathLine>,
}

/// The snapshot rows of the entries, in entry order, keeping only requested paths when
/// `requested_only`; `None` when a row cannot be formed.
pub open spec fn lines_of(s: Seq<(String, PathAggregate)>, requested_only: bool) -> Option<Seq<LineView>>
    decreases s.len(),
{
    if s.len() == 0 {
        Some(Seq::empty())
    } else {
        match lines_of(s.drop_last(), requested_only) {
            None => None,
            Some(prefix) => if requested_only && s.last().1.request_count == 0 {
                Some(prefix)
            } else {
                match line_of(s.last().0@, s.last().1) {
                    None => None,
                    Some(l) => Some(prefix.push(l)),
                }
            },
        }
    }
}

/// The first `n` rows of a ranking, or all of them.
pub open spec fn top(rows: Seq<LineView>, n: int) -> Seq<LineView> {
    if n < rows.len() {
        rows.take(n)
    } else {
        rows
    }
}

impl TelemetryState {
    /// The path entries, in the order paths were first seen.
    pub closed spec fn entries(&self) -> Seq<(String, PathAggregate)> {
        self.by_path@
    }

    /// Per-path totals.
    pub closed spec fn aggregates(&self) -> Map<Seq<char>, PathAggregate> {
        aggregates_map(self.by_path@)
    }

    /// Tool events emitted.
    pub closed spec fn emitted(&self) -> u64 {
        self.emitted_tool_events
    }

    /// Events between snapshots.
    pub closed spec fn interval(&self) -> u64 {
        self.snapshot_every
    }

    #[verifier::type_invariant]
    closed spec fn wf(&self) -> bool {
        &&& self.snapshot_every > 0
        &&& distinct_paths(self.by_path@)
    }

    /// Starts counting with a snapshot every `snapshot_every` events; a zero interval is
    /// refused.
    pub fn new(snapshot_every: u64) -> (r: Result<Self, TelemetryError>)
        ensures
            snapshot_every == 0 ==> r == Err::<Self, TelemetryError>(TelemetryError::ZeroSnapshotInterval),
            snapshot_every > 0 ==> (r matches Ok(t) && t.emitted() == 0 && t.interval() == snapshot_every
                && t.entries().len() == 0 && t.aggregates() == Map::<Seq<char>, PathAggregate>::empty()),
    {
        if snapshot_every == 0 {
            return Err(TelemetryError::ZeroSnapshotInterval);
        }
        let t = TelemetryState { by_path: Vec::new(), emitted_tool_events: 0, snapshot_every };
        proof {
            assert(aggregates_map(t.by_path@) =~= Map::<Seq<char>, PathAggregate>::empty());
        }
        Ok(t)
    }

    /// Tool events emitted so far.
    pub fn emitted_tool_events(&self) -> (r: u64)
        ensures
            r == self.emitted(),
    {
        self.emitted_tool_events
    }

    /// Where a path's entry stands.
    fn position(&self, path: &str) -> (r: Option<usize>)
        ensures
            match r {
                Some(i) => i < self.by_path@.len() && self.by_path@[i as int].0@ == path@,
                None => forall|i: int| 0 <= i < self.by_path@.len() ==> (#[trigger] self.by_path@[i]).0@ != path@,
            },
    {
        let mut i: usize = 0;
        while i < self.by_path.len()
            invariant
                i <= self.by_path@.len(),
                forall|k: int| 0 <= k < i ==> (#[trigger] self.by_path@[k]).0@ != path@,
            decreases self.by_path.len() - i,
        {
            if str_eq(self.by_path[i].0.as_str(), path) {
                return Some(i);
            }
            i += 1;
        }
        None
    }

    /// Prepares one tool completion of `latency_ms`, failed or not, naming `path_hint`: the
    /// event count after it and the path's totals after it; refused, changing nothing, when
    /// a counter would be exhausted (the event counter is checked first).
    pub fn prepare_completion(&self, path_hint: Option<&str>, latency_ms: u64, is_error: bool) -> (r: Result<
        PendingCompletion,
        TelemetryError,
    >)
        ensures
            self.emitted() == u64::MAX ==> r == Err::<PendingCompletion, TelemetryError>(
                TelemetryError::EventCounterExhausted,
            ),
            self.emitted() < u64::MAX ==> match path_hint {
                None => r == Ok::<PendingCompletion, TelemetryError>(
                    PendingCompletion { next_emitted: (self.emitted() + 1) as u64, updated: None },
                ),
                Some(p) => {
                    let before = aggregate_or_zero(self.aggregates(), p@);
                    match completion_refusal(before, latency_ms, is_error) {
                        Some(e) => r == Err::<PendingCompletion, TelemetryError>(e),
                        None => r matches Ok(pending) && (pending.next_emitted == self.emitted() + 1
                            && (pending.updated matches Some(u) && (u.0@ == p@ && u.1 == aggregate_after(
                            before,
                            latency_ms,
                            is_error,
                        )->0))),
                    }
                },
            },
    {
        proof {
            use_type_invariant(self);
        }
        if self.emitted_tool_events == u64::MAX {
            return Err(TelemetryError::EventCounterExhausted);
        }
        let next_emitted = self.emitted_tool_events + 1;
        match path_hint {
            None => Ok(PendingCompletion { next_emitted, updated: None }),
            Some(p) => {
                let before = match self.position(p) {
                    Some(i) => {
                        proof {
                            lemma_aggregates_lookup(self.by_path@, i as int);
                        }
                        self.by_path[i].1
                    },
                    None => {
                        proof {
                            lemma_aggregates_absent(self.by_path@, p@);
                        }
                        PathAggregate { request_count: 0, error_count: 0, total_latency_ms: 0, max_latency_ms: 0 }
                    },
                };
                match record_completion(before, latency_ms, is_error) {
                    Err(e) => Err(e),
                    Ok(after) => Ok(PendingCompletion { next_emitted, updated: Some((p.to_string(), after)) }),
                }
            },
        }
    }

    /// Applies a completion whose record was written: the event count becomes the pending
    /// one, the path's totals are replaced, and the result says whether a hot-path snapshot
    /// is due.
    pub fn commit_completion(&mut self, pending: PendingCompletion) -> (due: bool)
        ensures
            final(self).emitted() == pending.next_emitted,
            final(self).interval() == old(self).interval(),
            final(self).aggregates() == match pending.updated {
                None => old(self).aggregates(),
                Some(u) => old(self).aggregates().insert(u.0@, u.1),
            },
            due == (pending.next_emitted % old(self).interval() == 0),
    {
        proof {
            use_type_invariant(&*self);
        }
        match pending.updated {
            None => {},
            Some(u) => {
                let ghost key = u.0@;
                let pos = self.position(u.0.as_str());
                let mut entries: Vec<(String, PathAggregate)> = Vec::new();
                std::mem::swap(&mut entries, &mut self.by_path);
                let ghost before = entries@;
                match pos {
                    Some(i) => {
                        proof {
                            lemma_aggregates_update(before, i as int, u);
                        }
                        entries.set(i, u);
                    },
                    None => {
                        entries.push(u);
                        proof {
                            assert(entries@.drop_last() =~= before);
                            assert forall|a: int, b: int| 0 <= a < b < entries@.len() implies (
                            #[trigger] entries@[a]).0@ != (#[trigger] entries@[b]).0@ by {
                                if b < before.len() {
                                    assert(before[a].0@ != before[b].0@);
                                } else {
                                    assert(before[a].0@ != key);
                                }
                            }
                        }
                    },
                }
                self.by_path = entries;
            },
        }
        self.emitted_tool_events = pending.next_emitted;
        snapshot_due(self.emitted_tool_events, self.snapshot_every)
    }
}

proof fn lemma_lines_prefix_fails(s: Seq<(String, PathAggregate)>, i: int, requested_only: bool)
    requires
        0 <= i <= s.len(),
        lines_of(s.take(i), requested_only) is None,
    ensures
        lines_of(s, requested_only) is None,
    decreases s.len() - i,
{
    if i < s.len() {
        assert(s.take(i + 1).drop_last() =~= s.take(i));
        lemma_lines_prefix_fails(s, i + 1, requested_only);
    } else {
        assert(s.take(i) =~= s);
    }
}

proof fn lemma_requested_lines_form(s: Seq<(String, PathAggregate)>)
    requires
        lines_of(s, false) is Some,
    ensures
        lines_of(s, true) is Some,
    decreases s.len(),
{
    if s.len() > 0 {
        lemma_requested_lines_form(s.drop_last());
    }
}

impl TelemetryState {
    /// The hot-path snapshot of the totals so far: every path ranked hottest first and the
    /// requested paths ranked slowest first, each cut to `HOT_PATH_ROWS` rows; refused when a
    /// path's average latency does not fit in `u64`.
    pub fn hot_paths_snapshot(&self) -> (r: Result<HotPathsSnapshot, TelemetryError>)
        ensures
            match lines_of(self.entries(), false) {
                None => r == Err::<HotPathsSnapshot, TelemetryError>(TelemetryError::AverageLatencyExceeded),
                Some(all) => r matches Ok(snap) && (snap.total_tool_events == self.emitted() && lines_view(
                    snap.hottest_paths@,
                ) == top(ranked(all, true), HOT_PATH_ROWS as int) && lines_view(snap.slowest_paths@) == top(
                    ranked(lines_of(self.entries(), true)->0, false),
                    HOT_PATH_ROWS as int,
                )),
            },
    {
        let mut all: Vec<HotPathLine> = Vec::new();
        let mut requested: Vec<HotPathLine> = Vec::new();
        let mut i: usize = 0;
        while i < self.by_path.len()
            invariant
                i <= self.by_path@.len(),
                lines_of(self.by_path@.take(i as int), false) == Some(lines_view(all@)),
                lines_of(self.by_path@.take(i as int), true) == Some(lines_view(requested@)),
            decreases self.by_path.len() - i,
        {
            let ghost t = self.by_path@.take(i + 1);
            proof {
                assert(t.drop_last() =~= self.by_path@.take(i as int));
                assert(t.last() == self.by_path@[i as int]);
            }
            let line = hot_path_line(&self.by_path[i].0, &self.by_path[i].1);
            match line {
                Err(e) => {
                    proof {
                        lemma_lines_prefix_fails(self.by_path@, i + 1, false);
                    }
                    return Err(e);
                },
                Ok(row) => {
                    let ghost prev_all = all@;
                    let ghost prev_req = requested@;
                    if self.by_path[i].1.request_count > 0 {
                        requested.push(copy_line(&row));
                        proof {
                            assert(lines_view(requested@) =~= lines_view(prev_req).push(line_view(row)));
                        }
                    }
                    all.push(row);
                    proof {
                        assert(lines_view(all@) =~= lines_view(prev_all).push(line_view(row)));
                    }
                },
            }
            i += 1;
        }
        proof {
            assert(self.by_path@.take(i as int) =~= self.by_path@);
        }
        Ok(
            HotPathsSnapshot {
                total_tool_events: self.emitted_tool_events,
                hottest_paths: rank_lines(all, true, HOT_PATH_ROWS),
                slowest_paths: rank_lines(requested, false, HOT_PATH_ROWS),
            },
        )
    }
}

/// No row of a ranking ranks before a row above it.
pub open spec fn ranking_ordered(rows: Seq<LineView>, hottest: bool) -> bool {
    forall|i: int, j: int| 0 <= i < j < rows.len() ==> !ranks_before(#[trigger] rows[j], #[trigger] rows[i], hottest)
}

proof fn lemma_ranks_before_order(a: LineView, b: LineView, c: LineView, hottest: bool)
    ensures
        !ranks_before(a, a, hottest),
        ranks_before(a, b, hottest) && ranks_before(b, c, hottest) ==> ranks_before(a, c, hottest),
{
    lemma_seq_lt_irreflexive(a.path);
    if seq_lt(a.path, b.path) && seq_lt(b.path, c.path) {
        lemma_seq_lt_transitive(a.path, b.path, c.path);
    }
}

proof fn lemma_insert_ranked_members(sorted: Seq<LineView>, x: LineView, hottest: bool, k: int)
    requires
        0 <= k < sorted.len() + 1,
    ensures
        insert_ranked(sorted, x, hottest).len() == sorted.len() + 1,
        insert_ranked(sorted, x, hottest)[k] == x || exists|m: int| 0 <= m < sorted.len() && insert_ranked(
            sorted,
            x,
            hottest,
        )[k] == #[trigger] sorted[m],
    decreases sorted.len(),
{
    lemma_insert_ranked_len(sorted, x, hottest);
    if sorted.len() > 0 && !ranks_before(x, sorted[0], hottest) && k > 0 {
        lemma_insert_ranked_members(sorted.drop_first(), x, hottest, k - 1);
        let r = insert_ranked(sorted.drop_first(), x, hottest);
        if r[k - 1] != x {
            let m = choose|m: int| 0 <= m < sorted.drop_first().len() && r[k - 1] == #[trigger] sorted.drop_first()[m];
            assert(sorted[m + 1] == sorted.drop_first()[m]);
        }
    } else if sorted.len() > 0 && ranks_before(x, sorted[0], hottest) && k > 0 {
        assert(insert_ranked(sorted, x, hottest)[k] == sorted[k - 1]);
    }
}

proof fn lemma_insert_ranked_ordered(sorted: Seq<LineView>, x: LineView, hottest: bool)
    requires
        ranking_ordered(sorted, hottest),
    ensures
        ranking_ordered(insert_ranked(sorted, x, hottest), hottest),
    decreases sorted.len(),
{
    let r = insert_ranked(sorted, x, hottest);
    lemma_insert_ranked_len(sorted, x, hottest);
    if sorted.len() == 0 {
    } else if ranks_before(x, sorted[0], hottest) {
        assert forall|i: int, j: int| 0 <= i < j < r.len() implies !ranks_before(#[trigger] r[j], #[trigger] r[i], hottest) by {
            if i == 0 {
                assert(r[j] == sorted[j - 1]);
                lemma_ranks_before_order(sorted[j - 1], x, sorted[0], hottest);
                if j - 1 > 0 {
                    assert(!ranks_before(sorted[j - 1], sorted[0], hottest));
                }
            } else {
                assert(r[i] == sorted[i - 1] && r[j] == sorted[j - 1]);
            }
        }
    } else {
        let rest = sorted.drop_first();
        assert forall|i: int, j: int| 0 <= i < j < rest.len() implies !ranks_before(#[trigger] rest[j], #[trigger] rest[i], hottest) by {
            assert(rest[j] == sorted[j + 1] && rest[i] == sorted[i + 1]);
        }
        lemma_insert_ranked_ordered(rest, x, hottest);
        let tail = insert_ranked(rest, x, hottest);
        assert forall|i: int, j: int| 0 <= i < j < r.len() implies !ranks_before(#[trigger] r[j], #[trigger] r[i], hottest) by {
            if i == 0 {
                assert(r[j] == tail[j - 1]);
                lemma_insert_ranked_members(rest, x, hottest, j - 1);
                if tail[j - 1] != x {
                    let m = choose|m: int| 0 <= m < rest.len() && tail[j - 1] == #[trigger] rest[m];
                    assert(rest[m] == sorted[m + 1]);
                }
            } else {
                assert(r[i] == tail[i - 1] && r[j] == tail[j - 1]);
            }
        }
    }
}

/// Every ranking that a snapshot shows runs hottest (or slowest) first: no row ranks before
/// a row above it, for any rows.
pub proof fn lemma_rankings_are_ordered(rows: Seq<LineView>, hottest: bool, n: nat)
    ensures
        ranking_ordered(top(ranked(rows, hottest), n as int), hottest),
    decreases rows.len(),
{
    if rows.len() > 0 {
        lemma_rankings_are_ordered(rows.drop_last(), hottest, rows.len());
        lemma_ranked_len(rows.drop_last(), hottest);
        assert(top(ranked(rows.drop_last(), hottest), rows.len() as int) == ranked(rows.drop_last(), hottest));
        lemma_insert_ranked_ordered(ranked(rows.drop_last(), hottest), rows.last(), hottest);
    }
    let full = ranked(rows, hottest);
    if n < full.len() {
        assert forall|i: int, j: int| 0 <= i < j < full.take(n as int).len() implies !ranks_before(
            #[trigger] full.take(n as int)[j],
            #[trigger] full.take(n as int)[i],
            hottest,
        ) by {
            assert(full.take(n as int)[j] == full[j] && full.take(n as int)[i] == full[i]);
        }
    }
}

/// The log never crosses its byte bound: whatever its size before, a record that is
/// accepted leaves the log at most `max_bytes` long. (With a bound of `u64::MAX` and a log
/// and record whose sizes together exceed it, the saturating sum hides the crossing.)
pub proof fn lemma_log_never_crosses_bound(record_bytes: u64, log_bytes: u64, max_bytes: u64)
    requires
        max_bytes < u64::MAX || log_bytes + record_bytes <= u64::MAX,
    ensures
        spec_append_plan(record_bytes, log_bytes, max_bytes) matches Ok(plan) ==> bytes_after(
            plan,
            log_bytes,
            record_bytes,
        ) <= max_bytes,
        spec_append_plan(record_bytes, log_bytes, max_bytes) is Err <==> record_bytes > max_bytes,
{
}

} // verus!

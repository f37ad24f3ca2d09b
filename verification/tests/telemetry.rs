use libmcp::telemetry::{
    AppendPlan, HotPathLine, PathAggregate, PendingCompletion, TelemetryError, TelemetryState, append_plan,
    average_latency, rank_lines, record_completion, snapshot_due,
};

fn row(path: &str, requests: u64, avg: u64, max: u64) -> HotPathLine {
    HotPathLine {
        path: path.to_owned(),
        request_count: requests,
        error_count: 0,
        avg_latency_ms: avg,
        max_latency_ms: max,
    }
}

fn complete(state: &mut TelemetryState, path: Option<&str>, latency_ms: u64, is_error: bool) -> bool {
    let pending = state.prepare_completion(path, latency_ms, is_error).expect("completion accepted");
    state.commit_completion(pending)
}

#[test]
fn writes_tool_events_and_hot_path_snapshots() {
    let mut state = TelemetryState::new(1).expect("interval accepted");
    let pending = state.prepare_completion(Some("/tmp/example.rs"), 12, false).expect("pending");
    assert_eq!(pending.next_emitted, 1);
    assert_eq!(
        pending.updated,
        Some((
            "/tmp/example.rs".to_owned(),
            PathAggregate { request_count: 1, error_count: 0, total_latency_ms: 12, max_latency_ms: 12 },
        ))
    );
    assert!(state.commit_completion(pending));
    assert_eq!(state.emitted_tool_events(), 1);
    let snapshot = state.hot_paths_snapshot().expect("snapshot");
    assert_eq!(snapshot.total_tool_events, 1);
    assert_eq!(snapshot.hottest_paths, vec![row("/tmp/example.rs", 1, 12, 12)]);
    assert_eq!(snapshot.slowest_paths, vec![row("/tmp/example.rs", 1, 12, 12)]);
}

#[test]
fn telemetry_configuration_rejects_zero_interval() {
    assert!(matches!(TelemetryState::new(0), Err(TelemetryError::ZeroSnapshotInterval)));
}

#[test]
fn snapshots_follow_every_interval_and_rank_paths() {
    let mut state = TelemetryState::new(3).expect("interval accepted");
    assert!(!complete(&mut state, Some("b.rs"), 30, false));
    assert!(!complete(&mut state, Some("a.rs"), 10, true));
    assert!(complete(&mut state, Some("a.rs"), 50, false));
    assert!(!complete(&mut state, None, 5, false));
    let snapshot = state.hot_paths_snapshot().expect("snapshot");
    assert_eq!(snapshot.total_tool_events, 4);
    let hottest: Vec<&str> = snapshot.hottest_paths.iter().map(|l| l.path.as_str()).collect();
    assert_eq!(hottest, vec!["a.rs", "b.rs"]);
    assert_eq!(snapshot.hottest_paths[0].error_count, 1);
    assert_eq!(snapshot.hottest_paths[0].avg_latency_ms, 30);
    assert_eq!(snapshot.hottest_paths[0].max_latency_ms, 50);
    let slowest: Vec<&str> = snapshot.slowest_paths.iter().map(|l| l.path.as_str()).collect();
    assert_eq!(slowest, vec!["a.rs", "b.rs"]);
}

#[test]
fn exhausted_event_counter_refuses_without_change() {
    let mut state = TelemetryState::new(1).expect("interval accepted");
    let pending = PendingCompletion { next_emitted: u64::MAX, updated: None };
    assert!(state.commit_completion(pending));
    assert_eq!(state.prepare_completion(Some("x"), 1, false), Err(TelemetryError::EventCounterExhausted));
    assert_eq!(state.emitted_tool_events(), u64::MAX);
}

#[test]
fn rankings_order_ties_and_keep_only_the_first_rows() {
    let rows = vec![row("c", 2, 5, 9), row("a", 2, 7, 9), row("b", 3, 1, 1), row("d", 2, 5, 10)];
    let hottest: Vec<String> = rank_lines(rows.clone(), true, 3).into_iter().map(|l| l.path).collect();
    assert_eq!(hottest, vec!["b", "d", "a"]);
    let slowest: Vec<String> = rank_lines(rows, false, 12).into_iter().map(|l| l.path).collect();
    assert_eq!(slowest, vec!["a", "c", "d", "b"]);
}

#[test]
fn aggregate_refusals_name_the_exhausted_counter() {
    let empty = PathAggregate { request_count: 0, error_count: 0, total_latency_ms: 0, max_latency_ms: 0 };
    let heavy = PathAggregate { total_latency_ms: u128::MAX, ..empty };
    assert_eq!(record_completion(heavy, 1, false), Err(TelemetryError::LatencyTotalExhausted));
    let failing = PathAggregate { error_count: u64::MAX, ..empty };
    assert_eq!(record_completion(failing, 1, true), Err(TelemetryError::ErrorCounterExhausted));
    assert!(record_completion(failing, 1, false).is_ok());
}

#[test]
fn telemetry_storage_never_crosses_its_byte_bound() {
    let first = b"first-record\n".len() as u64;
    let second = b"second-record\n".len() as u64;
    assert_eq!(append_plan(first, 0, 20), Ok(AppendPlan::Append));
    assert_eq!(append_plan(second, first, 20), Ok(AppendPlan::TruncateThenAppend));
    assert_eq!(append_plan(21, 0, 20), Err(TelemetryError::RecordTooLarge(20)));
    assert_eq!(append_plan(1, u64::MAX, u64::MAX), Ok(AppendPlan::Append));
}

#[test]
fn path_aggregates_count_requests_errors_and_latency() {
    let empty = PathAggregate { request_count: 0, error_count: 0, total_latency_ms: 0, max_latency_ms: 0 };
    let once = record_completion(empty, 12, false).expect("once");
    assert_eq!(once, PathAggregate { request_count: 1, error_count: 0, total_latency_ms: 12, max_latency_ms: 12 });
    let twice = record_completion(once, 4, true).expect("twice");
    assert_eq!(twice, PathAggregate { request_count: 2, error_count: 1, total_latency_ms: 16, max_latency_ms: 12 });
    assert_eq!(average_latency(twice), Some(8));
    assert_eq!(average_latency(empty), Some(0));
    let full = PathAggregate { request_count: u64::MAX, ..empty };
    assert_eq!(record_completion(full, 1, false), Err(TelemetryError::PathCounterExhausted));
    assert!(snapshot_due(4, 2));
    assert!(!snapshot_due(3, 2));
}

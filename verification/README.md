# libmcp

A shared operational spine for hardened MCP servers: a stable host keeps one public
JSON-RPC session alive while disposable workers come and go, releases roll over, and the
host itself re-executes.

The library in `src/` is verified with Verus. Its contracts describe the session kernel
(admission, dispatch, recovery and replay, snapshot and restore), the supervisor's decision
state machine, JSON-RPC framing and envelope validation, effect contracts carried by tool
catalogs, the release plane's rules, health and telemetry accounting, and the porcelain
renderer. Public proof functions named `lemma_*` state the laws that hold across calls.

- `src/host.rs`, `src/host/` — the continuity kernel, its snapshots, and its laws
- `src/supervisor.rs` — the stable host: one event in, the next state and the actions out
- `src/framing.rs`, `src/jsonrpc.rs`, `src/json.rs`, `src/pointer.rs` — frames and messages
- `src/effect.rs`, `src/replay.rs` — replay contracts and their evidence
- `src/rollout.rs` — releases, channels, and successor handoff decisions
- `src/health.rs`, `src/telemetry.rs`, `src/render.rs`, `src/projection.rs` — reporting
- `app/` — the I/O around it: streams, files, processes, serde forms, the async runtime
- `tests/` — scenarios run against the compiled library

//! Decisions of the stable public MCP host that supervises disposable business workers.
//!
//! The host owns the public session; workers are replaced on crash or on a new release. This
//! module holds the host's state and decides, for each event, the next state and the actions to
//! perform; the surrounding runtime performs those actions and reports what happened back.

use vstd::prelude::*;
use crate::json::{JsonNumber, JsonValue, JsonView, NumberView, lemma_members_view, member, members_view};
use crate::jsonrpc::{RequestId, RequestIdView, request_id_json};
use crate::render::{set_member, set_member_exec};
use crate::text::{owned, string_from_chars, u64_decimal, extend_chars, extend_str, decimal, chars_of};
use crate::jsonrpc::{FramedMessage, RpcMethod, ToolName, is_initialize_method, is_tools_call_method};
use crate::host::HostRejection;
use crate::rollout::ReleaseError;
use crate::effect::{
    ContractView, EffectContractError, EffectRecovery, StateView, ToolCatalog, CatalogView, contract_named,
    spec_replay_contract,
};
use crate::replay::ReplayContract;
use crate::pointer::{json_pointer, pointer_get};
use crate::callmeta::{parse_tool_call_meta, spec_tool_call_meta};
use crate::host::{DispatchQueueOutcome, HostSessionKernel, ReplayBudget, SessionPhase, KernelView};
use crate::jsonrpc::{FrameParseError, FrameView, RpcEnvelopeKind, EnvelopeView};
use crate::rollout::{ReleaseId, ReleaseManifest};

verus! {

/// Capacity of the worker replay queue.
pub const QUEUE_CAPACITY: usize = 128;
/// Maximum outstanding dispatched requests.
pub const PENDING_CAPACITY: usize = 128;
/// Maximum session-journal entries.
pub const JOURNAL_MAX_ENTRIES: usize = 32;
/// Maximum session-journal payload bytes.
pub const JOURNAL_MAX_BYTES: usize = 1048576;
/// Replays allowed per request after a worker loss.
pub const MAX_REPLAY_ATTEMPTS: u8 = 1;
/// Interval between channel polls, in milliseconds.
pub const CHANNEL_POLL_MILLIS: u64 = 500;
/// How long a candidate may take to become ready, in milliseconds.
pub const CANDIDATE_TIMEOUT_MILLIS: u64 = 15000;
/// How long a ready candidate is retained while the incumbent drains, in milliseconds.
pub const CANDIDATE_RETENTION_MILLIS: u64 = 120000;
/// Delay before retrying a failed recovery, in milliseconds.
pub const RECOVERY_BACKOFF_MILLIS: u64 = 1000;

/// A JSON integer.
pub open spec fn int_json(i: i64) -> JsonView {
    if i >= 0 {
        JsonView::Number(NumberView::Unsigned(i as u64))
    } else {
        JsonView::Number(NumberView::Negative(i))
    }
}

fn int_value(i: i64) -> (r: JsonValue)
    ensures
        r@ == int_json(i),
{
    if i >= 0 {
        JsonValue::Number(JsonNumber::Unsigned(i as u64))
    } else {
        JsonValue::Number(JsonNumber::Negative(i))
    }
}

fn text_value(s: &str) -> (r: JsonValue)
    ensures
        r@ == JsonView::Str(s@),
{
    JsonValue::String(owned(s))
}

/// Appends one member to an object under construction.
fn push_member(m: &mut Vec<(String, JsonValue)>, key: &str, value: JsonValue)
    ensures
        members_view(final(m)@) == members_view(old(m)@).push((key@, value@)),
{
    let ghost before = m@;
    m.push((owned(key), value));
    assert(m@.drop_last() =~= before);
}

/// A JSON-RPC error response.
pub open spec fn rpc_error_json(id: JsonView, code: i64, message: Seq<char>) -> JsonView {
    JsonView::Object(
        seq![
            ("jsonrpc"@, JsonView::Str("2.0"@)),
            ("id"@, id),
            ("error"@, JsonView::Object(seq![("code"@, int_json(code)), ("message"@, JsonView::Str(message))])),
        ],
    )
}

/// Builds the error response to request `id`.
pub fn rpc_error(id: &RequestId, code: i64, message: &str) -> (r: JsonValue)
    ensures
        r@ == rpc_error_json(request_id_json(id@), code, message@),
{
    rpc_error_value(id.to_json_value(), code, message)
}

fn rpc_error_value(id: JsonValue, code: i64, message: &str) -> (r: JsonValue)
    ensures
        r@ == rpc_error_json(id@, code, message@),
{
    let mut error: Vec<(String, JsonValue)> = Vec::new();
    push_member(&mut error, "code", int_value(code));
    push_member(&mut error, "message", text_value(message));
    let mut response: Vec<(String, JsonValue)> = Vec::new();
    push_member(&mut response, "jsonrpc", text_value("2.0"));
    push_member(&mut response, "id", id);
    push_member(&mut response, "error", JsonValue::Object(error));
    proof {
        assert(members_view(error@) =~= seq![("code"@, int_json(code)), ("message"@, JsonView::Str(message@))]);
    }
    proof {
        let ev = JsonView::Object(seq![("code"@, int_json(code)), ("message"@, JsonView::Str(message@))]);
        assert(members_view(response@) =~= seq![
            ("jsonrpc"@, JsonView::Str("2.0"@)),
            ("id"@, id@),
            ("error"@, ev),
        ]);
    }
    JsonValue::Object(response)
}

/// The response to a client frame that is not JSON-RPC: a parse error without an id.
pub fn parse_error_response(message: &str) -> (r: JsonValue)
    ensures
        r@ == rpc_error_json(JsonView::Null, -32700i64, message@),
{
    rpc_error_value(JsonValue::Null, -32700, message)
}

/// A JSON-RPC message with its `id` replaced, if it is an object.
pub open spec fn with_id(value: JsonView, id: JsonView) -> Option<JsonView> {
    match value {
        JsonView::Object(m) => Some(JsonView::Object(set_member(m, "id"@, id))),
        _ => None,
    }
}

/// Replaces the `id` of a JSON-RPC message; `None` when the message is not an object.
pub fn rewrite_id(value: &JsonValue, id: &RequestId) -> (r: Option<JsonValue>)
    ensures
        match r {
            Some(v) => with_id(value@, request_id_json(id@)) == Some(v@),
            None => with_id(value@, request_id_json(id@)) is None,
        },
{
    match value.duplicate() {
        JsonValue::Object(mut m) => {
            set_member_exec(&mut m, "id", id.to_json_value());
            Some(JsonValue::Object(m))
        },
        _ => None,
    }
}

/// The members of an optional object value, or none.
pub open spec fn object_or_empty(v: Option<JsonView>) -> Seq<(Seq<char>, JsonView)> {
    match v {
        Some(JsonView::Object(m)) => m,
        _ => Seq::empty(),
    }
}

/// An `initialize` response advertising tool-list change notifications: `result.capabilities.tools.listChanged`
/// is set to `true`, creating or replacing non-object intermediate members.
pub open spec fn patched_initialize(response: JsonView) -> JsonView {
    match response {
        JsonView::Object(m) => match member(m, "result"@) {
            Some(JsonView::Object(result)) => {
                let caps = object_or_empty(member(result, "capabilities"@));
                let tools = object_or_empty(member(caps, "tools"@));
                let tools2 = set_member(tools, "listChanged"@, JsonView::Bool(true));
                let caps2 = set_member(caps, "tools"@, JsonView::Object(tools2));
                let result2 = set_member(result, "capabilities"@, JsonView::Object(caps2));
                JsonView::Object(set_member(m, "result"@, JsonView::Object(result2)))
            },
            _ => response,
        },
        _ => response,
    }
}

/// The members of an optional object member, or none.
fn object_members_or_empty(m: &Vec<(String, JsonValue)>, key: &str) -> (r: Vec<(String, JsonValue)>)
    ensures
        members_view(r@) == object_or_empty(member(members_view(m@), key@)),
{
    match crate::json::get_member(m, key) {
        Some(v) => match v.duplicate() {
            JsonValue::Object(o) => o,
            _ => Vec::new(),
        },
        None => Vec::new(),
    }
}

/// Advertises tool-list change notifications in an `initialize` response.
pub fn patch_initialize_response(response: &JsonValue) -> (r: JsonValue)
    ensures
        r@ == patched_initialize(response@),
{
    let m = match response {
        JsonValue::Object(m) => m,
        _ => {
            return response.duplicate();
        },
    };
    let result = match crate::json::get_member(m, "result") {
        Some(JsonValue::Object(result)) => result,
        _ => {
            return response.duplicate();
        },
    };
    let mut caps = object_members_or_empty(result, "capabilities");
    let mut tools = object_members_or_empty(&caps, "tools");
    set_member_exec(&mut tools, "listChanged", JsonValue::Bool(true));
    set_member_exec(&mut caps, "tools", JsonValue::Object(tools));
    let mut result2 = match crate::json::get_member(m, "result") {
        Some(v) => match v.duplicate() {
            JsonValue::Object(o) => o,
            _ => Vec::new(),
        },
        None => Vec::new(),
    };
    set_member_exec(&mut result2, "capabilities", JsonValue::Object(caps));
    let mut top = match response.duplicate() {
        JsonValue::Object(o) => o,
        _ => Vec::new(),
    };
    set_member_exec(&mut top, "result", JsonValue::Object(result2));
    JsonValue::Object(top)
}

/// A `tools/list` request with id `id`.
pub open spec fn tools_list_json(id: JsonView) -> JsonView {
    JsonView::Object(seq![("jsonrpc"@, JsonView::Str("2.0"@)), ("id"@, id), ("method"@, JsonView::Str("tools/list"@))])
}

/// Builds a `tools/list` request.
pub fn tools_list_request(id: &RequestId) -> (r: JsonValue)
    ensures
        r@ == tools_list_json(request_id_json(id@)),
{
    let mut m: Vec<(String, JsonValue)> = Vec::new();
    push_member(&mut m, "jsonrpc", text_value("2.0"));
    push_member(&mut m, "id", id.to_json_value());
    push_member(&mut m, "method", text_value("tools/list"));
    assert(members_view(m@) =~= seq![
        ("jsonrpc"@, JsonView::Str("2.0"@)),
        ("id"@, request_id_json(id@)),
        ("method"@, JsonView::Str("tools/list"@)),
    ]);
    JsonValue::Object(m)
}

/// The notification that the public tool list changed.
pub open spec fn list_changed_json() -> JsonView {
    JsonView::Object(seq![("jsonrpc"@, JsonView::Str("2.0"@)), ("method"@, JsonView::Str("notifications/tools/list_changed"@))])
}

/// Builds the tool-list change notification.
pub fn list_changed_notification() -> (r: JsonValue)
    ensures
        r@ == list_changed_json(),
{
    let mut m: Vec<(String, JsonValue)> = Vec::new();
    push_member(&mut m, "jsonrpc", text_value("2.0"));
    push_member(&mut m, "method", text_value("notifications/tools/list_changed"));
    assert(members_view(m@) =~= seq![
        ("jsonrpc"@, JsonView::Str("2.0"@)),
        ("method"@, JsonView::Str("notifications/tools/list_changed"@)),
    ]);
    JsonValue::Object(m)
}

/// The reply to `tools/list` request `id` with the public catalog `tools`.
pub open spec fn catalog_reply_json(id: JsonView, tools: Seq<JsonView>) -> JsonView {
    JsonView::Object(
        seq![
            ("jsonrpc"@, JsonView::Str("2.0"@)),
            ("id"@, id),
            ("result"@, JsonView::Object(seq![("tools"@, JsonView::Array(tools))])),
        ],
    )
}

/// Builds the reply to a `tools/list` request from the published catalog.
pub fn catalog_reply(id: &RequestId, tools: &[JsonValue]) -> (r: JsonValue)
    ensures
        r@ == catalog_reply_json(request_id_json(id@), crate::json::items_view(tools@)),
{
    let mut items: Vec<JsonValue> = Vec::new();
    let mut i: usize = 0;
    while i < tools.len()
        invariant
            i <= tools.len(),
            crate::json::items_view(items@) == crate::json::items_view(tools@.take(i as int)),
        decreases tools.len() - i,
    {
        let ghost before = items@;
        items.push(tools[i].duplicate());
        proof {
            assert(items@.drop_last() =~= before);
            assert(tools@.take(i + 1).drop_last() =~= tools@.take(i as int));
        }
        i += 1;
    }
    assert(tools@.take(i as int) =~= tools@);
    let mut result: Vec<(String, JsonValue)> = Vec::new();
    push_member(&mut result, "tools", JsonValue::Array(items));
    let mut m: Vec<(String, JsonValue)> = Vec::new();
    push_member(&mut m, "jsonrpc", text_value("2.0"));
    push_member(&mut m, "id", id.to_json_value());
    push_member(&mut m, "result", JsonValue::Object(result));
    proof {
        let tv = crate::json::items_view(tools@);
        assert(members_view(result@) =~= seq![("tools"@, JsonView::Array(tv))]);
        assert(members_view(m@) =~= seq![
            ("jsonrpc"@, JsonView::Str("2.0"@)),
            ("id"@, request_id_json(id@)),
            ("result"@, JsonView::Object(seq![("tools"@, JsonView::Array(tv))])),
        ]);
    }
    JsonValue::Object(m)
}

/// The identity of the `n`th host-internal request sent to worker `token`, of the given kind.
pub open spec fn internal_id_text(token: u64, kind: Seq<char>, n: u64) -> Seq<char> {
    "io.libmcp/"@ + decimal(token as nat) + "/"@ + kind + "/"@ + decimal(n as nat)
}

/// The public identity of the `n`th worker-to-client callback request.
pub open spec fn callback_id_text(n: u64) -> Seq<char> {
    "io.libmcp/callback/"@ + decimal(n as nat)
}

/// Renders a host-internal request identity.
pub fn internal_request_id(token: u64, kind: &str, n: u64) -> (r: RequestId)
    ensures
        r@ == crate::jsonrpc::RequestIdView::Text(internal_id_text(token, kind@, n)),
{
    let mut text: Vec<char> = Vec::new();
    extend_str(&mut text, "io.libmcp/");
    let t = u64_decimal(token);
    extend_chars(&mut text, t.as_slice());
    extend_str(&mut text, "/");
    extend_str(&mut text, kind);
    extend_str(&mut text, "/");
    let d = u64_decimal(n);
    extend_chars(&mut text, d.as_slice());
    let s = string_from_chars(text.as_slice());
    RequestId::text(s.as_str())
}

/// Renders a public callback request identity.
pub fn callback_request_id(n: u64) -> (r: RequestId)
    ensures
        r@ == crate::jsonrpc::RequestIdView::Text(callback_id_text(n)),
{
    let mut text: Vec<char> = Vec::new();
    extend_str(&mut text, "io.libmcp/callback/");
    let d = u64_decimal(n);
    extend_chars(&mut text, d.as_slice());
    let s = string_from_chars(text.as_slice());
    RequestId::text(s.as_str())
}

/// Terminal failure of the stable host itself.
#[derive(Debug, Clone, PartialEq, Eq)]
pub enum SupervisorError {
    /// A release was refused.
    Release(ReleaseError),
    /// Public JSON-RPC state contradicted the continuity kernel.
    Session(HostRejection),
    /// The supervisor server and the initial release disagree.
    ServerMismatch,
    /// The supervisor release channel is relative.
    ChannelNotAbsolute,
    /// The session journal byte count overflowed.
    JournalSizeOverflow,
    /// The session journal is full.
    JournalCapacityExhausted,
    /// A journal key pointer addresses nothing in the call.
    JournalKeyAbsent(String),
    /// A journal key pointer addresses a value that is not a string, number, or boolean.
    JournalKeyNotScalar(String),
    /// Worker identities are exhausted.
    WorkerIdentityExhausted,
    /// Host-internal request identities are exhausted.
    InternalIdExhausted,
    /// Callback request identities are exhausted.
    CallbackIdExhausted,
    /// A host-internal response arrived from another worker than the one asked.
    InternalResponseCrossedWorkers,
    /// A candidate was needed before the session had an initialization seed.
    NoInitializationSeed,
    /// A candidate was needed before the session had an initialized notification.
    NoInitializedNotification,
    /// A frame to rewrite is not a JSON object.
    FrameNotObject,
    /// A callback response reached the worker queue.
    CallbackResponseQueued,
    /// A catalog reply was requested for a frame that is not a request.
    CatalogReplyTargetNotRequest,
    /// A catalog reply was requested before a catalog was published.
    CatalogAbsent,
    /// A `tools/list` response has no result.
    CatalogResponseWithoutResult,
    /// A `tools/list` result was refused.
    Catalog(EffectContractError),
    /// No worker is active.
    ActiveWorkerAbsent,
    /// A worker is neither active nor a candidate.
    WorkerNotOwned(u64),
}

/// One compacted session-state transition.
#[derive(Debug)]
pub struct JournalEntry {
    key: String,
    frame: FramedMessage,
}

/// Successful session-only calls kept for replay into a successor, plus the marks of state that
/// cannot migrate generically.
#[derive(Debug)]
pub struct SessionJournal {
    entries: Vec<JournalEntry>,
    bytes: usize,
    pinned: bool,
    checkpointed: bool,
}

/// A journal as mathematical values: entries as (key, payload) in record order.
pub struct JournalView {
    pub entries: Seq<(Seq<char>, Seq<u8>)>,
    pub bytes: nat,
    pub pinned: bool,
    pub checkpointed: bool,
}

/// The keys and payloads of journal entries.
pub closed spec fn entries_view(e: Seq<JournalEntry>) -> Seq<(Seq<char>, Seq<u8>)> {
    e.map_values(|x: JournalEntry| (x.key@, x.frame@.payload))
}

impl View for SessionJournal {
    type V = JournalView;

    closed spec fn view(&self) -> JournalView {
        JournalView {
            entries: entries_view(self.entries@),
            bytes: self.bytes as nat,
            pinned: self.pinned,
            checkpointed: self.checkpointed,
        }
    }
}

/// Total payload bytes of journal entries.
pub open spec fn payload_total(e: Seq<(Seq<char>, Seq<u8>)>) -> nat
    decreases e.len(),
{
    if e.len() == 0 {
        0
    } else {
        payload_total(e.drop_last()) + e.last().1.len()
    }
}

/// The first position of an entry with `key`.
pub open spec fn key_position(e: Seq<(Seq<char>, Seq<u8>)>, key: Seq<char>) -> Option<int> {
    if exists|i: int| 0 <= i < e.len() && #[trigger] e[i].0 == key {
        Some(choose|i: int| 0 <= i < e.len() && #[trigger] e[i].0 == key)
    } else {
        None
    }
}

/// A well-formed journal: keys are distinct, the byte count is the payload total, and both
/// bounds hold.
pub open spec fn journal_wf(j: JournalView) -> bool {
    &&& forall|a: int, b: int| 0 <= a < b < j.entries.len() ==> #[trigger] j.entries[a].0 != #[trigger] j.entries[b].0
    &&& j.bytes == payload_total(j.entries)
    &&& j.entries.len() <= JOURNAL_MAX_ENTRIES
    &&& j.bytes <= JOURNAL_MAX_BYTES
}

/// Removing one entry removes its payload from the total.
proof fn lemma_payload_total_remove(e: Seq<(Seq<char>, Seq<u8>)>, i: int)
    requires
        0 <= i < e.len(),
    ensures
        payload_total(e.remove(i)) + e[i].1.len() == payload_total(e),
    decreases e.len(),
{
    if i == e.len() - 1 {
        assert(e.remove(i) =~= e.drop_last());
    } else {
        lemma_payload_total_remove(e.drop_last(), i);
        assert(e.remove(i).drop_last() =~= e.drop_last().remove(i));
        assert(e.remove(i).last() == e.last());
    }
}

/// The journal entries after recording `payload` under `key`: an entry with the same key is
/// dropped, and the new entry is appended.
pub open spec fn compacted(e: Seq<(Seq<char>, Seq<u8>)>, key: Seq<char>) -> Seq<(Seq<char>, Seq<u8>)> {
    match key_position(e, key) {
        Some(i) => e.remove(i),
        None => e,
    }
}

/// One journal record: the earlier entry with the same key is dropped; the new entry is
/// appended unless the journal would exceed its bounds, in which case the record is refused.
pub open spec fn record_step(
    j: JournalView,
    key: Seq<char>,
    payload: Seq<u8>,
    r: Result<(), SupervisorError>,
    next: JournalView,
) -> bool {
    let kept = compacted(j.entries, key);
    let total = payload_total(kept) + payload.len();
    &&& journal_wf(next)
    &&& next.pinned == j.pinned
    &&& next.checkpointed == j.checkpointed
    &&& if kept.len() >= JOURNAL_MAX_ENTRIES || total > JOURNAL_MAX_BYTES {
        &&& next.entries == kept
        &&& (r == Err::<(), SupervisorError>(SupervisorError::JournalCapacityExhausted) || (total > usize::MAX && r
            == Err::<(), SupervisorError>(SupervisorError::JournalSizeOverflow)))
    } else {
        r is Ok && next.entries == kept.push((key, payload))
    }
}

impl SessionJournal {
    /// An empty journal.
    pub fn new() -> (r: Self)
        ensures
            r@.entries.len() == 0,
            r@.bytes == 0,
            !r@.pinned,
            !r@.checkpointed,
            journal_wf(r@),
    {
        let r = Self { entries: Vec::new(), bytes: 0, pinned: false, checkpointed: false };
        assert(entries_view(r.entries@) =~= Seq::<(Seq<char>, Seq<u8>)>::empty());
        r
    }

    /// Records one session transition under `key`, replacing an earlier transition with the same
    /// key. Refused when the byte count would overflow or the journal would exceed its bounds; the
    /// earlier transition with the same key is dropped even then.
    pub fn record(&mut self, key: &str, frame: FramedMessage) -> (r: Result<(), SupervisorError>)
        requires
            journal_wf(old(self)@),
        ensures
            record_step(old(self)@, key@, frame@.payload, r, final(self)@),
    {
        let ghost before = self@.entries;
        let mut index: usize = 0;
        let mut found = false;
        while !found && index < self.entries.len()
            invariant
                index <= self.entries.len(),
                self@.entries == before,
                forall|k: int| 0 <= k < index ==> (#[trigger] before[k]).0 != key@,
                found ==> index < before.len() && before[index as int].0 == key@,
            decreases self.entries.len() - index, if found { 0int } else { 1int },
        {
            if crate::text::str_eq(self.entries[index].key.as_str(), key) {
                found = true;
            } else {
                index += 1;
            }
        }
        proof {
            if found {
                assert(before[index as int].0 == key@);
                let p = key_position(before, key@);
                assert(p is Some);
                let c = p->0;
                if c != index as int {
                    if c < index {
                        assert(before[c].0 != key@);
                    } else {
                        assert(before[index as int].0 == before[c].0);
                    }
                }
            } else {
                assert(key_position(before, key@) is None);
            }
        }
        if found {
            let removed = self.entries.remove(index);
            proof {
                lemma_payload_total_remove(before, index as int);
                assert(entries_view(self.entries@) =~= before.remove(index as int));
            }
            self.bytes = self.bytes - removed.frame.payload().len();
        }
        let ghost kept = self@.entries;
        let length = frame.payload().len();
        if length > usize::MAX - self.bytes {
            return Err(SupervisorError::JournalSizeOverflow);
        }
        let next = self.bytes + length;
        if self.entries.len() >= JOURNAL_MAX_ENTRIES || next > JOURNAL_MAX_BYTES {
            return Err(SupervisorError::JournalCapacityExhausted);
        }
        self.bytes = next;
        let ghost kv = key@;
        let ghost pv = frame@.payload;
        self.entries.push(JournalEntry { key: owned(key), frame });
        proof {
            assert(entries_view(self.entries@) =~= kept.push((kv, pv)));
            assert(entries_view(self.entries@).drop_last() =~= kept);
            assert forall|a: int, b: int| 0 <= a < b < self@.entries.len() implies #[trigger] self@.entries[a].0
                != #[trigger] self@.entries[b].0 by {
                if b == self@.entries.len() - 1 {
                    if a < before.len() && found && a >= index {
                        assert(kept[a] == before[a + 1]);
                    }
                    if !found {
                        assert(kept[a] == before[a]);
                    } else if a < index {
                        assert(kept[a] == before[a]);
                    }
                } else {
                    if found {
                        if a < index {
                            assert(kept[a] == before[a]);
                        } else {
                            assert(kept[a] == before[a + 1]);
                        }
                        if b < index {
                            assert(kept[b] == before[b]);
                        } else {
                            assert(kept[b] == before[b + 1]);
                        }
                    }
                }
            }
        }
        Ok(())
    }

    /// The recorded entries, in record order, as (key, frame).
    pub fn entry(&self, index: usize) -> (r: Option<(&str, &FramedMessage)>)
        ensures
            match r {
                Some((k, f)) => index < self@.entries.len() && self@.entries[index as int] == (k@, f@.payload),
                None => index >= self@.entries.len(),
            },
    {
        if index < self.entries.len() {
            Some((self.entries[index].key.as_str(), &self.entries[index].frame))
        } else {
            None
        }
    }

    /// Number of recorded entries.
    pub fn len(&self) -> (r: usize)
        ensures
            r == self@.entries.len(),
    {
        self.entries.len()
    }
}

/// Methods whose requests the host may always replay: reads of lists, resources, prompts, and
/// completions, and `ping`.
pub open spec fn is_replay_safe_method(m: Seq<char>) -> bool {
    ||| m == "ping"@
    ||| m == "tools/list"@
    ||| m == "resources/list"@
    ||| m == "resources/templates/list"@
    ||| m == "resources/read"@
    ||| m == "prompts/list"@
    ||| m == "prompts/get"@
    ||| m == "completion/complete"@
}

/// Whether the durable operation key a pointer names is present as a string or a number.
pub open spec fn key_present(value: JsonView, pointer: Option<Seq<char>>) -> bool {
    match pointer {
        Some(p) => match json_pointer(value, p) {
            Some(k) => k is Str || k is Number,
            None => false,
        },
        None => false,
    }
}

/// The replay law of a tool call under the published catalog: the tool's recovery authority,
/// except that a probe requirement or a missing deduplication key grants no replay.
pub open spec fn tool_replay_contract(contract: ContractView, value: JsonView) -> ReplayContract {
    if contract.recovery is Deduplicated && !key_present(value, contract.deduplication_key_pointer) {
        ReplayContract::NeverReplay
    } else if contract.recovery is ProbeRequired {
        ReplayContract::NeverReplay
    } else {
        spec_replay_contract(contract.recovery)
    }
}

/// The replay law of a client request: replay-safe methods converge, tool calls follow the
/// published contract of the tool, and everything else is never replayed.
pub open spec fn spec_classify_request(
    catalog: Option<CatalogView>,
    value: JsonView,
    fuel: nat,
    method: Seq<char>,
) -> ReplayContract {
    if is_initialize_method(method) || is_replay_safe_method(method) {
        ReplayContract::Convergent
    } else if !is_tools_call_method(method) {
        ReplayContract::NeverReplay
    } else {
        match spec_tool_call_meta(value, method, fuel) {
            None => ReplayContract::NeverReplay,
            Some(meta) => match catalog {
                None => ReplayContract::NeverReplay,
                Some(c) => match contract_named(c.contracts, meta.tool_name) {
                    None => ReplayContract::NeverReplay,
                    Some(contract) => tool_replay_contract(contract, value),
                },
            },
        }
    }
}

/// The view of an optional catalog.
pub open spec fn catalog_opt(c: Option<&ToolCatalog>) -> Option<CatalogView> {
    match c {
        Some(c) => Some(c@),
        None => None,
    }
}

/// Classifies the replay law of a client request.
pub fn classify_request(catalog: Option<&ToolCatalog>, frame: &FramedMessage, method: &RpcMethod) -> (r:
    ReplayContract)
    ensures
        r == spec_classify_request(catalog_opt(catalog), frame@.value, frame@.payload.len(), method@),
{
    let name = method.as_str();
    if method.is_initialize() || crate::text::str_eq(name, "ping") || crate::text::str_eq(name, "tools/list")
        || crate::text::str_eq(name, "resources/list") || crate::text::str_eq(name, "resources/templates/list")
        || crate::text::str_eq(name, "resources/read") || crate::text::str_eq(name, "prompts/list")
        || crate::text::str_eq(name, "prompts/get") || crate::text::str_eq(name, "completion/complete") {
        return EffectRecovery::ReplaySafe.replay_contract();
    }
    if !method.is_tools_call() {
        return EffectRecovery::AtMostOnce.replay_contract();
    }
    let meta = match parse_tool_call_meta(frame, method) {
        Some(m) => m,
        None => {
            return EffectRecovery::AtMostOnce.replay_contract();
        },
    };
    let contract = match catalog {
        Some(c) => match c.contract(&meta.tool_name) {
            Some(contract) => contract,
            None => {
                return EffectRecovery::AtMostOnce.replay_contract();
            },
        },
        None => {
            return EffectRecovery::AtMostOnce.replay_contract();
        },
    };
    if contract.recovery() == EffectRecovery::Deduplicated {
        let present = match contract.deduplication_key_pointer() {
            Some(pointer) => match pointer_get(frame.value(), pointer) {
                Some(key) => matches!(key, JsonValue::String(_) | JsonValue::Number(_)),
                None => false,
            },
            None => false,
        };
        if !present {
            return EffectRecovery::AtMostOnce.replay_contract();
        }
    }
    match contract.recovery() {
        EffectRecovery::ProbeRequired => EffectRecovery::AtMostOnce.replay_contract(),
        recovery => recovery.replay_contract(),
    }
}

/// The text of a scalar journal key: a string as is, a number or boolean as rendered.
pub open spec fn scalar_text(v: JsonView) -> Option<Seq<char>> {
    match v {
        JsonView::Str(t) => Some(t),
        JsonView::Number(n) => Some(crate::json::number_text(n)),
        JsonView::Bool(b) => Some(if b { "true"@ } else { "false"@ }),
        _ => None,
    }
}

/// The journal key of a transition: a pointer key (beginning with `/`) is resolved in the call
/// and must reach a scalar; any other key is used as is. `Err(true)` marks an absent pointer
/// target and `Err(false)` a target that is not scalar.
pub open spec fn journal_key(key: Seq<char>, value: JsonView) -> Result<Seq<char>, bool> {
    if key.len() > 0 && key[0] == '/' {
        match json_pointer(value, key) {
            None => Err(true),
            Some(v) => match scalar_text(v) {
                Some(t) => Ok(t),
                None => Err(false),
            },
        }
    } else {
        Ok(key)
    }
}

impl SessionJournal {
    /// Records the session-state effect of a successful tool call under the published catalog:
    /// journaled tools are recorded under `tool:key`, checkpointed and generation-pinned tools
    /// mark the journal, and everything else leaves it unchanged.
    pub fn record_transition(&mut self, catalog: Option<&ToolCatalog>, frame: FramedMessage) -> (r: Result<
        (),
        SupervisorError,
    >)
        requires
            journal_wf(old(self)@),
        ensures
            journal_wf(final(self)@),
            ({
                let method = "tools/call"@;
                let contract = match spec_tool_call_meta(frame@.value, method, frame@.payload.len()) {
                    Some(meta) => match catalog_opt(catalog) {
                        Some(c) => match contract_named(c.contracts, meta.tool_name) {
                            Some(contract) => Some((meta.tool_name, contract)),
                            None => None,
                        },
                        None => None,
                    },
                    None => None,
                };
                match contract {
                    None => r is Ok && final(self)@ == old(self)@,
                    Some((tool, contract)) => match contract.state {
                        StateView::Stateless => r is Ok && final(self)@ == old(self)@,
                        StateView::Checkpointed(_) => r is Ok && final(self)@ == (JournalView {
                            checkpointed: true,
                            ..old(self)@
                        }),
                        StateView::GenerationPinned => r is Ok && final(self)@ == (JournalView {
                            pinned: true,
                            ..old(self)@
                        }),
                        StateView::Journaled(key) => match journal_key(key, frame@.value) {
                            Err(true) => final(self)@ == old(self)@ && (r matches Err(SupervisorError::JournalKeyAbsent(k)) && k@ == key),
                            Err(false) => final(self)@ == old(self)@ && (r matches Err(SupervisorError::JournalKeyNotScalar(k)) && k@ == key),
                            Ok(text) => record_step(old(self)@, tool + ":"@ + text, frame@.payload, r, final(self)@),
                        },
                    },
                }
            }),
    {
        let method = RpcMethod::tools_call();
        proof {
            reveal_strlit("tools/call");
            reveal_strlit("true");
            reveal_strlit("false");
            reveal_strlit(":");
        }
        let meta = match parse_tool_call_meta(&frame, &method) {
            Some(m) => m,
            None => {
                return Ok(());
            },
        };
        let contract = match catalog {
            Some(c) => match c.contract(&meta.tool_name) {
                Some(contract) => contract,
                None => {
                    return Ok(());
                },
            },
            None => {
                return Ok(());
            },
        };
        match contract.state() {
            crate::effect::SessionStateContract::Stateless => Ok(()),
            crate::effect::SessionStateContract::Checkpointed { .. } => {
                self.checkpointed = true;
                Ok(())
            },
            crate::effect::SessionStateContract::GenerationPinned => {
                self.pinned = true;
                Ok(())
            },
            crate::effect::SessionStateContract::Journaled { key } => {
                let key_chars = chars_of(key.as_str());
                let text: Vec<char> = if key_chars.len() > 0 && key_chars[0] == '/' {
                    match pointer_get(frame.value(), key.as_str()) {
                        None => {
                            return Err(SupervisorError::JournalKeyAbsent(key.clone()));
                        },
                        Some(JsonValue::String(t)) => chars_of(t.as_str()),
                        Some(JsonValue::Number(n)) => n.text(),
                        Some(JsonValue::Bool(b)) => if *b {
                            chars_of("true")
                        } else {
                            chars_of("false")
                        },
                        Some(_) => {
                            return Err(SupervisorError::JournalKeyNotScalar(key.clone()));
                        },
                    }
                } else {
                    key_chars
                };
                let mut full: Vec<char> = Vec::new();
                extend_str(&mut full, meta.tool_name.as_str());
                extend_str(&mut full, ":");
                extend_chars(&mut full, text.as_slice());
                let full_key = string_from_chars(full.as_slice());
                self.record(full_key.as_str(), frame)
            },
        }
    }
}

/// Why a candidate worker exists.
#[derive(Debug, Clone, Copy, PartialEq, Eq, Structural)]
pub enum CandidatePurpose {
    /// Rolling forward to a new release.
    Rollover,
    /// Replacing a lost worker.
    Recovery,
}

/// How far a candidate has been prepared.
#[derive(Debug, Clone, Copy, PartialEq, Eq, Structural)]
pub enum CandidateStage {
    /// Waiting for its reply to the replayed `initialize`.
    Initializing,
    /// Waiting for its tool catalog.
    Catalog,
    /// Ready to take over.
    Ready,
    /// Receiving the session journal.
    Restoring,
}

/// The host's rollover and recovery phase.
#[derive(Debug, Clone, Copy, PartialEq, Eq, Structural)]
pub enum RolloverPhase {
    /// No rollover or recovery is in progress.
    Idle,
    /// A candidate's catalog differs; the client was told and must refresh `tools/list`.
    AwaitingCatalogRefresh,
    /// New work is held while the incumbent's in-flight work drains.
    Draining,
    /// The active worker was lost and a replacement is being prepared.
    Recovering,
}

/// What a host-internal request is for.
#[derive(Debug, Clone, Copy, PartialEq, Eq, Structural)]
pub enum InternalAction {
    /// The active worker's catalog.
    ActiveCatalog,
    /// A candidate's replayed `initialize`.
    CandidateInitialize,
    /// A candidate's catalog.
    CandidateCatalog,
    /// One session-journal entry replayed into a candidate.
    RestoreJournal(usize),
}

/// A host-internal request awaiting its response.
#[derive(Debug)]
pub struct InternalRequest {
    id: RequestId,
    worker: u64,
    action: InternalAction,
}

/// A worker-to-client callback awaiting the client's response.
#[derive(Debug)]
pub struct CallbackRoute {
    public: RequestId,
    worker: u64,
    original: RequestId,
}

/// One worker process as the host knows it.
#[derive(Debug)]
pub struct WorkerSlot {
    token: u64,
    release: ReleaseManifest,
    catalog: Option<ToolCatalog>,
}

/// A worker being prepared to replace the active one.
#[derive(Debug)]
pub struct Candidate {
    worker: WorkerSlot,
    purpose: CandidatePurpose,
    stage: CandidateStage,
    deadline: u64,
}

/// Why a candidate was given up.
#[derive(Debug, Clone, PartialEq, Eq)]
pub enum CandidateRejection {
    /// The candidate emitted a frame that is not JSON-RPC.
    InvalidFrame(FrameParseError),
    /// The candidate sent a request to the client.
    IssuedClientRequest,
    /// The candidate answered `initialize` with an error.
    RejectedInitialize,
    /// The candidate answered `tools/list` with an error.
    RejectedCatalogRequest,
    /// The candidate answered a journal entry with an error.
    RejectedJournal,
    /// The incumbent holds checkpointed or generation-pinned state.
    StateNotMigratable,
    /// The candidate did not become ready in time.
    DeadlineExpired,
    /// The candidate's worker process ended.
    WorkerLost(String),
    /// Preparing the candidate failed.
    Failed(SupervisorError),
}

/// A diagnostic the runtime reports.
#[derive(Debug, Clone, PartialEq, Eq)]
pub enum Notice {
    /// A client frame without an id was refused.
    ClientFrameRefused(HostRejection),
    /// A successful transition could not be journaled; the journal is sealed.
    JournalSealed(SupervisorError),
    /// A candidate answered `initialize`.
    CandidateInitialized,
    /// A candidate's catalog arrived.
    CandidateCatalogReceived,
    /// A candidate is ready and the incumbent drains.
    CandidateReady,
    /// A candidate's catalog differs; the client must refresh it.
    CatalogChanged,
    /// A candidate was given up.
    CandidateRejected(CandidateRejection),
    /// A recovery candidate's worker ended.
    CandidateLost(String),
    /// The active worker was lost.
    WorkerLost(String),
    /// A candidate took over.
    Activated(ReleaseId),
    /// Starting a recovery worker failed.
    RecoveryStartFailed(SupervisorError),
    /// The release channel could not be read.
    ChannelRejected(ReleaseError),
    /// A release cannot read the incumbent's state.
    StateIncompatible(ReleaseId),
    /// A release failed verification.
    CandidateVerificationFailed(ReleaseError),
    /// A candidate worker could not be launched.
    CandidateLaunchFailed,
    /// A new release is being prepared.
    Preparing(ReleaseId),
}

/// One thing the runtime must do, in order.
#[derive(Debug)]
pub enum SupervisorAction {
    /// Write a host-built message to the client.
    WriteClient(JsonValue),
    /// Write a worker's frame to the client unchanged.
    ForwardToClient(FramedMessage),
    /// Send a host-built message to a worker.
    SendWorker { token: u64, message: JsonValue },
    /// Send a client frame to a worker unchanged.
    ForwardToWorker { token: u64, frame: FramedMessage },
    /// Launch a worker for a release; the runtime reports a failed launch back.
    SpawnWorker { token: u64, release: ReleaseManifest },
    /// Stop a worker.
    KillWorker(u64),
    /// Report a diagnostic.
    Report(Notice),
}

/// Complete launch contract for one stable supervised MCP session.
#[derive(Debug)]
pub struct SupervisorConfig {
    server: String,
    channel: String,
    initial: ReleaseManifest,
    argument_overrides: Vec<String>,
    frame_limit: usize,
}

impl SupervisorConfig {
    /// Constructs a supervisor over one verified initial release and mutable channel;
    /// `initial_executable` holds the bytes of the initial release executable.
    pub fn try_new(
        server: &str,
        channel: &str,
        initial: ReleaseManifest,
        argument_overrides: Vec<String>,
        initial_executable: &[u8],
    ) -> (r: Result<Self, SupervisorError>)
        ensures
            r is Ok <==> (server@.len() > 0 && initial@.server == server@ && crate::rollout::is_absolute_path(channel@)
                && crate::rollout::lower_hex(crate::rollout::sha256_digest(initial_executable@)) == initial@.binary_sha256),
            (server@.len() == 0 || initial@.server != server@) ==> r == Err::<Self, SupervisorError>(SupervisorError::ServerMismatch),
            (server@.len() > 0 && initial@.server == server@ && !crate::rollout::is_absolute_path(channel@)) ==> r
                == Err::<Self, SupervisorError>(SupervisorError::ChannelNotAbsolute),
            (server@.len() > 0 && initial@.server == server@ && crate::rollout::is_absolute_path(channel@)
                && crate::rollout::lower_hex(crate::rollout::sha256_digest(initial_executable@)) != initial@.binary_sha256)
                ==> r == Err::<Self, SupervisorError>(SupervisorError::Release(ReleaseError::DigestMismatch)),
            r matches Ok(c) ==> c.spec_server() == server@ && c.spec_channel() == channel@ && c.spec_initial()
                == initial@ && c.spec_arguments() == crate::rollout::texts(argument_overrides@)
                && c.spec_frame_limit() == 8388608,
    {
        if chars_of(server).len() == 0 || !crate::text::str_eq(initial.server(), server) {
            return Err(SupervisorError::ServerMismatch);
        }
        if !crate::rollout::path_is_absolute(channel) {
            return Err(SupervisorError::ChannelNotAbsolute);
        }
        match crate::rollout::verify_release(&initial, initial_executable) {
            Ok(()) => {},
            Err(e) => {
                return Err(SupervisorError::Release(e));
            },
        }
        Ok(Self {
            server: owned(server),
            channel: owned(channel),
            initial,
            argument_overrides,
            frame_limit: 8388608,
        })
    }

    /// Replaces the default eight-mebibyte frame bound.
    pub fn with_frame_limit(self, frame_limit: usize) -> (r: Self)
        ensures
            r.spec_frame_limit() == frame_limit,
            r.spec_server() == self.spec_server() && r.spec_channel() == self.spec_channel() && r.spec_initial()
                == self.spec_initial() && r.spec_arguments() == self.spec_arguments(),
    {
        Self { frame_limit, ..self }
    }

    /// The per-frame byte bound.
    pub closed spec fn spec_frame_limit(&self) -> usize {
        self.frame_limit
    }

    /// The server name.
    pub closed spec fn spec_server(&self) -> Seq<char> {
        self.server@
    }

    /// The release channel pointer.
    pub closed spec fn spec_channel(&self) -> Seq<char> {
        self.channel@
    }

    /// The initial release.
    pub closed spec fn spec_initial(&self) -> crate::rollout::ManifestView {
        self.initial@
    }

    /// Arguments appended to every worker launch.
    pub closed spec fn spec_arguments(&self) -> Seq<Seq<char>> {
        crate::rollout::texts(self.argument_overrides@)
    }

    /// The server name.
    pub fn server(&self) -> (r: &str)
        ensures
            r@ == self.spec_server(),
    {
        self.server.as_str()
    }

    /// The release channel pointer.
    pub fn channel(&self) -> (r: &str)
        ensures
            r@ == self.spec_channel(),
    {
        self.channel.as_str()
    }

    /// Arguments appended to every worker launch.
    pub fn argument_overrides(&self) -> (r: &[String])
        ensures
            crate::rollout::texts(r@) == self.spec_arguments(),
    {
        self.argument_overrides.as_slice()
    }

    /// The per-frame byte bound.
    pub fn frame_limit(&self) -> (r: usize)
        ensures
            r == self.spec_frame_limit(),
    {
        self.frame_limit
    }
}

/// The stable host's decision state.
#[derive(Debug)]
pub struct SupervisorCore {
    config: SupervisorConfig,
    kernel: HostSessionKernel,
    active: Option<WorkerSlot>,
    candidate: Option<Candidate>,
    published_catalog: Option<ToolCatalog>,
    internal: Vec<InternalRequest>,
    callbacks: Vec<CallbackRoute>,
    journal: SessionJournal,
    phase: RolloverPhase,
    next_worker: u64,
    next_internal: u64,
    next_callback: u64,
    retry_at: Option<u64>,
    recovery_release: ReleaseManifest,
    rejected_generation: Option<ReleaseId>,
    refresh_request: Option<FramedMessage>,
    initialize_frame: Option<FramedMessage>,
}

/// What a poll of the clock asks of the runtime.
#[derive(Debug, Clone, Copy, PartialEq, Eq, Structural)]
pub enum TickRequest {
    /// Nothing more to do until the next tick.
    Nothing,
    /// Read the release channel and report the selected release.
    PollChannel,
}

/// Two millisecond instants added, saturating at the end of time.
pub open spec fn later_spec(now: u64, delay: u64) -> u64 {
    if now + delay > u64::MAX {
        u64::MAX
    } else {
        (now + delay) as u64
    }
}

/// Adds two millisecond instants, saturating at the end of time.
fn later(now: u64, delay: u64) -> (r: u64)
    ensures
        r == later_spec(now, delay),
{
    if delay > u64::MAX - now {
        u64::MAX
    } else {
        now + delay
    }
}

impl SupervisorCore {
    /// The host's invariant: the session journal is well formed.
    pub closed spec fn wf(&self) -> bool {
        journal_wf(self.journal@)
    }

    /// The continuity kernel's state.
    pub closed spec fn spec_kernel(&self) -> KernelView {
        self.kernel@
    }

    /// The rollover phase.
    pub closed spec fn spec_phase(&self) -> RolloverPhase {
        self.phase
    }

    /// The active worker's token.
    pub closed spec fn spec_active(&self) -> Option<u64> {
        match self.active {
            Some(w) => Some(w.token),
            None => None,
        }
    }

    /// The candidate's token and purpose.
    pub closed spec fn spec_candidate(&self) -> Option<(u64, CandidatePurpose)> {
        match self.candidate {
            Some(c) => Some((c.worker.token, c.purpose)),
            None => None,
        }
    }

    /// The generation of the last rejected rollover candidate.
    pub closed spec fn spec_rejected(&self) -> Option<Seq<char>> {
        match self.rejected_generation {
            Some(g) => Some(g@),
            None => None,
        }
    }

    /// The active worker's release.
    pub closed spec fn spec_active_release(&self) -> Option<crate::rollout::ManifestView> {
        match self.active {
            Some(w) => Some(w.release@),
            None => None,
        }
    }

    /// Whether a catalog has been published.
    pub closed spec fn spec_published(&self) -> Option<CatalogView> {
        match self.published_catalog {
            Some(c) => Some(c@),
            None => None,
        }
    }

    /// The session journal.
    pub closed spec fn spec_journal(&self) -> JournalView {
        self.journal@
    }

    /// The host-internal requests awaiting answers: identity, worker, and purpose.
    pub closed spec fn spec_internal(&self) -> Seq<(RequestIdView, u64, InternalAction)> {
        self.internal@.map_values(|q: InternalRequest| (q.id@, q.worker, q.action))
    }

    /// The worker callbacks awaiting the client: public identity, worker, and the worker's
    /// own identity.
    pub closed spec fn spec_callbacks(&self) -> Seq<(RequestIdView, u64, RequestIdView)> {
        self.callbacks@.map_values(|c: CallbackRoute| (c.public@, c.worker, c.original@))
    }

    /// The number of callback identities issued.
    pub closed spec fn spec_next_callback(&self) -> u64 {
        self.next_callback
    }

    /// The outcome of worker `worker`'s answer `value`, failed or not, to a host-internal
    /// request made for `action`: a catalog that the active worker refuses or withholds loses
    /// the worker, and a valid one is published; a candidate that refuses its `initialize`, its
    /// catalog request, or a journal entry is given up; a candidate answering `initialize` while
    /// the client has not yet sent `initialized` takes over at once; a candidate whose catalog
    /// differs from the published one is announced to the client, which must refresh it.
    pub open spec fn internal_outcome(
        &self,
        after: &Self,
        action: InternalAction,
        worker: u64,
        value: JsonView,
        has_error: bool,
        now: u64,
        before_actions: Seq<SupervisorAction>,
        after_actions: Seq<SupervisorAction>,
        r: Result<(), SupervisorError>,
    ) -> bool {
        match action {
            InternalAction::ActiveCatalog => if has_error || response_catalog(value) is None {
                r is Ok && self.lost_worker(after, worker, now)
            } else {
                after.spec_published() == response_catalog(value) && after.spec_phase() == self.spec_phase()
                    && after.spec_active() == self.spec_active() && after.spec_candidate() == self.spec_candidate()
            },
            InternalAction::CandidateInitialize => if has_error {
                after.spec_candidate() is None && after.spec_active() == self.spec_active()
            } else if self.spec_kernel().phase == SessionPhase::AwaitingInitialized {
                self.spec_candidate() matches Some((t, _)) ==> after.spec_active() == Some(t)
                    && after.spec_candidate() is None && after.spec_phase() == RolloverPhase::Idle
            } else {
                match (self.spec_candidate(), crate::host::spec_replay_seed(self.spec_kernel().phase, self.spec_kernel().seed)) {
                    (None, _) => r is Ok && after.spec_candidate() is None && after.spec_active() == self.spec_active(),
                    (Some((t, _)), Ok(Some(seed))) => if seed.notification is Some && self.spec_next_internal() < u64::MAX {
                        let start = before_actions.push(SupervisorAction::Report(Notice::CandidateInitialized));
                        &&& r is Ok
                        &&& after.spec_candidate() == self.spec_candidate()
                        &&& after.spec_active() == self.spec_active()
                        &&& after.spec_internal().len() > 0
                        &&& after.spec_internal().last() == (
                            next_internal_id(self.spec_next_internal(), t, "tools"@),
                            t,
                            InternalAction::CandidateCatalog,
                        )
                        &&& after_actions.len() == start.len() + 2
                        &&& sent(start, after_actions.drop_last(), t, initialized_json())
                        &&& sent(
                            after_actions.drop_last(),
                            after_actions,
                            t,
                            tools_list_json(request_id_json(next_internal_id(self.spec_next_internal(), t, "tools"@))),
                        )
                    } else {
                        after.spec_candidate() is None && after.spec_active() == self.spec_active()
                    },
                    (Some(_), _) => after.spec_candidate() is None && after.spec_active() == self.spec_active(),
                }
            },
            InternalAction::CandidateCatalog => if has_error || response_catalog(value) is None {
                after.spec_candidate() is None && after.spec_active() == self.spec_active()
            } else if self.spec_candidate() is Some && !(self.spec_published() matches Some(p) && crate::effect::items_same(
                p.public_tools,
                response_catalog(value)->0.public_tools,
            )) {
                &&& r is Ok
                &&& after.spec_phase() == RolloverPhase::AwaitingCatalogRefresh
                &&& after.spec_candidate() == self.spec_candidate()
                &&& after_actions.len() == before_actions.len() + 3
                &&& after_actions.take(before_actions.len() as int) == before_actions
                &&& after_actions[before_actions.len() as int + 1] matches SupervisorAction::WriteClient(m) && m@
                    == list_changed_json()
                &&& after_actions.last() == SupervisorAction::Report(Notice::CatalogChanged)
            } else if self.spec_candidate() is Some {
                self.drain_step(
                    after,
                    self.spec_kernel(),
                    r,
                    before_actions.push(SupervisorAction::Report(Notice::CandidateCatalogReceived)).push(
                        SupervisorAction::Report(Notice::CandidateReady),
                    ),
                    after_actions,
                )
            } else {
                r is Ok && after_actions == before_actions.push(SupervisorAction::Report(Notice::CandidateCatalogReceived))
            },
            InternalAction::RestoreJournal(i) => if has_error || i == usize::MAX {
                after.spec_candidate() is None && after.spec_active() == self.spec_active()
            } else {
                match self.spec_candidate() {
                    None => r is Ok && after.spec_active() == self.spec_active(),
                    Some((t, _)) => if i + 1 >= self.spec_journal().entries.len() {
                        after.spec_active() == Some(t) && after.spec_phase() == RolloverPhase::Idle
                            && after.spec_candidate() is None
                    } else {
                        &&& self.spec_next_internal() == u64::MAX ==> after.spec_candidate() is None
                        &&& after.spec_candidate() == self.spec_candidate() ==> r is Ok && after.spec_internal().len() > 0
                            && after.spec_internal().last() == (
                            next_internal_id(self.spec_next_internal(), t, "journal"@),
                            t,
                            InternalAction::RestoreJournal((i + 1) as usize),
                        ) && (after_actions.last() matches SupervisorAction::SendWorker { token: w, .. } && w == t)
                        &&& after.spec_candidate() != self.spec_candidate() ==> after.spec_candidate() is None
                            && after.spec_active() == self.spec_active()
                    }
                }
            },
        }
    }

    /// Whether worker `token` is the candidate.
    pub open spec fn is_candidate_token(&self, token: u64) -> bool {
        self.spec_candidate() matches Some((t, _)) && t == token
    }

    /// A worker's request `id`, with message `value`, went to the client under the next
    /// callback identity, which now routes the client's answer back to the worker.
    pub open spec fn forwarded_callback(
        &self,
        after: &Self,
        token: u64,
        id: RequestIdView,
        value: JsonView,
        before_actions: Seq<SupervisorAction>,
        after_actions: Seq<SupervisorAction>,
    ) -> bool {
        let public = RequestIdView::Text(callback_id_text((self.spec_next_callback() + 1) as u64));
        &&& self.spec_next_callback() < u64::MAX
        &&& after.spec_next_callback() == self.spec_next_callback() + 1
        &&& after.spec_callbacks() == self.spec_callbacks().push((public, token, id))
        &&& after_actions.len() == before_actions.len() + 1
        &&& after_actions.drop_last() == before_actions
        &&& after_actions.last() matches SupervisorAction::WriteClient(m) && with_id(value, request_id_json(public))
            == Some(m@)
    }

    /// When a recovery attempt is due, if one is scheduled.
    pub closed spec fn spec_retry_at(&self) -> Option<u64> {
        self.retry_at
    }

    /// The generation of the candidate's release.
    pub closed spec fn spec_candidate_generation(&self) -> Option<Seq<char>> {
        match self.candidate {
            Some(c) => Some(c.worker.release@.generation),
            None => None,
        }
    }

    /// When the candidate is given up unless it is ready.
    pub closed spec fn spec_candidate_deadline(&self) -> Option<u64> {
        match self.candidate {
            Some(c) => Some(c.deadline),
            None => None,
        }
    }

    /// Whether the candidate, prepared for `purpose`, is past its deadline at `now`.
    pub open spec fn candidate_expired(&self, purpose: CandidatePurpose, now: u64) -> bool {
        match (self.spec_candidate(), self.spec_candidate_deadline()) {
            (Some((_, p)), Some(deadline)) => p == purpose && now >= deadline,
            _ => false,
        }
    }

    /// The state after losing worker `token` at `now`: the loss of the active worker drops the
    /// candidate, requeues pending work for replay within the budget, and makes recovery due at
    /// once; the loss of any other worker changes nothing here.
    pub open spec fn lost_worker(&self, after: &Self, token: u64, now: u64) -> bool {
        if self.spec_active() == Some(token) {
            &&& after.spec_active() is None
            &&& after.spec_phase() == RolloverPhase::Recovering
            &&& after.spec_candidate() is None
            &&& after.spec_retry_at() == Some(now)
            &&& after.spec_kernel() == crate::host::spec_requeue_pending_for_replay(
                self.spec_kernel(),
                ReplayBudget { max_attempts: MAX_REPLAY_ATTEMPTS, queue_capacity: QUEUE_CAPACITY },
            ).0
        } else {
            &&& after.spec_active() == self.spec_active()
            &&& after.spec_phase() == self.spec_phase()
            &&& after.spec_candidate() == self.spec_candidate()
            &&& after.spec_retry_at() == self.spec_retry_at()
            &&& after.spec_kernel() == self.spec_kernel()
        }
    }

    /// The host-internal request identities issued.
    pub closed spec fn spec_next_internal(&self) -> u64 {
        self.next_internal
    }

    /// The worker identities issued.
    pub closed spec fn spec_next_worker(&self) -> u64 {
        self.next_worker
    }

    /// The client's `initialize` frame as captured for replay.
    pub closed spec fn spec_initialize_frame(&self) -> Option<FrameView> {
        frame_opt_view(self.initialize_frame)
    }

    /// The step after the draining incumbent answers while the kernel is `kernel`: while a
    /// dispatch is in flight or the incumbent has a callback open, nothing more happens; then a
    /// pinned or checkpointed journal rejects the candidate, an empty journal activates it, and
    /// otherwise the first journal entry is sent to it.
    pub open spec fn drain_step(
        &self,
        after: &Self,
        kernel: KernelView,
        r: Result<(), SupervisorError>,
        before_actions: Seq<SupervisorAction>,
        after_actions: Seq<SupervisorAction>,
    ) -> bool {
        &&& extends(before_actions, after_actions)
        &&& if dispatch_in_flight(kernel) || owned_by(self.spec_callbacks(), self.spec_active()) != 0 {
            &&& r is Ok
            &&& after.spec_kernel() == kernel
            &&& after.spec_phase() == RolloverPhase::Draining
            &&& after.spec_candidate() == self.spec_candidate()
            &&& after.spec_active() == self.spec_active()
            &&& after_actions == before_actions
        } else if after.spec_journal().pinned || after.spec_journal().checkpointed {
            after.spec_candidate() is None && after.spec_active() == self.spec_active()
        } else {
            match self.spec_candidate() {
                Some((t, _)) => if after.spec_journal().entries.len() == 0 {
                    after.spec_active() == Some(t) && after.spec_phase() == RolloverPhase::Idle
                        && after.spec_candidate() is None
                } else {
                    &&& after.spec_candidate() == self.spec_candidate()
                    &&& after.spec_active() == self.spec_active()
                    &&& after.spec_phase() == RolloverPhase::Draining
                    &&& after.spec_kernel() == kernel
                    &&& r is Ok ==> after.spec_internal().len() > 0 && after.spec_internal().last() == (
                        next_internal_id(self.spec_next_internal(), t, "journal"@),
                        t,
                        InternalAction::RestoreJournal(0),
                    ) && (after_actions.last() matches SupervisorAction::SendWorker { token: w, .. } && w == t)
                },
                None => r is Ok && after.spec_kernel() == kernel && after.spec_active() == self.spec_active()
                    && after_actions == before_actions,
            }
        }
    }

    /// An incumbent loses authority only to its loss or to activation: after a step that began
    /// with an active worker, the active worker is that one, none, or the candidate that the step
    /// began with. A step that began with no active worker may launch one directly.
    pub open spec fn keeps_authority(&self, after: &Self) -> bool {
        ||| self.spec_active() is None
        ||| after.spec_active() == self.spec_active()
        ||| after.spec_active() is None
        ||| self.spec_candidate() matches Some((t, _)) && after.spec_active() == Some(t)
    }

    /// Starts a supervisor over its initial release: the first worker is launched at once.
    pub fn start(config: SupervisorConfig) -> (r: (Self, Vec<SupervisorAction>))
        ensures
            r.0.wf(),
            r.0.spec_active() == Some(1u64),
            r.0.spec_phase() == RolloverPhase::Idle,
            r.0.spec_kernel() == crate::host::cold_kernel(),
            r.1@.len() == 1,
            r.1@[0] matches SupervisorAction::SpawnWorker { token, .. } && token == 1,
    {
        let initial = config.initial.clone();
        let recovery_release = config.initial.clone();
        let spawn_release = config.initial.clone();
        let mut actions: Vec<SupervisorAction> = Vec::new();
        actions.push(SupervisorAction::SpawnWorker { token: 1, release: spawn_release });
        let core = Self {
            config,
            kernel: HostSessionKernel::cold(),
            active: Some(WorkerSlot { token: 1, release: initial, catalog: None }),
            candidate: None,
            published_catalog: None,
            internal: Vec::new(),
            callbacks: Vec::new(),
            journal: SessionJournal::new(),
            phase: RolloverPhase::Idle,
            next_worker: 1,
            next_internal: 0,
            next_callback: 0,
            retry_at: None,
            recovery_release,
            rejected_generation: None,
            refresh_request: None,
            initialize_frame: None,
        };
        (core, actions)
    }

    /// The launch configuration.
    pub fn config(&self) -> (r: &SupervisorConfig)
        ensures
            r == self.spec_config(),
    {
        &self.config
    }

    /// The launch configuration.
    pub closed spec fn spec_config(&self) -> &SupervisorConfig {
        &self.config
    }

    /// The active worker's token.
    pub fn active_token(&self) -> (r: Option<u64>)
        ensures
            r == self.spec_active(),
    {
        match &self.active {
            Some(w) => Some(w.token),
            None => None,
        }
    }

    /// Whether new work is held back while the incumbent drains or a replacement is prepared.
    pub fn gating_new_work(&self) -> (r: bool)
        ensures
            r == (self.spec_phase() == RolloverPhase::Draining || self.spec_phase() == RolloverPhase::Recovering),
    {
        self.phase == RolloverPhase::Draining || self.phase == RolloverPhase::Recovering
    }

    fn candidate_token(&self) -> (r: Option<u64>)
        ensures
            r == match self.spec_candidate() {
                Some((t, _)) => Some(t),
                None => None,
            },
    {
        match &self.candidate {
            Some(c) => Some(c.worker.token),
            None => None,
        }
    }

    /// Number of callbacks routed to the active worker.
    fn active_callbacks(&self) -> (r: usize)
        ensures
            r == owned_by(self.spec_callbacks(), self.spec_active()),
    {
        let active = self.active_token();
        let ghost v = self.spec_callbacks();
        let mut count: usize = 0;
        let mut i: usize = 0;
        while i < self.callbacks.len()
            invariant
                i <= self.callbacks.len(),
                count <= i,
                v == self.spec_callbacks(),
                active == self.spec_active(),
                count == owned_by(v.take(i as int), active),
            decreases self.callbacks.len() - i,
        {
            assert(v.take(i + 1).drop_last() =~= v.take(i as int));
            assert(v[i as int] == (self.callbacks@[i as int].public@, self.callbacks@[i as int].worker, self.callbacks@[i as int].original@));
            if Some(self.callbacks[i].worker) == active {
                count += 1;
            }
            i += 1;
        }
        assert(v.take(i as int) =~= v);
        count
    }

    /// The next host-internal request identity for worker `token`.
    fn internal_id(&mut self, token: u64, kind: &str) -> (r: Result<RequestId, SupervisorError>)
        ensures
            old(self).next_internal == u64::MAX ==> r == Err::<RequestId, SupervisorError>(
                SupervisorError::InternalIdExhausted,
            ) && final(self).next_internal == old(self).next_internal,
            old(self).next_internal < u64::MAX ==> (r matches Ok(id) && id@ == RequestIdView::Text(
                internal_id_text(token, kind@, (old(self).next_internal + 1) as u64),
            )) && final(self).next_internal == old(self).next_internal + 1,
            final(self).internal == old(self).internal,
            final(self).callbacks == old(self).callbacks,
            final(self).next_callback == old(self).next_callback,
            final(self).rejected_generation == old(self).rejected_generation,
            final(self).candidate == old(self).candidate,
            final(self).retry_at == old(self).retry_at,
            final(self).journal@ == old(self).journal@,
            final(self).kernel@ == old(self).kernel@,
            final(self).phase == old(self).phase,
            final(self).active == old(self).active,
            final(self).published_catalog == old(self).published_catalog,
    {
        if self.next_internal == u64::MAX {
            return Err(SupervisorError::InternalIdExhausted);
        }
        self.next_internal = self.next_internal + 1;
        Ok(internal_request_id(token, kind, self.next_internal))
    }

    /// The next public callback identity.
    fn callback_id(&mut self) -> (r: Result<RequestId, SupervisorError>)
        ensures
            old(self).next_callback == u64::MAX ==> r == Err::<RequestId, SupervisorError>(
                SupervisorError::CallbackIdExhausted,
            ) && *final(self) == *old(self),
            old(self).next_callback < u64::MAX ==> (r matches Ok(id) && id@ == RequestIdView::Text(
                callback_id_text((old(self).next_callback + 1) as u64),
            )) && final(self).next_callback == old(self).next_callback + 1,
            final(self).callbacks == old(self).callbacks,
            final(self).candidate == old(self).candidate,
            final(self).retry_at == old(self).retry_at,
            final(self).journal@ == old(self).journal@,
            final(self).kernel@ == old(self).kernel@,
            final(self).phase == old(self).phase,
            final(self).active == old(self).active,
    {
        if self.next_callback == u64::MAX {
            return Err(SupervisorError::CallbackIdExhausted);
        }
        self.next_callback = self.next_callback + 1;
        Ok(callback_request_id(self.next_callback))
    }

    /// Forgets host-internal requests sent to worker `token`.
    fn forget_internal(&mut self, token: u64)
        ensures
            final(self).spec_internal() == without_worker(old(self).spec_internal(), token),
            final(self).callbacks == old(self).callbacks,
            final(self).next_callback == old(self).next_callback,
            final(self).rejected_generation == old(self).rejected_generation,
            final(self).candidate == old(self).candidate,
            final(self).retry_at == old(self).retry_at,
            final(self).journal@ == old(self).journal@,
            final(self).kernel@ == old(self).kernel@,
            final(self).phase == old(self).phase,
            final(self).active == old(self).active,
            final(self).published_catalog == old(self).published_catalog,
    {
        let ghost whole = self.spec_internal();
        let mut kept: Vec<InternalRequest> = Vec::new();
        let mut rest: Vec<InternalRequest> = Vec::new();
        std::mem::swap(&mut rest, &mut self.internal);
        assert(rest@.map_values(|q: InternalRequest| (q.id@, q.worker, q.action)) == whole);
        assert(kept@.map_values(|q: InternalRequest| (q.id@, q.worker, q.action)) =~= Seq::<(RequestIdView, u64, InternalAction)>::empty());
        while rest.len() > 0
            invariant
                kept@.map_values(|q: InternalRequest| (q.id@, q.worker, q.action)) + without_worker(
                    rest@.map_values(|q: InternalRequest| (q.id@, q.worker, q.action)),
                    token,
                ) == without_worker(whole, token),
            decreases rest.len(),
        {
            let ghost rv = rest@.map_values(|q: InternalRequest| (q.id@, q.worker, q.action));
            let ghost kv = kept@.map_values(|q: InternalRequest| (q.id@, q.worker, q.action));
            let entry = rest.remove(0);
            assert(rest@.map_values(|q: InternalRequest| (q.id@, q.worker, q.action)) =~= rv.drop_first());
            assert(rv[0] == (entry.id@, entry.worker, entry.action));
            if entry.worker != token {
                kept.push(entry);
                assert(kept@.map_values(|q: InternalRequest| (q.id@, q.worker, q.action)) =~= kv.push(rv[0]));
                assert(kv.push(rv[0]) + without_worker(rv.drop_first(), token) =~= kv + (seq![rv[0]] + without_worker(rv.drop_first(), token)));
            }
        }
        assert(rest@.map_values(|q: InternalRequest| (q.id@, q.worker, q.action)) =~= Seq::<(RequestIdView, u64, InternalAction)>::empty());
        assert(kept@.map_values(|q: InternalRequest| (q.id@, q.worker, q.action)) =~= without_worker(whole, token));
        self.internal = kept;
    }

    /// Forgets callbacks routed to worker `token`.
    fn forget_callbacks(&mut self, token: u64)
        ensures
            final(self).spec_callbacks() == without_worker(old(self).spec_callbacks(), token),
            final(self).internal == old(self).internal,
            final(self).next_callback == old(self).next_callback,
            final(self).rejected_generation == old(self).rejected_generation,
            final(self).candidate == old(self).candidate,
            final(self).retry_at == old(self).retry_at,
            final(self).journal@ == old(self).journal@,
            final(self).kernel@ == old(self).kernel@,
            final(self).phase == old(self).phase,
            final(self).active == old(self).active,
            final(self).published_catalog == old(self).published_catalog,
    {
        let ghost whole = self.spec_callbacks();
        let mut kept: Vec<CallbackRoute> = Vec::new();
        let mut rest: Vec<CallbackRoute> = Vec::new();
        std::mem::swap(&mut rest, &mut self.callbacks);
        assert(rest@.map_values(|c: CallbackRoute| (c.public@, c.worker, c.original@)) == whole);
        assert(kept@.map_values(|c: CallbackRoute| (c.public@, c.worker, c.original@)) =~= Seq::<(RequestIdView, u64, RequestIdView)>::empty());
        while rest.len() > 0
            invariant
                kept@.map_values(|c: CallbackRoute| (c.public@, c.worker, c.original@)) + without_worker(
                    rest@.map_values(|c: CallbackRoute| (c.public@, c.worker, c.original@)),
                    token,
                ) == without_worker(whole, token),
            decreases rest.len(),
        {
            let ghost rv = rest@.map_values(|c: CallbackRoute| (c.public@, c.worker, c.original@));
            let ghost kv = kept@.map_values(|c: CallbackRoute| (c.public@, c.worker, c.original@));
            let entry = rest.remove(0);
            assert(rest@.map_values(|c: CallbackRoute| (c.public@, c.worker, c.original@)) =~= rv.drop_first());
            assert(rv[0] == (entry.public@, entry.worker, entry.original@));
            if entry.worker != token {
                kept.push(entry);
                assert(kept@.map_values(|c: CallbackRoute| (c.public@, c.worker, c.original@)) =~= kv.push(rv[0]));
                assert(kv.push(rv[0]) + without_worker(rv.drop_first(), token) =~= kv + (seq![rv[0]] + without_worker(rv.drop_first(), token)));
            }
        }
        assert(rest@.map_values(|c: CallbackRoute| (c.public@, c.worker, c.original@)) =~= Seq::<(RequestIdView, u64, RequestIdView)>::empty());
        assert(kept@.map_values(|c: CallbackRoute| (c.public@, c.worker, c.original@)) =~= without_worker(whole, token));
        self.callbacks = kept;
    }

    /// Takes the host-internal request with identity `id`.
    fn take_internal(&mut self, id: &RequestId) -> (r: Option<InternalRequest>)
        ensures
            r is None <==> forall|k: int| 0 <= k < old(self).spec_internal().len() ==> (
            #[trigger] old(self).spec_internal()[k]).0 != id@,
            r matches Some(q) ==> q.id@ == id@ && first_internal(old(self).spec_internal(), id@) == Some(
                (q.worker, q.action),
            ),
            r is None ==> *final(self) == *old(self) && first_internal(old(self).spec_internal(), id@) is None,
            final(self).next_internal == old(self).next_internal,
            final(self).callbacks == old(self).callbacks,
            final(self).next_callback == old(self).next_callback,
            final(self).rejected_generation == old(self).rejected_generation,
            final(self).candidate == old(self).candidate,
            final(self).retry_at == old(self).retry_at,
            final(self).journal@ == old(self).journal@,
            final(self).kernel@ == old(self).kernel@,
            final(self).phase == old(self).phase,
            final(self).active == old(self).active,
            final(self).published_catalog == old(self).published_catalog,
    {
        match find_internal(&self.internal, id) {
            Some(i) => {
                assert(old(self).spec_internal()[i as int].0 == id@);
                proof {
                    let v = old(self).spec_internal();
                    assert forall|k: int| 0 <= k < i implies (#[trigger] v[k]).0 != id@ by {
                        assert(v[k] == (self.internal@[k].id@, self.internal@[k].worker, self.internal@[k].action));
                    }
                    lemma_first_internal_at(v, id@, i as int);
                }
                Some(self.internal.remove(i))
            },
            None => {
                assert forall|k: int| 0 <= k < old(self).spec_internal().len() implies (
                #[trigger] old(self).spec_internal()[k]).0 != id@ by {
                    assert(old(self).spec_internal()[k] == (self.internal@[k].id@, self.internal@[k].worker, self.internal@[k].action));
                }
                proof {
                    lemma_first_internal_absent(old(self).spec_internal(), id@);
                }
                None
            },
        }
    }

    /// Takes the callback route with public identity `id`.
    fn take_callback(&mut self, id: &RequestId) -> (r: Option<CallbackRoute>)
        ensures
            match callback_position(old(self).spec_callbacks(), id@) {
                Some(i) => r matches Some(c) && old(self).spec_callbacks()[i] == (c.public@, c.worker, c.original@)
                    && final(self).spec_callbacks() == old(self).spec_callbacks().remove(i),
                None => r is None && *final(self) == *old(self),
            },
            final(self).internal == old(self).internal,
            final(self).next_callback == old(self).next_callback,
            final(self).candidate == old(self).candidate,
            final(self).retry_at == old(self).retry_at,
            final(self).journal@ == old(self).journal@,
            final(self).kernel@ == old(self).kernel@,
            final(self).phase == old(self).phase,
            final(self).active == old(self).active,
            final(self).published_catalog == old(self).published_catalog,
    {
        let ghost v = old(self).spec_callbacks();
        match find_callback(&self.callbacks, id) {
            Some(i) => {
                proof {
                    assert forall|k: int| 0 <= k < i implies (#[trigger] v[k]).0 != id@ by {
                        assert(v[k] == (self.callbacks@[k].public@, self.callbacks@[k].worker, self.callbacks@[k].original@));
                    }
                    lemma_callback_position(v, id@, i as int);
                }
                let c = self.callbacks.remove(i);
                proof {
                    assert(self.spec_callbacks() =~= v.remove(i as int));
                }
                Some(c)
            },
            None => {
                proof {
                    assert forall|k: int| 0 <= k < v.len() implies (#[trigger] v[k]).0 != id@ by {
                        assert(v[k] == (self.callbacks@[k].public@, self.callbacks@[k].worker, self.callbacks@[k].original@));
                    }
                    lemma_callback_position(v, id@, v.len() as int);
                }
                None
            },
        }
    }
}

/// The entries of `s` that do not belong to worker `token`, in order.
pub open spec fn without_worker<A, B>(s: Seq<(A, u64, B)>, token: u64) -> Seq<(A, u64, B)>
    decreases s.len(),
{
    if s.len() == 0 {
        s
    } else if s[0].1 == token {
        without_worker(s.drop_first(), token)
    } else {
        seq![s[0]] + without_worker(s.drop_first(), token)
    }
}

/// The number of entries of `s` that belong to worker `token`.
pub open spec fn owned_by<A, B>(s: Seq<(A, u64, B)>, token: Option<u64>) -> nat
    decreases s.len(),
{
    if s.len() == 0 {
        0
    } else {
        owned_by(s.drop_last(), token) + if token == Some(s.last().1) {
            1nat
        } else {
            0nat
        }
    }
}

/// The position of the first callback route with public identity `id`.
pub open spec fn callback_position(callbacks: Seq<(RequestIdView, u64, RequestIdView)>, id: RequestIdView) -> Option<int>
    decreases callbacks.len(),
{
    if callbacks.len() == 0 {
        None
    } else if callbacks[0].0 == id {
        Some(0)
    } else {
        match callback_position(callbacks.drop_first(), id) {
            Some(i) => Some(i + 1),
            None => None,
        }
    }
}

proof fn lemma_callback_position_in(callbacks: Seq<(RequestIdView, u64, RequestIdView)>, id: RequestIdView)
    ensures
        callback_position(callbacks, id) matches Some(i) ==> 0 <= i < callbacks.len() && callbacks[i].0 == id,
    decreases callbacks.len(),
{
    if callbacks.len() > 0 && callbacks[0].0 != id {
        lemma_callback_position_in(callbacks.drop_first(), id);
        if let Some(i) = callback_position(callbacks.drop_first(), id) {
            assert(callbacks.drop_first()[i] == callbacks[i + 1]);
        }
    }
}

proof fn lemma_callback_position(callbacks: Seq<(RequestIdView, u64, RequestIdView)>, id: RequestIdView, i: int)
    requires
        0 <= i <= callbacks.len(),
        i < callbacks.len() ==> callbacks[i].0 == id,
        forall|k: int| 0 <= k < i ==> (#[trigger] callbacks[k]).0 != id,
    ensures
        callback_position(callbacks, id) == if i < callbacks.len() {
            Some(i)
        } else {
            None::<int>
        },
    decreases i,
{
    if i > 0 {
        assert(callbacks[0].0 != id);
        assert forall|k: int| 0 <= k < i - 1 implies (#[trigger] callbacks.drop_first()[k]).0 != id by {
            assert(callbacks.drop_first()[k] == callbacks[k + 1]);
        }
        if i < callbacks.len() {
            assert(callbacks.drop_first()[i - 1] == callbacks[i]);
        }
        lemma_callback_position(callbacks.drop_first(), id, i - 1);
    } else if callbacks.len() == 0 {
    }
}

/// The worker and purpose of the first host-internal request with identity `id`.
pub open spec fn first_internal(internal: Seq<(RequestIdView, u64, InternalAction)>, id: RequestIdView) -> Option<
    (u64, InternalAction),
>
    decreases internal.len(),
{
    if internal.len() == 0 {
        None
    } else if internal[0].0 == id {
        Some((internal[0].1, internal[0].2))
    } else {
        first_internal(internal.drop_first(), id)
    }
}

proof fn lemma_first_internal_at(internal: Seq<(RequestIdView, u64, InternalAction)>, id: RequestIdView, i: int)
    requires
        0 <= i < internal.len(),
        internal[i].0 == id,
        forall|k: int| 0 <= k < i ==> (#[trigger] internal[k]).0 != id,
    ensures
        first_internal(internal, id) == Some((internal[i].1, internal[i].2)),
    decreases i,
{
    if i > 0 {
        assert(internal[0].0 != id);
        assert forall|k: int| 0 <= k < i - 1 implies (#[trigger] internal.drop_first()[k]).0 != id by {
            assert(internal.drop_first()[k] == internal[k + 1]);
        }
        lemma_first_internal_at(internal.drop_first(), id, i - 1);
    }
}

proof fn lemma_first_internal_absent(internal: Seq<(RequestIdView, u64, InternalAction)>, id: RequestIdView)
    requires
        forall|k: int| 0 <= k < internal.len() ==> (#[trigger] internal[k]).0 != id,
    ensures
        first_internal(internal, id) is None,
    decreases internal.len(),
{
    if internal.len() > 0 {
        assert(internal[0].0 != id);
        assert forall|k: int| 0 <= k < internal.len() - 1 implies (#[trigger] internal.drop_first()[k]).0 != id by {
            assert(internal.drop_first()[k] == internal[k + 1]);
        }
        lemma_first_internal_absent(internal.drop_first(), id);
    }
}

fn find_internal(v: &Vec<InternalRequest>, id: &RequestId) -> (r: Option<usize>)
    ensures
        r matches Some(i) ==> i < v@.len() && v@[i as int].id@ == id@ && forall|k: int| 0 <= k < i ==> (
        #[trigger] v@[k]).id@ != id@,
        r is None ==> forall|k: int| 0 <= k < v@.len() ==> (#[trigger] v@[k]).id@ != id@,
{
    let mut i: usize = 0;
    while i < v.len()
        invariant
            i <= v.len(),
            forall|k: int| 0 <= k < i ==> (#[trigger] v@[k]).id@ != id@,
        decreases v.len() - i,
    {
        if v[i].id.same_as(id) {
            return Some(i);
        }
        i += 1;
    }
    None
}

fn find_callback(v: &Vec<CallbackRoute>, id: &RequestId) -> (r: Option<usize>)
    ensures
        r matches Some(i) ==> i < v@.len() && v@[i as int].public@ == id@ && forall|k: int| 0 <= k < i ==> (
        #[trigger] v@[k]).public@ != id@,
        r is None ==> forall|k: int| 0 <= k < v@.len() ==> (#[trigger] v@[k]).public@ != id@,
{
    let mut i: usize = 0;
    while i < v.len()
        invariant
            i <= v.len(),
            forall|k: int| 0 <= k < i ==> (#[trigger] v@[k]).public@ != id@,
        decreases v.len() - i,
    {
        if v[i].public.same_as(id) {
            return Some(i);
        }
        i += 1;
    }
    None
}

impl SupervisorCore {
    /// Sends a host-built message to an owned worker.
    fn send_worker(&self, token: u64, message: JsonValue, actions: &mut Vec<SupervisorAction>) -> (r: Result<(), SupervisorError>)
        ensures
            r is Err <==> !(self.spec_active() == Some(token) || self.is_candidate_token(token)),
            r is Err ==> final(actions)@ == old(actions)@,
            r is Ok ==> sent(old(actions)@, final(actions)@, token, message@),
    {
        let owned_worker = self.active_token() == Some(token) || self.candidate_token() == Some(token);
        if !owned_worker {
            return Err(SupervisorError::WorkerNotOwned(token));
        }
        actions.push(SupervisorAction::SendWorker { token, message });
        assert(actions@.drop_last() =~= old(actions)@);
        Ok(())
    }

    /// Forwards a client frame to the active worker.
    fn forward_active(&self, frame: &FramedMessage, actions: &mut Vec<SupervisorAction>) -> (r: Result<(), SupervisorError>)
        ensures
            match self.spec_active() {
                Some(t) => r is Ok && forwarded(old(actions)@, final(actions)@, t, frame@),
                None => r == Err::<(), SupervisorError>(SupervisorError::ActiveWorkerAbsent) && final(actions)@ == old(
                    actions,
                )@,
            },
    {
        match self.active_token() {
            Some(token) => {
                actions.push(SupervisorAction::ForwardToWorker { token, frame: frame.duplicate() });
                assert(actions@.drop_last() =~= old(actions)@);
                Ok(())
            },
            None => Err(SupervisorError::ActiveWorkerAbsent),
        }
    }

    /// Answers a refused client frame: an error response for a request, a report otherwise.
    fn reject_client_frame(&self, frame: &FramedMessage, rejection: HostRejection, actions: &mut Vec<SupervisorAction>)
        ensures
            refused(old(actions)@, final(actions)@, frame@.envelope, rejection),
    {
        match frame.classify() {
            RpcEnvelopeKind::Request { id, .. } => {
                actions.push(SupervisorAction::WriteClient(rpc_error(&id, rejection.code(), rejection.message())));
                assert(actions@.drop_last() =~= old(actions)@);
            },
            _ => {
                actions.push(SupervisorAction::Report(Notice::ClientFrameRefused(rejection)));
                assert(actions@.drop_last() =~= old(actions)@);
            },
        }
    }

    /// Answers a `tools/list` request from the published catalog.
    fn reply_catalog(&self, request: &FramedMessage, actions: &mut Vec<SupervisorAction>) -> (r: Result<(), SupervisorError>)
        ensures
            match (request@.envelope, self.spec_published()) {
                (EnvelopeView::Request { id, .. }, Some(c)) => r is Ok && final(actions)@.len() == old(actions)@.len()
                    + 1 && final(actions)@.drop_last() == old(actions)@ && (final(actions)@.last() matches SupervisorAction::WriteClient(m)
                    && m@ == catalog_reply_json(request_id_json(id), c.public_tools)),
                _ => r is Err && final(actions)@ == old(actions)@,
            },
    {
        let id = match request.classify() {
            RpcEnvelopeKind::Request { id, .. } => id,
            _ => {
                return Err(SupervisorError::CatalogReplyTargetNotRequest);
            },
        };
        match &self.published_catalog {
            Some(catalog) => {
                actions.push(SupervisorAction::WriteClient(catalog_reply(&id, catalog.public_tools())));
                Ok(())
            },
            None => Err(SupervisorError::CatalogAbsent),
        }
    }

    /// Holds a client frame in the kernel queue, or answers it with the refusal.
    fn queue_or_reject(&mut self, frame: FramedMessage, actions: &mut Vec<SupervisorAction>)
        requires
            old(self).wf(),
        ensures
            final(self).wf(),
            old(self).keeps_authority(&*final(self)),
            final(self).phase == old(self).phase,
            final(self).active == old(self).active,
            final(self).candidate == old(self).candidate,
            final(self).retry_at == old(self).retry_at,
            match crate::host::spec_queue_client_frame(old(self).kernel@, frame@, QUEUE_CAPACITY) {
                Ok(k) => final(self).kernel@ == k && final(actions)@ == old(actions)@,
                Err(e) => final(self).kernel@ == old(self).kernel@ && refused(old(actions)@, final(actions)@, frame@.envelope, e),
            },
    {
        let copy = frame.duplicate();
        match self.kernel.queue_client_frame(frame, QUEUE_CAPACITY) {
            Ok(()) => {},
            Err(rejection) => {
                self.reject_client_frame(&copy, rejection, actions);
            },
        }
    }

    /// Dispatches queued client work to the active worker while no rollover holds it back.
    fn flush_queue(&mut self, actions: &mut Vec<SupervisorAction>) -> (r: Result<(), SupervisorError>)
        requires
            old(self).wf(),
        ensures
            final(self).wf(),
            old(self).keeps_authority(&*final(self)),
            final(self).phase == old(self).phase,
            final(self).active == old(self).active,
            final(self).candidate == old(self).candidate,
            final(self).rejected_generation == old(self).rejected_generation,
            final(self).published_catalog == old(self).published_catalog,
            final(self).retry_at == old(self).retry_at,
            final(self).journal@ == old(self).journal@,
            extends(old(actions)@, final(actions)@),
            !(old(self).phase == RolloverPhase::Idle && old(self).active is Some) ==> r is Ok && *final(self)
                == *old(self) && final(actions)@ == old(actions)@,
            r is Ok && old(self).phase == RolloverPhase::Idle && old(self).active is Some
                ==> (crate::host::spec_pop_next_dispatch(final(self).kernel@).0 matches Ok(o) && (o is Empty
                || o is HeldForProbe)),
    {
        if !(self.phase == RolloverPhase::Idle && self.active.is_some()) {
            return Ok(());
        }
        while self.phase == RolloverPhase::Idle && self.active.is_some()
            invariant
                self.wf(),
                self.phase == old(self).phase,
                self.active == old(self).active,
                self.candidate == old(self).candidate,
                self.rejected_generation == old(self).rejected_generation,
                self.published_catalog == old(self).published_catalog,
                self.retry_at == old(self).retry_at,
                self.journal@ == old(self).journal@,
                extends(old(actions)@, actions@),
                self.phase == RolloverPhase::Idle && self.active is Some,
            ensures
                crate::host::spec_pop_next_dispatch(self.kernel@).0 matches Ok(o) && (o is Empty || o is HeldForProbe),
            decreases self.kernel@.queue.len(),
        {
            let ghost before = self.kernel@;
            let ghost acts = actions@;
            let outcome = match self.kernel.pop_next_dispatch() {
                Ok(o) => o,
                Err(e) => {
                    return Err(SupervisorError::Session(e));
                },
            };
            match outcome {
                DispatchQueueOutcome::Replay(frame) => {
                    self.forward_active(&frame, actions)?;
                },
                DispatchQueueOutcome::ClientFrame(frame) => {
                    match frame.classify() {
                        RpcEnvelopeKind::Request { method, .. } => {
                            if crate::text::str_eq(method.as_str(), "tools/list") {
                                self.reply_catalog(&frame, actions)?;
                            } else {
                                let replay = classify_request(self.published_catalog.as_ref(), &frame, &method);
                                match self.kernel.begin_request_dispatch(&frame, replay, PENDING_CAPACITY) {
                                    Ok(_) => {
                                        self.forward_active(&frame, actions)?;
                                    },
                                    Err(rejection) => {
                                        self.reject_client_frame(&frame, rejection, actions);
                                    },
                                }
                            }
                        },
                        RpcEnvelopeKind::Notification { .. } => {
                            self.forward_active(&frame, actions)?;
                        },
                        RpcEnvelopeKind::Response { .. } => {
                            return Err(SupervisorError::CallbackResponseQueued);
                        },
                    }
                },
                DispatchQueueOutcome::HeldForProbe { .. } | DispatchQueueOutcome::Empty => {
                    break;
                },
            }
            assert(self.kernel@.queue.len() < before.queue.len());
            assert(actions@ == acts || actions@.drop_last() == acts);
            assert forall|i: int| 0 <= i < old(actions)@.len() implies #[trigger] actions@[i] == old(actions)@[i] by {
                if actions@ != acts {
                    assert(actions@.drop_last()[i] == actions@[i]);
                }
            }
        }
        Ok(())
    }
}

impl SupervisorCore {
    /// Gives up the candidate, if any; a rollover candidate's generation is not tried again.
    /// With an active worker, the host returns to steady state and dispatches held work.
    fn reject_candidate(&mut self, reason: CandidateRejection, actions: &mut Vec<SupervisorAction>) -> (r: Result<(), SupervisorError>)
        requires
            old(self).wf(),
        ensures
            final(self).wf(),
            old(self).keeps_authority(&*final(self)),
            final(self).candidate is None,
            final(self).active == old(self).active,
            final(self).journal@ == old(self).journal@,
            extends(old(actions)@, final(actions)@),
            old(self).candidate matches Some(c) ==> final(actions)@.len() >= old(actions)@.len() + 2
                && final(actions)@[old(actions)@.len() as int] == SupervisorAction::KillWorker(c.worker.token)
                && final(actions)@[old(actions)@.len() + 1int] == SupervisorAction::Report(Notice::CandidateRejected(reason)),
            old(self).active is Some ==> final(self).phase == RolloverPhase::Idle,
            old(self).active is None ==> final(self).phase == old(self).phase && r is Ok && final(self).kernel@
                == old(self).kernel@ && final(self).retry_at == old(self).retry_at,
            match old(self).candidate {
                Some(c) => if c.purpose == CandidatePurpose::Rollover {
                    final(self).spec_rejected() == Some(c.worker.release@.generation)
                } else {
                    final(self).rejected_generation == old(self).rejected_generation
                },
                None => final(self).rejected_generation == old(self).rejected_generation,
            },
    {
        if let Some(candidate) = self.candidate.take() {
            if candidate.purpose == CandidatePurpose::Rollover {
                self.rejected_generation = Some(candidate.worker.release.generation().duplicate());
            }
            actions.push(SupervisorAction::KillWorker(candidate.worker.token));
            self.forget_internal(candidate.worker.token);
            actions.push(SupervisorAction::Report(Notice::CandidateRejected(reason)));
        }
        assert(extends(old(actions)@, actions@));
        if self.active.is_some() {
            self.phase = RolloverPhase::Idle;
            self.refresh_request = None;
            self.flush_queue(actions)?;
        }
        Ok(())
    }

    /// Handles the loss of worker `token` if it is the active one: its callbacks and any
    /// candidate are dropped, pending work is requeued for replay within the budget, refused
    /// requests are answered, and recovery is due at once.
    fn worker_loss(&mut self, token: Option<u64>, detail: String, now: u64, actions: &mut Vec<SupervisorAction>)
        requires
            old(self).wf(),
        ensures
            final(self).wf(),
            old(self).keeps_authority(&*final(self)),
            match token {
                Some(t) => old(self).lost_worker(&*final(self), t, now),
                None => final(self).spec_active() == old(self).spec_active() && final(self).phase == old(self).phase
                    && final(self).spec_candidate() == old(self).spec_candidate() && final(self).retry_at
                    == old(self).retry_at && final(self).kernel@ == old(self).kernel@,
            },
            (token is None || old(self).spec_active() != token) ==> *final(self) == *old(self) && final(actions)@
                == old(actions)@,
    {
        if token.is_none() || self.active_token() != token {
            return;
        }
        if let Some(lost) = self.active.take() {
            self.forget_callbacks(lost.token);
        }
        if let Some(candidate) = self.candidate.take() {
            actions.push(SupervisorAction::KillWorker(candidate.worker.token));
        }
        self.internal = Vec::new();
        self.phase = RolloverPhase::Recovering;
        let outcome = self.kernel.requeue_pending_for_replay(
            ReplayBudget { max_attempts: MAX_REPLAY_ATTEMPTS, queue_capacity: QUEUE_CAPACITY },
        );
        let mut i: usize = 0;
        while i < outcome.rejected.len()
            invariant
                i <= outcome.rejected.len(),
            decreases outcome.rejected.len() - i,
        {
            let rejected = &outcome.rejected[i];
            actions.push(
                SupervisorAction::WriteClient(
                    rpc_error(&rejected.request_id, rejected.reason.code(), rejected.reason.message()),
                ),
            );
            i += 1;
        }
        actions.push(SupervisorAction::Report(Notice::WorkerLost(detail)));
        self.retry_at = Some(now);
    }

    /// Makes the candidate the active worker: its catalog is published, its release becomes the
    /// recovery release, the incumbent is stopped, and held work is dispatched.
    fn activate_candidate(&mut self, actions: &mut Vec<SupervisorAction>) -> (r: Result<(), SupervisorError>)
        requires
            old(self).wf(),
        ensures
            final(self).wf(),
            old(self).keeps_authority(&*final(self)),
            final(self).journal@ == old(self).journal@,
            extends(old(actions)@, final(actions)@),
            old(self).candidate is None ==> r is Ok && *final(self) == *old(self) && final(actions)@ == old(actions)@,
            old(self).candidate matches Some(c) ==> final(self).spec_active() == Some(c.worker.token)
                && final(self).phase == RolloverPhase::Idle && final(self).candidate is None,
    {
        let candidate = match self.candidate.take() {
            Some(c) => c,
            None => {
                return Ok(());
            },
        };
        self.published_catalog = match &candidate.worker.catalog {
            Some(c) => Some(c.duplicate()),
            None => None,
        };
        self.recovery_release = candidate.worker.release.clone();
        let generation = candidate.worker.release.generation().duplicate();
        let incumbent = self.active.take();
        self.active = Some(candidate.worker);
        if let Some(incumbent) = incumbent {
            self.forget_callbacks(incumbent.token);
            actions.push(SupervisorAction::KillWorker(incumbent.token));
        }
        actions.push(SupervisorAction::Report(Notice::Activated(generation)));
        self.phase = RolloverPhase::Idle;
        self.retry_at = None;
        assert(extends(old(actions)@, actions@));
        if let Some(refresh) = self.refresh_request.take() {
            let ghost before_reply = actions@;
            self.reply_catalog(&refresh, actions)?;
            assert(actions@.drop_last() == before_reply);
            assert forall|i: int| 0 <= i < old(actions)@.len() implies #[trigger] actions@[i] == old(actions)@[i] by {
                assert(actions@.drop_last()[i] == actions@[i]);
            }
        }
        self.flush_queue(actions)
    }

    /// Sends journal entry `index` to the candidate, or activates it once the journal is replayed.
    fn continue_restore(&mut self, index: usize, actions: &mut Vec<SupervisorAction>) -> (r: Result<(), SupervisorError>)
        requires
            old(self).wf(),
        ensures
            final(self).wf(),
            old(self).keeps_authority(&*final(self)),
            final(self).journal@ == old(self).journal@,
            extends(old(actions)@, final(actions)@),
            index >= old(self).journal@.entries.len() ==> match old(self).spec_candidate() {
                Some((t, _)) => final(self).spec_active() == Some(t) && final(self).spec_phase() == RolloverPhase::Idle
                    && final(self).spec_candidate() is None,
                None => r is Ok && *final(self) == *old(self) && final(actions)@ == old(actions)@,
            },
            index < old(self).journal@.entries.len() ==> match old(self).spec_candidate() {
                None => r is Ok && *final(self) == *old(self) && final(actions)@ == old(actions)@,
                Some((t, _)) => {
                    &&& final(self).spec_candidate() == old(self).spec_candidate()
                    &&& final(self).active == old(self).active
                    &&& final(self).phase == old(self).phase
                    &&& final(self).kernel@ == old(self).kernel@
                    &&& old(self).next_internal == u64::MAX ==> r == Err::<(), SupervisorError>(
                        SupervisorError::InternalIdExhausted,
                    ) && final(actions)@ == old(actions)@
                    &&& r is Ok ==> final(self).spec_internal() == old(self).spec_internal().push(
                        (
                            next_internal_id(old(self).next_internal, t, "journal"@),
                            t,
                            InternalAction::RestoreJournal(index),
                        ),
                    ) && final(actions)@.len() == old(actions)@.len() + 1 && final(actions)@.drop_last() == old(
                        actions,
                    )@ && (final(actions)@.last() matches SupervisorAction::SendWorker { token: w, .. } && w == t)
                },
            },
    {
        if index >= self.journal.len() {
            return self.activate_candidate(actions);
        }
        let token = match &mut self.candidate {
            Some(candidate) => {
                candidate.stage = CandidateStage::Restoring;
                candidate.worker.token
            },
            None => {
                return Ok(());
            },
        };
        let id = self.internal_id(token, "journal")?;
        let message = match self.journal.entry(index) {
            Some((_, frame)) => match rewrite_id(frame.value(), &id) {
                Some(m) => m,
                None => {
                    return Err(SupervisorError::FrameNotObject);
                },
            },
            None => {
                return Ok(());
            },
        };
        let ghost before = self.internal@;
        self.internal.push(InternalRequest { id, worker: token, action: InternalAction::RestoreJournal(index) });
        proof {
            assert(self.spec_internal() =~= before.map_values(|q: InternalRequest| (q.id@, q.worker, q.action)).push(
                (id@, token, InternalAction::RestoreJournal(index)),
            ));
        }
        self.send_worker(token, message, actions)
    }

    /// Begins replaying the session journal into the candidate once the incumbent has drained;
    /// checkpointed or generation-pinned state cannot migrate and rejects the candidate.
    fn try_begin_restore(&mut self, actions: &mut Vec<SupervisorAction>) -> (r: Result<(), SupervisorError>)
        requires
            old(self).wf(),
        ensures
            final(self).wf(),
            old(self).keeps_authority(&*final(self)),
            old(self).phase != RolloverPhase::Draining ==> r is Ok && *final(self) == *old(self) && final(actions)@
                == old(actions)@,
            final(self).journal@ == old(self).journal@,
            old(self).phase == RolloverPhase::Draining ==> old(self).drain_step(
                &*final(self),
                old(self).kernel@,
                r,
                old(actions)@,
                final(actions)@,
            ),
    {
        if self.phase != RolloverPhase::Draining || self.kernel.has_in_flight_dispatches() || self.active_callbacks() != 0 {
            return Ok(());
        }
        if self.journal.pinned || self.journal.checkpointed {
            return self.reject_candidate(CandidateRejection::StateNotMigratable, actions);
        }
        self.continue_restore(0, actions)
    }

    /// The initialize frame captured for replay into a candidate, when it is the kernel's seed.
    fn seed_frame(&self) -> (r: Result<&FramedMessage, SupervisorError>)
        ensures
            match seeded_initialize(self.kernel@, frame_opt_view(self.initialize_frame)) {
                Ok(f) => r matches Ok(g) && g@ == f,
                Err(e) => r == Err::<&FramedMessage, SupervisorError>(e),
            },
    {
        let seed = match self.kernel.replay_seed() {
            Ok(Some(seed)) => seed,
            Ok(None) => {
                return Err(SupervisorError::NoInitializationSeed);
            },
            Err(e) => {
                return Err(SupervisorError::Session(e));
            },
        };
        match &self.initialize_frame {
            Some(frame) => {
                if crate::jsonrpc::bytes_eq(frame.payload(), seed.initialize_request.payload.as_slice()) {
                    Ok(frame)
                } else {
                    Err(SupervisorError::NoInitializationSeed)
                }
            },
            None => Err(SupervisorError::NoInitializationSeed),
        }
    }

    /// Replays the session's `initialize` into worker `token` under a host-internal id.
    fn seed_candidate_initialize(&mut self, token: u64, actions: &mut Vec<SupervisorAction>) -> (r: Result<(), SupervisorError>)
        requires
            old(self).wf(),
        ensures
            final(self).wf(),
            final(self).active == old(self).active,
            final(self).candidate == old(self).candidate,
            final(self).rejected_generation == old(self).rejected_generation,
            final(self).retry_at == old(self).retry_at,
            final(self).phase == old(self).phase,
            extends(old(actions)@, final(actions)@),
            seeded_initialize(old(self).kernel@, frame_opt_view(old(self).initialize_frame)) matches Err(e) ==> r
                == Err::<(), SupervisorError>(e) && final(self).internal == old(self).internal && final(actions)@
                == old(actions)@,
            seeded_initialize(old(self).kernel@, frame_opt_view(old(self).initialize_frame)) is Ok
                && old(self).next_internal == u64::MAX ==> r == Err::<(), SupervisorError>(
                SupervisorError::InternalIdExhausted,
            ) && final(actions)@ == old(actions)@,
            match seeded_initialize(old(self).kernel@, frame_opt_view(old(self).initialize_frame)) {
                Ok(f) => old(self).next_internal < u64::MAX && (old(self).spec_active() == Some(token)
                    || old(self).is_candidate_token(token)) ==> match with_id(
                    f.value,
                    request_id_json(next_internal_id(old(self).next_internal, token, "initialize"@)),
                ) {
                    Some(m) => r is Ok && final(self).spec_internal() == old(self).spec_internal().push(
                        (
                            next_internal_id(old(self).next_internal, token, "initialize"@),
                            token,
                            InternalAction::CandidateInitialize,
                        ),
                    ) && sent(old(actions)@, final(actions)@, token, m),
                    None => r == Err::<(), SupervisorError>(SupervisorError::FrameNotObject) && final(actions)@
                        == old(actions)@,
                },
                Err(_) => true,
            },
    {
        let message = {
            let frame = self.seed_frame()?;
            frame.value().duplicate()
        };
        let id = self.internal_id(token, "initialize")?;
        let rewritten = match rewrite_id(&message, &id) {
            Some(m) => m,
            None => {
                return Err(SupervisorError::FrameNotObject);
            },
        };
        let ghost before = self.internal@;
        self.internal.push(InternalRequest { id, worker: token, action: InternalAction::CandidateInitialize });
        proof {
            assert(self.spec_internal() =~= before.map_values(|q: InternalRequest| (q.id@, q.worker, q.action)).push(
                (id@, token, InternalAction::CandidateInitialize),
            ));
        }
        let result = self.send_worker(token, rewritten, actions);
        proof {
            if result is Ok {
                assert forall|i: int| 0 <= i < old(actions)@.len() implies #[trigger] actions@[i] == old(actions)@[i] by {
                    assert(actions@.drop_last()[i] == actions@[i]);
                }
            }
        }
        result
    }

    /// Replays the session's `initialized` notification into the candidate and asks for its catalog.
    fn seed_candidate_catalog(&mut self, actions: &mut Vec<SupervisorAction>) -> (r: Result<(), SupervisorError>)
        requires
            old(self).wf(),
        ensures
            final(self).wf(),
            old(self).keeps_authority(&*final(self)),
            final(self).spec_candidate() == old(self).spec_candidate(),
            final(self).active == old(self).active,
            final(self).kernel@ == old(self).kernel@,
            final(self).phase == old(self).phase,
            match (old(self).spec_candidate(), crate::host::spec_replay_seed(old(self).kernel@.phase, old(self).kernel@.seed)) {
                (None, _) => r is Ok && *final(self) == *old(self) && final(actions)@ == old(actions)@,
                (Some(_), Err(e)) => r == Err::<(), SupervisorError>(SupervisorError::Session(e)) && final(actions)@
                    == old(actions)@,
                (Some(_), Ok(None)) => r == Err::<(), SupervisorError>(SupervisorError::NoInitializationSeed)
                    && final(actions)@ == old(actions)@,
                (Some((t, _)), Ok(Some(seed))) => if seed.notification is None {
                    r == Err::<(), SupervisorError>(SupervisorError::NoInitializedNotification) && final(actions)@
                        == old(actions)@
                } else {
                    &&& old(self).next_internal == u64::MAX ==> r == Err::<(), SupervisorError>(
                        SupervisorError::InternalIdExhausted,
                    )
                    &&& old(self).next_internal < u64::MAX ==> r is Ok && final(self).spec_internal()
                        == old(self).spec_internal().push(
                        (next_internal_id(old(self).next_internal, t, "tools"@), t, InternalAction::CandidateCatalog),
                    ) && sent(old(actions)@, final(actions)@.drop_last(), t, initialized_json()) && sent(
                        final(actions)@.drop_last(),
                        final(actions)@,
                        t,
                        tools_list_json(request_id_json(next_internal_id(old(self).next_internal, t, "tools"@))),
                    )
                },
            },
    {
        let token = match &self.candidate {
            Some(c) => c.worker.token,
            None => {
                return Ok(());
            },
        };
        let seed = match self.kernel.replay_seed() {
            Ok(Some(seed)) => seed,
            Ok(None) => {
                return Err(SupervisorError::NoInitializationSeed);
            },
            Err(e) => {
                return Err(SupervisorError::Session(e));
            },
        };
        if seed.initialized_notification().is_none() {
            return Err(SupervisorError::NoInitializedNotification);
        }
        let ghost start = actions@;
        actions.push(SupervisorAction::SendWorker { token, message: initialized_notification_json() });
        assert(actions@.drop_last() =~= start);
        if let Some(candidate) = &mut self.candidate {
            candidate.stage = CandidateStage::Catalog;
        }
        let id = self.internal_id(token, "tools")?;
        let request = tools_list_request(&id);
        let ghost before = self.internal@;
        self.internal.push(InternalRequest { id, worker: token, action: InternalAction::CandidateCatalog });
        proof {
            assert(self.spec_internal() =~= before.map_values(|q: InternalRequest| (q.id@, q.worker, q.action)).push(
                (id@, token, InternalAction::CandidateCatalog),
            ));
        }
        let ghost mid = actions@;
        let sent_result = self.send_worker(token, request, actions);
        proof {
            if sent_result is Ok {
                assert(actions@.drop_last() == mid);
            }
        }
        sent_result
    }

    /// Asks the active worker for its catalog.
    fn request_active_catalog(&mut self, actions: &mut Vec<SupervisorAction>) -> (r: Result<(), SupervisorError>)
        requires
            old(self).wf(),
        ensures
            final(self).wf(),
            old(self).keeps_authority(&*final(self)),
            final(self).active == old(self).active,
            final(self).candidate == old(self).candidate,
            final(self).kernel@ == old(self).kernel@,
            final(self).phase == old(self).phase,
            old(self).spec_active() is None ==> r == Err::<(), SupervisorError>(SupervisorError::ActiveWorkerAbsent)
                && final(actions)@ == old(actions)@,
            old(self).spec_active() is Some && old(self).next_internal == u64::MAX ==> r == Err::<(), SupervisorError>(
                SupervisorError::InternalIdExhausted,
            ) && final(actions)@ == old(actions)@,
            match old(self).spec_active() {
                Some(t) => old(self).next_internal < u64::MAX ==> r is Ok && final(self).spec_internal()
                    == old(self).spec_internal().push(
                    (next_internal_id(old(self).next_internal, t, "tools"@), t, InternalAction::ActiveCatalog),
                ) && sent(
                    old(actions)@,
                    final(actions)@,
                    t,
                    tools_list_json(request_id_json(next_internal_id(old(self).next_internal, t, "tools"@))),
                ),
                None => true,
            },
    {
        let token = match self.active_token() {
            Some(t) => t,
            None => {
                return Err(SupervisorError::ActiveWorkerAbsent);
            },
        };
        let id = self.internal_id(token, "tools")?;
        let request = tools_list_request(&id);
        let ghost before = self.internal@;
        self.internal.push(InternalRequest { id, worker: token, action: InternalAction::ActiveCatalog });
        proof {
            assert(self.spec_internal() =~= before.map_values(|q: InternalRequest| (q.id@, q.worker, q.action)).push(
                (id@, token, InternalAction::ActiveCatalog),
            ));
        }
        self.send_worker(token, request, actions)
    }
}

/// Where the answer to the client ends among the actions `after` a step that began with
/// `before`: after one report, if the step made one.
pub open spec fn answer_end(before: Seq<SupervisorAction>, after: Seq<SupervisorAction>) -> int {
    if after.len() > before.len() && after[before.len() as int] is Report {
        before.len() + 2int
    } else {
        before.len() + 1int
    }
}

/// The actions after a step begin with those before it.
pub open spec fn extends(before: Seq<SupervisorAction>, after: Seq<SupervisorAction>) -> bool {
    &&& before.len() <= after.len()
    &&& forall|i: int| 0 <= i < before.len() ==> #[trigger] after[i] == before[i]
}

/// Whether some pending invocation of the kernel is dispatched and unanswered.
pub open spec fn dispatch_in_flight(k: KernelView) -> bool {
    exists|i: int| 0 <= i < k.pending.len() && (#[trigger] k.pending[i]).1.knowledge == crate::replay::ExecutionKnowledge::InFlight
}

/// The request that a cancellation names: `params.requestId` of the message.
pub open spec fn cancel_target(value: JsonView) -> Option<RequestIdView> {
    match crate::json::view_as_object(value) {
        Some(m) => match crate::json::member(m, "params"@) {
            Some(params) => match crate::json::view_as_object(params) {
                Some(p) => match crate::json::member(p, "requestId"@) {
                    Some(v) => crate::jsonrpc::spec_request_id(v),
                    None => None,
                },
                None => None,
            },
            None => None,
        },
        None => None,
    }
}

/// The actions after a step are those before it and one message `message` to worker `token`.
pub open spec fn sent(before: Seq<SupervisorAction>, after: Seq<SupervisorAction>, token: u64, message: JsonView) -> bool {
    &&& after.len() == before.len() + 1
    &&& after.drop_last() == before
    &&& after.last() matches SupervisorAction::SendWorker { token: t, message: m } && t == token && m@ == message
}

/// A captured frame taken by its view.
pub open spec fn frame_opt_view(f: Option<FramedMessage>) -> Option<FrameView> {
    match f {
        Some(frame) => Some(frame@),
        None => None,
    }
}

/// The `initialize` frame to replay into a new worker: the captured frame when the kernel holds
/// a seed whose request it is.
pub open spec fn seeded_initialize(k: KernelView, captured: Option<FrameView>) -> Result<FrameView, SupervisorError> {
    match crate::host::spec_replay_seed(k.phase, k.seed) {
        Err(e) => Err(SupervisorError::Session(e)),
        Ok(None) => Err(SupervisorError::NoInitializationSeed),
        Ok(Some(seed)) => match captured {
            Some(f) => if f.payload == seed.payload {
                Ok(f)
            } else {
                Err(SupervisorError::NoInitializationSeed)
            },
            None => Err(SupervisorError::NoInitializationSeed),
        },
    }
}

/// The identity of the next host-internal request of kind `kind` to worker `token`.
pub open spec fn next_internal_id(next: u64, token: u64, kind: Seq<char>) -> RequestIdView {
    RequestIdView::Text(internal_id_text(token, kind, (next + 1) as u64))
}

/// The actions after a step end with a message to the client, `message`, possibly after a
/// report.
pub open spec fn answered(before: Seq<SupervisorAction>, after: Seq<SupervisorAction>, message: JsonView) -> bool {
    &&& after.len() == before.len() + 1 || (after.len() == before.len() + 2 && after[before.len() as int] is Report)
    &&& after.take(before.len() as int) == before
    &&& after.last() matches SupervisorAction::WriteClient(m) && m@ == message
}

/// The actions after a step end with client frame `frame` forwarded to worker `token`.
pub open spec fn forwarded(before: Seq<SupervisorAction>, after: Seq<SupervisorAction>, token: u64, frame: FrameView) -> bool {
    &&& after.len() == before.len() + 1
    &&& after.drop_last() == before
    &&& after.last() matches SupervisorAction::ForwardToWorker { token: t, frame: f } && t == token && f@ == frame
}

/// The actions after a step end with the answer to a refused client frame: a JSON-RPC error
/// for a request, a report otherwise.
pub open spec fn refused(before: Seq<SupervisorAction>, after: Seq<SupervisorAction>, envelope: EnvelopeView, rejection: HostRejection) -> bool {
    &&& after.len() == before.len() + 1
    &&& after.drop_last() == before
    &&& match envelope {
        EnvelopeView::Request { id, .. } => after.last() matches SupervisorAction::WriteClient(m) && m@ == rpc_error_json(
            request_id_json(id),
            crate::host::rejection_code(rejection) as i64,
            crate::host::rejection_message(rejection),
        ),
        _ => after.last() == SupervisorAction::Report(Notice::ClientFrameRefused(rejection)),
    }
}

/// The catalog that a `tools/list` response carries, if it carries a valid one.
pub open spec fn response_catalog(value: JsonView) -> Option<CatalogView> {
    match value {
        JsonView::Object(m) => match member(m, "result"@) {
            Some(result) => match crate::effect::spec_parse_catalog(result) {
                Ok(c) => Some(c),
                Err(_) => None,
            },
            None => None,
        },
        _ => None,
    }
}

/// The `notifications/initialized` message replayed into a candidate.
pub open spec fn initialized_json() -> JsonView {
    JsonView::Object(seq![("jsonrpc"@, JsonView::Str("2.0"@)), ("method"@, JsonView::Str("notifications/initialized"@))])
}

/// Builds the `notifications/initialized` message.
pub fn initialized_notification_json() -> (r: JsonValue)
    ensures
        r@ == initialized_json(),
{
    let mut m: Vec<(String, JsonValue)> = Vec::new();
    push_member(&mut m, "jsonrpc", text_value("2.0"));
    push_member(&mut m, "method", text_value("notifications/initialized"));
    assert(members_view(m@) =~= seq![
        ("jsonrpc"@, JsonView::Str("2.0"@)),
        ("method"@, JsonView::Str("notifications/initialized"@)),
    ]);
    JsonValue::Object(m)
}

/// Where a client frame goes once the kernel has admitted it.
#[derive(Debug, Clone, Copy, PartialEq, Eq, Structural)]
pub enum ClientRoute {
    /// The client answers a worker callback.
    CallbackResponse,
    /// The client completed initialization; the active worker is told and asked for its catalog.
    Initialized,
    /// The client cancels a request.
    Cancellation,
    /// The client refreshes a changed catalog; the incumbent starts draining.
    CatalogRefresh,
    /// The frame waits in the kernel queue, or is refused if the queue is full.
    Queued,
    /// The host answers `tools/list` from the published catalog.
    CatalogReply,
    /// The request is dispatched to the active worker.
    Dispatched,
    /// The notification is forwarded to the active worker.
    Forwarded,
}

/// The route of an admitted client frame: callbacks, initialization, and cancellation are
/// handled first; `tools/list` is answered by the host once a catalog is published; work waits
/// while no catalog is published (except `initialize`), while the host drains or recovers, or
/// while no worker is active; everything else goes to the active worker.
pub open spec fn client_route(envelope: EnvelopeView, phase: RolloverPhase, published: bool, active: bool) -> ClientRoute {
    let gating = phase == RolloverPhase::Draining || phase == RolloverPhase::Recovering;
    match envelope {
        EnvelopeView::Response { .. } => ClientRoute::CallbackResponse,
        EnvelopeView::Notification { method } => if crate::jsonrpc::is_initialized_method(method) {
            ClientRoute::Initialized
        } else if method == "notifications/cancelled"@ {
            ClientRoute::Cancellation
        } else if gating || !active {
            ClientRoute::Queued
        } else {
            ClientRoute::Forwarded
        },
        EnvelopeView::Request { method, .. } => if method == "tools/list"@ && published {
            if phase == RolloverPhase::AwaitingCatalogRefresh {
                ClientRoute::CatalogRefresh
            } else if gating {
                ClientRoute::Queued
            } else {
                ClientRoute::CatalogReply
            }
        } else if !is_initialize_method(method) && !published {
            ClientRoute::Queued
        } else if gating || !active {
            ClientRoute::Queued
        } else {
            ClientRoute::Dispatched
        },
    }
}

impl SupervisorCore {
    /// The route an admitted client frame takes in the current state.
    pub fn route_client_frame(&self, frame: &FramedMessage) -> (r: ClientRoute)
        ensures
            r == client_route(frame@.envelope, self.spec_phase(), self.spec_published() is Some, self.spec_active() is Some),
    {
        let gating = self.gating_new_work();
        let published = self.published_catalog.is_some();
        let active = self.active.is_some();
        match frame.classify() {
            RpcEnvelopeKind::Response { .. } => ClientRoute::CallbackResponse,
            RpcEnvelopeKind::Notification { method } => {
                if method.is_initialized_notification() {
                    ClientRoute::Initialized
                } else if crate::text::str_eq(method.as_str(), "notifications/cancelled") {
                    ClientRoute::Cancellation
                } else if gating || !active {
                    ClientRoute::Queued
                } else {
                    ClientRoute::Forwarded
                }
            },
            RpcEnvelopeKind::Request { method, .. } => {
                if crate::text::str_eq(method.as_str(), "tools/list") && published {
                    if self.phase == RolloverPhase::AwaitingCatalogRefresh {
                        ClientRoute::CatalogRefresh
                    } else if gating {
                        ClientRoute::Queued
                    } else {
                        ClientRoute::CatalogReply
                    }
                } else if !method.is_initialize() && !published {
                    ClientRoute::Queued
                } else if gating || !active {
                    ClientRoute::Queued
                } else {
                    ClientRoute::Dispatched
                }
            },
        }
    }

    /// Handles one client frame, or the refusal of a client payload that is not JSON-RPC.
    /// Returns the route the frame took, or `None` when it was refused before routing.
    pub fn client_payload(
        &mut self,
        frame: Result<FramedMessage, FrameParseError>,
        now: u64,
        actions: &mut Vec<SupervisorAction>,
    ) -> (r: Result<Option<ClientRoute>, SupervisorError>)
        requires
            old(self).wf(),
        ensures
            final(self).wf(),
            old(self).keeps_authority(&*final(self)),
            frame matches Err(e) ==> r == Ok::<Option<ClientRoute>, SupervisorError>(None) && final(self).spec_kernel()
                == old(self).spec_kernel() && answered(
                old(actions)@,
                final(actions)@,
                rpc_error_json(JsonView::Null, -32700i64, crate::jsonrpc::frame_error_message(e@)),
            ) && final(actions)@.len() == old(actions)@.len() + 1,
            frame matches Ok(f) ==> match crate::host::spec_observe_client_frame(old(self).spec_kernel(), f@) {
                Err(e) => r == Ok::<Option<ClientRoute>, SupervisorError>(None) && final(self).spec_kernel() == old(self).spec_kernel() && refused(old(actions)@, final(actions)@, f@.envelope, e),
                Ok(k) => {
                    let route = client_route(
                        f@.envelope,
                        old(self).spec_phase(),
                        old(self).spec_published() is Some,
                        old(self).spec_active() is Some,
                    );
                    &&& r matches Ok(Some(x)) ==> x == route
                    &&& route == ClientRoute::Forwarded ==> r == Ok::<Option<ClientRoute>, SupervisorError>(Some(route))
                        && final(self).spec_kernel() == k && forwarded(
                        old(actions)@,
                        final(actions)@,
                        old(self).spec_active()->0,
                        f@,
                    )
                    &&& route == ClientRoute::Queued ==> r == Ok::<Option<ClientRoute>, SupervisorError>(Some(route))
                        && match crate::host::spec_queue_client_frame(k, f@, QUEUE_CAPACITY) {
                        Ok(k2) => final(self).spec_kernel() == k2 && final(actions)@ == old(actions)@,
                        Err(e) => final(self).spec_kernel() == k && refused(old(actions)@, final(actions)@, f@.envelope, e),
                    }
                    &&& route == ClientRoute::CatalogReply ==> r == Ok::<Option<ClientRoute>, SupervisorError>(Some(route))
                        && final(self).spec_kernel() == k && final(actions)@.len() == old(actions)@.len() + 1
                        && final(actions)@.drop_last() == old(actions)@
                    &&& route == ClientRoute::Cancellation ==> r == Ok::<Option<ClientRoute>, SupervisorError>(Some(route))
                        && final(self).spec_kernel() == k && match (cancel_target(f@.value), old(self).spec_active()) {
                        (Some(id), Some(t)) => if crate::host::pending_slot(k.pending, id) is Some {
                            forwarded(old(actions)@, final(actions)@, t, f@)
                        } else {
                            final(actions)@ == old(actions)@
                        },
                        _ => final(actions)@ == old(actions)@,
                    }
                    &&& route == ClientRoute::CallbackResponse ==> final(self).spec_kernel() == k && match f@.envelope {
                        EnvelopeView::Response { id, .. } => match callback_position(old(self).spec_callbacks(), id) {
                            None => r == Ok::<Option<ClientRoute>, SupervisorError>(Some(route)) && final(actions)@ == old(
                                actions,
                            )@ && final(self).spec_callbacks() == old(self).spec_callbacks(),
                            Some(i) => {
                                let (_, w, original) = old(self).spec_callbacks()[i];
                                &&& final(self).spec_callbacks() == old(self).spec_callbacks().remove(i)
                                &&& match with_id(f@.value, request_id_json(original)) {
                                    None => r == Err::<Option<ClientRoute>, SupervisorError>(SupervisorError::FrameNotObject)
                                        && final(actions)@ == old(actions)@,
                                    Some(m) => r == Ok::<Option<ClientRoute>, SupervisorError>(Some(route)) && if old(
                                        self,
                                    ).spec_active() == Some(w) || old(self).is_candidate_token(w) {
                                        sent(old(actions)@, final(actions)@, w, m)
                                    } else {
                                        final(actions)@ == old(actions)@
                                    },
                                }
                            },
                        },
                        _ => true,
                    }
                    &&& route == ClientRoute::Initialized ==> match old(self).spec_active() {
                        Some(t) => r == Ok::<Option<ClientRoute>, SupervisorError>(Some(route)) && if old(self).spec_next_internal()
                            < u64::MAX {
                            &&& final(self).spec_kernel() == k
                            &&& final(self).spec_active() == old(self).spec_active()
                            &&& final(actions)@.len() == old(actions)@.len() + 2
                            &&& forwarded(old(actions)@, final(actions)@.drop_last(), t, f@)
                            &&& sent(
                                final(actions)@.drop_last(),
                                final(actions)@,
                                t,
                                tools_list_json(
                                    request_id_json(next_internal_id(old(self).spec_next_internal(), t, "tools"@)),
                                ),
                            )
                            &&& final(self).spec_internal() == old(self).spec_internal().push(
                                (
                                    next_internal_id(old(self).spec_next_internal(), t, "tools"@),
                                    t,
                                    InternalAction::ActiveCatalog,
                                ),
                            )
                        } else {
                            final(self).spec_active() is None && final(self).spec_phase() == RolloverPhase::Recovering
                        },
                        None => true,
                    }
                    &&& route == ClientRoute::CatalogRefresh ==> old(self).drain_step(
                        &*final(self),
                        k,
                        match r {
                            Ok(_) => Ok::<(), SupervisorError>(()),
                            Err(e) => Err(e),
                        },
                        old(actions)@,
                        final(actions)@,
                    )
                    &&& route == ClientRoute::Initialized && old(self).spec_active() is None ==> r == Ok::<
                        Option<ClientRoute>,
                        SupervisorError,
                    >(Some(route)) && final(self).spec_kernel() == k && final(actions)@ == old(actions)@
                    &&& route == ClientRoute::Dispatched ==> match f@.envelope {
                        EnvelopeView::Request { method, .. } => r == Ok::<Option<ClientRoute>, SupervisorError>(Some(route))
                            && match crate::host::spec_begin_request_dispatch(
                            k,
                            f@,
                            spec_classify_request(old(self).spec_published(), f@.value, f@.payload.len(), method),
                            PENDING_CAPACITY,
                        ) {
                            Ok(k2) => final(self).spec_kernel() == k2 && forwarded(
                                old(actions)@,
                                final(actions)@,
                                old(self).spec_active()->0,
                                f@,
                            ),
                            Err(e) => final(self).spec_kernel() == k && refused(old(actions)@, final(actions)@, f@.envelope, e),
                        },
                        _ => true,
                    }
                },
            },
    {
        let frame = match frame {
            Ok(f) => f,
            Err(error) => {
                let detail = error.message();
                actions.push(SupervisorAction::WriteClient(parse_error_response(detail.as_str())));
                assert(actions@.take(old(actions)@.len() as int) =~= old(actions)@);
                return Ok(None);
            },
        };
        match self.kernel.observe_client_frame(&frame) {
            Ok(()) => {},
            Err(rejection) => {
                self.reject_client_frame(&frame, rejection, actions);
                return Ok(None);
            },
        }
        let route = self.route_client_frame(&frame);
        match route {
            ClientRoute::CallbackResponse => {
                let id = match frame.classify() {
                    RpcEnvelopeKind::Response { id, .. } => id,
                    _ => {
                        return Ok(Some(route));
                    },
                };
                self.route_callback_response(&id, &frame, now, actions)?;
            },
            ClientRoute::Initialized => {
                let token = self.active_token();
                match self.forward_active(&frame, actions) {
                    Ok(()) => {},
                    Err(_) => {
                        self.worker_loss(token, owned("active worker is absent"), now, actions);
                        return Ok(Some(route));
                    },
                }
                match self.request_active_catalog(actions) {
                    Ok(()) => {},
                    Err(_) => {
                        self.worker_loss(token, owned("active worker catalog request failed"), now, actions);
                    },
                }
            },
            ClientRoute::Cancellation => {
                self.route_cancellation(&frame, now, actions);
            },
            ClientRoute::CatalogRefresh => {
                self.refresh_request = Some(frame);
                self.phase = RolloverPhase::Draining;
                self.try_begin_restore(actions)?;
            },
            ClientRoute::Queued => {
                self.queue_or_reject(frame, actions);
            },
            ClientRoute::CatalogReply => {
                self.reply_catalog(&frame, actions)?;
            },
            ClientRoute::Dispatched => {
                let method = match frame.classify() {
                    RpcEnvelopeKind::Request { method, .. } => method,
                    _ => {
                        return Ok(Some(route));
                    },
                };
                let replay = classify_request(self.published_catalog.as_ref(), &frame, &method);
                match self.kernel.begin_request_dispatch(&frame, replay, PENDING_CAPACITY) {
                    Ok(_) => {},
                    Err(rejection) => {
                        self.reject_client_frame(&frame, rejection, actions);
                        return Ok(Some(route));
                    },
                }
                if method.is_initialize() {
                    self.initialize_frame = Some(frame.duplicate());
                }
                let token = self.active_token();
                match self.forward_active(&frame, actions) {
                    Ok(()) => {},
                    Err(_) => {
                        self.worker_loss(token, owned("active worker is absent"), now, actions);
                    },
                }
            },
            ClientRoute::Forwarded => {
                let token = self.active_token();
                match self.forward_active(&frame, actions) {
                    Ok(()) => {},
                    Err(_) => {
                        self.worker_loss(token, owned("active worker is absent"), now, actions);
                    },
                }
            },
        }
        Ok(Some(route))
    }

    /// Returns the client's answer to a worker callback to the worker that asked, under the
    /// worker's own request id.
    fn route_callback_response(&mut self, id: &RequestId, frame: &FramedMessage, now: u64, actions: &mut Vec<SupervisorAction>) -> (r: Result<(), SupervisorError>)
        requires
            old(self).wf(),
        ensures
            final(self).wf(),
            old(self).keeps_authority(&*final(self)),
            final(self).kernel@ == old(self).kernel@,
            match callback_position(old(self).spec_callbacks(), id@) {
                None => r is Ok && *final(self) == *old(self) && final(actions)@ == old(actions)@,
                Some(i) => {
                    let (_, w, original) = old(self).spec_callbacks()[i];
                    &&& final(self).spec_callbacks() == old(self).spec_callbacks().remove(i)
                    &&& final(self).active == old(self).active
                    &&& final(self).candidate == old(self).candidate
                    &&& match with_id(frame@.value, request_id_json(original)) {
                        None => r == Err::<(), SupervisorError>(SupervisorError::FrameNotObject) && final(actions)@
                            == old(actions)@,
                        Some(m) => r is Ok && if old(self).spec_active() == Some(w) || old(self).is_candidate_token(w) {
                            sent(old(actions)@, final(actions)@, w, m)
                        } else {
                            final(actions)@ == old(actions)@
                        },
                    }
                },
            },
    {
        proof {
            lemma_callback_position_in(self.spec_callbacks(), id@);
        }
        let route = match self.take_callback(id) {
            Some(route) => route,
            None => {
                return Ok(());
            },
        };
        let rewritten = match rewrite_id(frame.value(), &route.original) {
            Some(v) => v,
            None => {
                return Err(SupervisorError::FrameNotObject);
            },
        };
        match self.send_worker(route.worker, rewritten, actions) {
            Ok(()) => Ok(()),
            Err(_) => {
                self.worker_loss(Some(route.worker), owned("callback worker is no longer owned"), now, actions);
                Ok(())
            },
        }
    }

    /// Forwards a cancellation to the active worker when it names a pending request.
    fn route_cancellation(&mut self, frame: &FramedMessage, now: u64, actions: &mut Vec<SupervisorAction>)
        requires
            old(self).wf(),
        ensures
            final(self).wf(),
            old(self).keeps_authority(&*final(self)),
            *final(self) == *old(self),
            match (cancel_target(frame@.value), old(self).spec_active()) {
                (Some(id), Some(t)) => if crate::host::pending_slot(old(self).kernel@.pending, id) is Some {
                    forwarded(old(actions)@, final(actions)@, t, frame@)
                } else {
                    final(actions)@ == old(actions)@
                },
                _ => final(actions)@ == old(actions)@,
            },
    {
        let target = match frame.value().as_object() {
            Some(m) => match crate::json::get_member(m, "params") {
                Some(params) => match params.as_object() {
                    Some(p) => match crate::json::get_member(p, "requestId") {
                        Some(v) => RequestId::from_json_value(v),
                        None => None,
                    },
                    None => None,
                },
                None => None,
            },
            None => None,
        };
        let pending = match &target {
            Some(id) => self.kernel.pending_request(id).is_some(),
            None => false,
        };
        if pending {
            if let Some(token) = self.active_token() {
                actions.push(SupervisorAction::ForwardToWorker { token, frame: frame.duplicate() });
                assert(actions@.drop_last() =~= old(actions)@);
            }
        }
    }
}

/// Why launching a worker failed.
#[derive(Debug, Clone, PartialEq, Eq)]
pub enum LaunchFailure {
    /// The release executable did not verify.
    Verification(ReleaseError),
    /// The process could not be started.
    Spawn,
}

/// The catalog carried by a `tools/list` response.
pub fn parse_catalog_response(frame: &FramedMessage) -> (r: Result<ToolCatalog, SupervisorError>)
    ensures
        match frame@.value {
            JsonView::Object(m) => match member(m, "result"@) {
                Some(result) => match crate::effect::spec_parse_catalog(result) {
                    Ok(c) => r matches Ok(catalog) && catalog@ == c,
                    Err(_) => r matches Err(SupervisorError::Catalog(_)),
                },
                None => r == Err::<ToolCatalog, SupervisorError>(SupervisorError::CatalogResponseWithoutResult),
            },
            _ => r == Err::<ToolCatalog, SupervisorError>(SupervisorError::CatalogResponseWithoutResult),
        },
{
    let result = match frame.value() {
        JsonValue::Object(m) => match crate::json::get_member(m, "result") {
            Some(result) => result,
            None => {
                return Err(SupervisorError::CatalogResponseWithoutResult);
            },
        },
        _ => {
            return Err(SupervisorError::CatalogResponseWithoutResult);
        },
    };
    match ToolCatalog::parse(result) {
        Ok(c) => Ok(c),
        Err(e) => Err(SupervisorError::Catalog(e)),
    }
}

impl SupervisorCore {
    /// Whether worker `token` is the candidate.
    fn is_candidate(&self, token: u64) -> (r: bool)
        ensures
            r == self.is_candidate_token(token),
    {
        self.candidate_token() == Some(token)
    }

    /// Handles one frame from worker `token`, or a payload from it that is not JSON-RPC.
    #[verifier::rlimit(60)]
    #[verifier::spinoff_prover]
    pub fn worker_payload(
        &mut self,
        token: u64,
        frame: Result<FramedMessage, FrameParseError>,
        now: u64,
        actions: &mut Vec<SupervisorAction>,
    ) -> (r: Result<(), SupervisorError>)
        requires
            old(self).wf(),
        ensures
            final(self).wf(),
            old(self).keeps_authority(&*final(self)),
            frame is Err && old(self).is_candidate_token(token) ==> final(self).spec_candidate() is None
                && final(self).spec_active() == old(self).spec_active(),
            frame is Err && !old(self).is_candidate_token(token) ==> r is Ok && old(self).lost_worker(&*final(self), token, now),
            frame matches Ok(f) ==> (f@.envelope is Notification ==> r is Ok && final(self).spec_kernel() == old(self).spec_kernel() && final(actions)@ == if old(self).spec_active() == Some(token) {
                old(actions)@.push(SupervisorAction::ForwardToClient(f))
            } else {
                old(actions)@
            }),
            frame matches Ok(f) ==> (f@.envelope matches EnvelopeView::Request { id, .. } ==> if old(self).spec_active()
                == Some(token) {
                &&& final(self).spec_kernel() == old(self).spec_kernel()
                &&& old(self).spec_next_callback() == u64::MAX ==> r == Err::<(), SupervisorError>(
                    SupervisorError::CallbackIdExhausted,
                )
                &&& r is Ok ==> old(self).forwarded_callback(&*final(self), token, id, f@.value, old(actions)@, final(actions)@)
            } else if old(self).is_candidate_token(token) {
                final(self).spec_candidate() is None
            } else {
                r is Ok && *final(self) == *old(self) && final(actions)@ == old(actions)@
            }),
            frame matches Ok(f) ==> (f@.envelope matches EnvelopeView::Response { id, has_error } ==> match first_internal(
                old(self).spec_internal(),
                id,
            ) {
                Some((w, action)) => if w != token {
                    r == Err::<(), SupervisorError>(SupervisorError::InternalResponseCrossedWorkers)
                } else {
                    old(self).internal_outcome(
                        &*final(self),
                        action,
                        w,
                        f@.value,
                        has_error,
                        now,
                        old(actions)@,
                        final(actions)@,
                        r,
                    )
                },
                None => if old(self).spec_active() != Some(token) {
                    r is Ok && final(self).spec_kernel() == old(self).spec_kernel() && final(actions)@ == old(actions)@
                } else {
                    match crate::host::spec_complete_response(old(self).spec_kernel(), f@) {
                        Err(_) => r is Ok && old(self).lost_worker(&*final(self), token, now),
                        Ok((k, p)) => {
                            let message = if is_initialize_method(p.method) {
                                patched_initialize(f@.value)
                            } else {
                                f@.value
                            };
                            &&& old(self).spec_phase() != RolloverPhase::Draining ==> r is Ok && final(self).spec_kernel()
                                == k && answered(old(actions)@, final(actions)@, message)
                            &&& old(self).spec_phase() == RolloverPhase::Draining ==> {
                                let mid = final(actions)@.take(answer_end(old(actions)@, final(actions)@));
                                answered(old(actions)@, mid, message) && old(self).drain_step(
                                    &*final(self),
                                    k,
                                    r,
                                    mid,
                                    final(actions)@,
                                )
                            }
                        },
                    }
                },
            }),
    {
        let frame = match frame {
            Ok(f) => f,
            Err(error) => {
                if self.is_candidate(token) {
                    return self.reject_candidate(CandidateRejection::InvalidFrame(error), actions);
                }
                let detail = error.message();
                self.worker_loss(Some(token), detail, now, actions);
                return Ok(());
            },
        };
        match frame.classify() {
            RpcEnvelopeKind::Response { id, has_error } => {
                if let Some(internal) = self.take_internal(&id) {
                    if internal.worker != token {
                        return Err(SupervisorError::InternalResponseCrossedWorkers);
                    }
                    return self.internal_response(internal, &frame, has_error, now, actions);
                }
                if self.active_token() != Some(token) {
                    return Ok(());
                }
                let completed = match self.kernel.complete_response(&frame) {
                    Ok(c) => c,
                    Err(rejection) => {
                        self.worker_loss(Some(token), owned(rejection.message()), now, actions);
                        return Ok(());
                    },
                };
                let ghost mid_actions = actions@;
                if !has_error {
                    let recorded = self.journal.record_transition(
                        self.published_catalog.as_ref(),
                        completed.request().frame().duplicate(),
                    );
                    match recorded {
                        Ok(()) => {},
                        Err(e) => {
                            self.journal.pinned = true;
                            actions.push(SupervisorAction::Report(Notice::JournalSealed(e)));
                        },
                    }
                }
                let outgoing = if completed.request().method().is_initialize() {
                    patch_initialize_response(frame.value())
                } else {
                    frame.value().duplicate()
                };
                let ghost before_write = actions@;
                let ghost out_view = outgoing@;
                actions.push(SupervisorAction::WriteClient(outgoing));
                proof {
                    assert(before_write == mid_actions || (before_write.len() == mid_actions.len() + 1
                        && before_write.drop_last() == mid_actions && before_write.last() is Report));
                    assert(actions@.take(mid_actions.len() as int) =~= mid_actions);
                }
                let ghost answered_actions = actions@;
                let ghost drained_from = *self;
                let result = self.try_begin_restore(actions);
                proof {
                    assert(drained_from.spec_callbacks() == old(self).spec_callbacks());
                    assert(drained_from.spec_internal() == old(self).spec_internal());
                    assert(drained_from.spec_active() == old(self).spec_active());
                    assert(drained_from.spec_candidate() == old(self).spec_candidate());
                    assert(drained_from.spec_next_internal() == old(self).spec_next_internal());
                    assert(answered(old(actions)@, answered_actions, out_view));
                    if let Ok((k, p)) = crate::host::spec_complete_response(old(self).spec_kernel(), frame@) {
                        let message = if is_initialize_method(p.method) {
                            patched_initialize(frame@.value)
                        } else {
                            frame@.value
                        };
                        assert(out_view == message);
                        assert(k == drained_from.kernel@);
                        if old(self).spec_phase() == RolloverPhase::Draining {
                            assert(old(self).drain_step(&*self, k, result, answered_actions, actions@));
                            assert(answered(old(actions)@, answered_actions, message));
                            assert(actions@[old(actions)@.len() as int] == answered_actions[old(actions)@.len() as int]);
                            assert(actions@.take(answer_end(old(actions)@, actions@)) =~= answered_actions);
                        }
                    }
                }
                result
            },
            RpcEnvelopeKind::Request { id, .. } => {
                if self.active_token() != Some(token) {
                    if self.is_candidate(token) {
                        return self.reject_candidate(CandidateRejection::IssuedClientRequest, actions);
                    }
                    return Ok(());
                }
                let public = self.callback_id()?;
                let rewritten = match rewrite_id(frame.value(), &public) {
                    Some(v) => v,
                    None => {
                        return Err(SupervisorError::FrameNotObject);
                    },
                };
                let ghost before = self.callbacks@;
                let route = CallbackRoute { public, worker: token, original: id };
                self.callbacks.push(route);
                proof {
                    assert(self.callbacks@ == before.push(route));
                    assert(self.spec_callbacks() =~= before.map_values(
                        |c: CallbackRoute| (c.public@, c.worker, c.original@),
                    ).push((route.public@, token, route.original@)));
                }
                let ghost before_actions = actions@;
                actions.push(SupervisorAction::WriteClient(rewritten));
                proof {
                    assert(actions@.drop_last() == before_actions);
                }
                Ok(())
            },
            RpcEnvelopeKind::Notification { .. } => {
                if self.active_token() == Some(token) {
                    actions.push(SupervisorAction::ForwardToClient(frame));
                }
                Ok(())
            },
        }
    }

    /// Handles the response to a host-internal request.
    fn internal_response(
        &mut self,
        internal: InternalRequest,
        frame: &FramedMessage,
        has_error: bool,
        now: u64,
        actions: &mut Vec<SupervisorAction>,
    ) -> (r: Result<(), SupervisorError>)
        requires
            old(self).wf(),
        ensures
            final(self).wf(),
            old(self).keeps_authority(&*final(self)),
            old(self).internal_outcome(
                &*final(self),
                internal.action,
                internal.worker,
                frame@.value,
                has_error,
                now,
                old(actions)@,
                final(actions)@,
                r,
            ),
    {
        match internal.action {
            InternalAction::ActiveCatalog => {
                if has_error {
                    self.worker_loss(Some(internal.worker), owned("active worker rejected tools/list"), now, actions);
                    return Ok(());
                }
                let catalog = match parse_catalog_response(frame) {
                    Ok(c) => c,
                    Err(_) => {
                        self.worker_loss(Some(internal.worker), owned("active worker catalog was refused"), now, actions);
                        return Ok(());
                    },
                };
                if let Some(active) = &mut self.active {
                    active.catalog = Some(catalog.duplicate());
                }
                self.published_catalog = Some(catalog);
                self.flush_queue(actions)
            },
            InternalAction::CandidateInitialize => {
                actions.push(SupervisorAction::Report(Notice::CandidateInitialized));
                if has_error {
                    return self.reject_candidate(CandidateRejection::RejectedInitialize, actions);
                }
                if self.kernel.session_phase() == SessionPhase::AwaitingInitialized {
                    return self.activate_candidate(actions);
                }
                match self.seed_candidate_catalog(actions) {
                    Ok(()) => Ok(()),
                    Err(e) => self.reject_candidate(CandidateRejection::Failed(e), actions),
                }
            },
            InternalAction::CandidateCatalog => {
                actions.push(SupervisorAction::Report(Notice::CandidateCatalogReceived));
                if has_error {
                    return self.reject_candidate(CandidateRejection::RejectedCatalogRequest, actions);
                }
                let catalog = match parse_catalog_response(frame) {
                    Ok(c) => c,
                    Err(e) => {
                        return self.reject_candidate(CandidateRejection::Failed(e), actions);
                    },
                };
                match &mut self.candidate {
                    Some(candidate) => {
                        candidate.worker.catalog = Some(catalog.duplicate());
                        candidate.stage = CandidateStage::Ready;
                        candidate.deadline = later(now, CANDIDATE_RETENTION_MILLIS);
                    },
                    None => {
                        return Ok(());
                    },
                }
                let ghost mid = actions@;
                let ready = self.on_candidate_ready(&catalog, actions);
                proof {
                    if !(old(self).spec_published() matches Some(p) && crate::effect::items_same(
                        p.public_tools,
                        catalog@.public_tools,
                    )) {
                        assert(mid.take(old(actions)@.len() as int) =~= old(actions)@);
                        assert(actions@.take(old(actions)@.len() as int) =~= old(actions)@);
                    }
                }
                ready
            },
            InternalAction::RestoreJournal(index) => {
                if has_error {
                    return self.reject_candidate(CandidateRejection::RejectedJournal, actions);
                }
                if index == usize::MAX {
                    return self.reject_candidate(CandidateRejection::RejectedJournal, actions);
                }
                match self.continue_restore(index + 1, actions) {
                    Ok(()) => Ok(()),
                    Err(e) => self.reject_candidate(CandidateRejection::Failed(e), actions),
                }
            },
        }
    }

    /// A ready candidate with the same public catalog starts the drain; a changed catalog is
    /// announced and waits for the client to refresh it.
    fn on_candidate_ready(&mut self, catalog: &ToolCatalog, actions: &mut Vec<SupervisorAction>) -> (r: Result<(), SupervisorError>)
        requires
            old(self).wf(),
        ensures
            final(self).wf(),
            old(self).keeps_authority(&*final(self)),
            !(old(self).spec_published() matches Some(p) && crate::effect::items_same(p.public_tools, catalog@.public_tools))
                ==> r is Ok && final(self).spec_phase() == RolloverPhase::AwaitingCatalogRefresh && final(self).spec_candidate()
                == old(self).spec_candidate() && final(actions)@.len() == old(actions)@.len() + 2 && final(actions)@.take(
                old(actions)@.len() as int,
            ) == old(actions)@ && (final(actions)@[old(actions)@.len() as int] matches SupervisorAction::WriteClient(m)
                && m@ == list_changed_json()) && final(actions)@.last() == SupervisorAction::Report(Notice::CatalogChanged),
            (old(self).spec_published() matches Some(p) && crate::effect::items_same(p.public_tools, catalog@.public_tools))
                ==> old(self).drain_step(
                &*final(self),
                old(self).kernel@,
                r,
                old(actions)@.push(SupervisorAction::Report(Notice::CandidateReady)),
                final(actions)@,
            ),
    {
        let same = match &self.published_catalog {
            Some(active) => active.same_public_tools(catalog),
            None => false,
        };
        if same {
            actions.push(SupervisorAction::Report(Notice::CandidateReady));
            self.phase = RolloverPhase::Draining;
            let ghost draining = *self;
            let result = self.try_begin_restore(actions);
            proof {
                assert(draining.spec_callbacks() == old(self).spec_callbacks());
                assert(draining.spec_internal() == old(self).spec_internal());
                assert(draining.spec_active() == old(self).spec_active());
                assert(draining.spec_candidate() == old(self).spec_candidate());
                assert(draining.spec_next_internal() == old(self).spec_next_internal());
            }
            return result;
        }
        actions.push(SupervisorAction::WriteClient(list_changed_notification()));
        actions.push(SupervisorAction::Report(Notice::CatalogChanged));
        assert(actions@.take(old(actions)@.len() as int) =~= old(actions)@);
        self.phase = RolloverPhase::AwaitingCatalogRefresh;
        Ok(())
    }

    /// Handles the end of worker `token`'s process.
    pub fn worker_gone(&mut self, token: u64, detail: String, now: u64, actions: &mut Vec<SupervisorAction>) -> (r: Result<(), SupervisorError>)
        requires
            old(self).wf(),
        ensures
            final(self).wf(),
            old(self).keeps_authority(&*final(self)),
            old(self).spec_candidate() == Some((token, CandidatePurpose::Rollover)) ==> final(self).spec_candidate()
                is None && final(self).spec_active() == old(self).spec_active() && final(self).spec_rejected()
                == old(self).spec_candidate_generation() && (old(self).spec_active() is Some ==> final(self).spec_phase()
                == RolloverPhase::Idle),
            old(self).spec_candidate() == Some((token, CandidatePurpose::Recovery)) ==> r is Ok
                && final(self).spec_candidate() is None && final(self).spec_active() == old(self).spec_active()
                && final(self).spec_phase() == RolloverPhase::Recovering && final(self).spec_retry_at() == Some(
                later_spec(now, RECOVERY_BACKOFF_MILLIS),
            ) && final(self).spec_kernel() == old(self).spec_kernel() && final(actions)@ == old(actions)@.push(
                SupervisorAction::Report(Notice::CandidateLost(detail)),
            ),
            !(old(self).spec_candidate() matches Some((t, _)) && t == token) ==> r is Ok && old(self).lost_worker(
                &*final(self),
                token,
                now,
            ),
    {
        let purpose = match &self.candidate {
            Some(c) => if c.worker.token == token {
                Some(c.purpose)
            } else {
                None
            },
            None => None,
        };
        match purpose {
            Some(CandidatePurpose::Rollover) => self.reject_candidate(CandidateRejection::WorkerLost(detail), actions),
            Some(CandidatePurpose::Recovery) => {
                self.candidate = None;
                self.forget_internal(token);
                self.phase = RolloverPhase::Recovering;
                self.retry_at = Some(later(now, RECOVERY_BACKOFF_MILLIS));
                actions.push(SupervisorAction::Report(Notice::CandidateLost(detail)));
                Ok(())
            },
            None => {
                self.worker_loss(Some(token), detail, now, actions);
                Ok(())
            },
        }
    }

    /// Handles a failed send to worker `token`: the worker is treated as lost.
    pub fn send_failed(&mut self, token: u64, detail: String, now: u64, actions: &mut Vec<SupervisorAction>)
        requires
            old(self).wf(),
        ensures
            final(self).wf(),
            old(self).keeps_authority(&*final(self)),
            old(self).lost_worker(&*final(self), token, now),
    {
        self.worker_loss(Some(token), detail, now, actions);
    }

    /// The next worker identity.
    fn next_worker_token(&mut self) -> (r: Result<u64, SupervisorError>)
        ensures
            old(self).next_worker == u64::MAX ==> r == Err::<u64, SupervisorError>(
                SupervisorError::WorkerIdentityExhausted,
            ) && *final(self) == *old(self),
            old(self).next_worker < u64::MAX ==> r == Ok::<u64, SupervisorError>((old(self).next_worker + 1) as u64)
                && final(self).next_worker == old(self).next_worker + 1,
            final(self).kernel@ == old(self).kernel@,
            final(self).initialize_frame == old(self).initialize_frame,
            final(self).next_internal == old(self).next_internal,
            final(self).retry_at == old(self).retry_at,
            final(self).internal == old(self).internal,
            final(self).callbacks == old(self).callbacks,
            final(self).rejected_generation == old(self).rejected_generation,
            final(self).journal@ == old(self).journal@,
            final(self).candidate == old(self).candidate,
            final(self).active == old(self).active,
            final(self).phase == old(self).phase,
    {
        if self.next_worker == u64::MAX {
            return Err(SupervisorError::WorkerIdentityExhausted);
        }
        self.next_worker = self.next_worker + 1;
        Ok(self.next_worker)
    }

    /// Starts a replacement worker from the recovery release: it becomes active at once while the
    /// session is not yet initialized, and otherwise is prepared as a recovery candidate.
    fn start_recovery(&mut self, now: u64, actions: &mut Vec<SupervisorAction>) -> (r: Result<(), SupervisorError>)
        requires
            old(self).wf(),
        ensures
            final(self).wf(),
            r is Ok ==> (final(self).spec_candidate() matches Some((_, purpose)) && purpose == CandidatePurpose::Recovery)
                || (final(self).spec_active() is Some && final(self).spec_phase() == RolloverPhase::Idle),
            old(self).next_worker == u64::MAX ==> r == Err::<(), SupervisorError>(
                SupervisorError::WorkerIdentityExhausted,
            ) && *final(self) == *old(self) && final(actions)@ == old(actions)@,
            old(self).next_worker < u64::MAX ==> {
                let token = (old(self).next_worker + 1) as u64;
                &&& final(actions)@.len() > old(actions)@.len()
                &&& final(actions)@[old(actions)@.len() as int] matches SupervisorAction::SpawnWorker { token: t, .. }
                    && t == token
                &&& if old(self).kernel@.phase == SessionPhase::Cold || old(self).kernel@.phase
                    == SessionPhase::Initializing {
                    final(self).spec_active() == Some(token) && final(self).spec_phase() == RolloverPhase::Idle
                        && final(self).spec_retry_at() is None
                } else {
                    match seeded_initialize(old(self).kernel@, frame_opt_view(old(self).initialize_frame)) {
                        Err(e) => r == Err::<(), SupervisorError>(e) && final(self).spec_candidate() is None,
                        Ok(f) => old(self).next_internal < u64::MAX && with_id(
                            f.value,
                            request_id_json(next_internal_id(old(self).next_internal, token, "initialize"@)),
                        ) is Some ==> r is Ok && final(self).spec_candidate() == Some((token, CandidatePurpose::Recovery))
                            && final(self).spec_active() == old(self).spec_active(),
                    }
                }
            },
    {
        let token = self.next_worker_token()?;
        let release = self.recovery_release.clone();
        actions.push(SupervisorAction::SpawnWorker { token, release: self.recovery_release.clone() });
        let ghost spawned = actions@;
        assert(spawned[old(actions)@.len() as int] matches SupervisorAction::SpawnWorker { token: t, .. } && t == token);
        let worker = WorkerSlot { token, release, catalog: None };
        let phase = self.kernel.session_phase();
        if phase == SessionPhase::Cold || phase == SessionPhase::Initializing {
            self.active = Some(worker);
            self.phase = RolloverPhase::Idle;
            self.retry_at = None;
            let flushed = self.flush_queue(actions);
            assert(actions@[old(actions)@.len() as int] == spawned[old(actions)@.len() as int]);
            return flushed;
        }
        self.candidate = Some(
            Candidate {
                worker,
                purpose: CandidatePurpose::Recovery,
                stage: CandidateStage::Initializing,
                deadline: later(now, CANDIDATE_TIMEOUT_MILLIS),
            },
        );
        match self.seed_candidate_initialize(token, actions) {
            Ok(()) => Ok(()),
            Err(e) => {
                let ghost failed = actions@;
                if let Some(candidate) = self.candidate.take() {
                    actions.push(SupervisorAction::KillWorker(candidate.worker.token));
                    assert(actions@[old(actions)@.len() as int] == failed[old(actions)@.len() as int]);
                }
                self.forget_internal(token);
                Err(e)
            },
        }
    }

    /// Advances the clock: expires an overdue candidate, starts a due recovery, and asks for a
    /// channel poll when the session is live and steady.
    pub fn tick(&mut self, now: u64, actions: &mut Vec<SupervisorAction>) -> (r: Result<TickRequest, SupervisorError>)
        requires
            old(self).wf(),
        ensures
            final(self).wf(),
            r matches Ok(TickRequest::PollChannel) ==> final(self).spec_phase() == RolloverPhase::Idle
                && final(self).spec_candidate() is None && final(self).spec_kernel().phase == SessionPhase::Live
                && final(self).spec_published() is Some,
            old(self).spec_candidate() is None && old(self).spec_phase() == RolloverPhase::Idle ==> r == Ok::<
                TickRequest,
                SupervisorError,
            >(
                if old(self).spec_kernel().phase == SessionPhase::Live && old(self).spec_published() is Some {
                    TickRequest::PollChannel
                } else {
                    TickRequest::Nothing
                },
            ) && final(self).spec_kernel() == old(self).spec_kernel() && final(self).spec_active()
                == old(self).spec_active() && final(self).spec_candidate() is None && final(self).spec_phase()
                == RolloverPhase::Idle && final(actions)@ == old(actions)@,
            old(self).candidate_expired(CandidatePurpose::Rollover, now) && old(self).spec_active() is Some ==> final(self).spec_candidate() is None
                && final(self).spec_rejected() == old(self).spec_candidate_generation() && final(self).spec_active()
                == old(self).spec_active() && final(self).spec_phase() == RolloverPhase::Idle && final(actions)@.len()
                >= old(actions)@.len() + 2 && (old(self).spec_candidate() matches Some((t, _))
                && final(actions)@[old(actions)@.len() as int] == SupervisorAction::KillWorker(t)) && final(actions)@[old(actions)@.len() + 1int] == SupervisorAction::Report(
                Notice::CandidateRejected(CandidateRejection::DeadlineExpired),
            ) && (r is Ok ==> r == Ok::<TickRequest, SupervisorError>(
                if final(self).spec_kernel().phase == SessionPhase::Live && final(self).spec_published() is Some {
                    TickRequest::PollChannel
                } else {
                    TickRequest::Nothing
                },
            )),
            old(self).candidate_expired(CandidatePurpose::Recovery, now) && old(self).spec_active() is None && now
                + RECOVERY_BACKOFF_MILLIS <= u64::MAX
                ==> r == Ok::<TickRequest, SupervisorError>(TickRequest::Nothing) && final(self).spec_candidate() is None
                && final(self).spec_phase() == RolloverPhase::Recovering && final(self).spec_retry_at() == Some(
                (now + RECOVERY_BACKOFF_MILLIS) as u64,
            ),
            old(self).spec_candidate() is None && old(self).spec_phase() == RolloverPhase::Recovering && (old(self).spec_retry_at() matches Some(at) ==> now >= at) ==> r == Ok::<TickRequest, SupervisorError>(
                TickRequest::Nothing,
            ) && if old(self).spec_next_worker() == u64::MAX {
                &&& final(self).spec_candidate() is None
                &&& final(self).spec_active() == old(self).spec_active()
                &&& final(self).spec_retry_at() == Some(later_spec(now, RECOVERY_BACKOFF_MILLIS))
                &&& final(actions)@ == old(actions)@.push(
                    SupervisorAction::Report(Notice::RecoveryStartFailed(SupervisorError::WorkerIdentityExhausted)),
                )
            } else {
                let token = (old(self).spec_next_worker() + 1) as u64;
                &&& final(actions)@.len() > old(actions)@.len()
                &&& final(actions)@[old(actions)@.len() as int] matches SupervisorAction::SpawnWorker { token: t, .. }
                    && t == token
                &&& if old(self).spec_kernel().phase == SessionPhase::Cold || old(self).spec_kernel().phase
                    == SessionPhase::Initializing {
                    final(self).spec_active() == Some(token) && final(self).spec_phase() == RolloverPhase::Idle
                } else {
                    match seeded_initialize(old(self).spec_kernel(), old(self).spec_initialize_frame()) {
                        Err(e) => final(self).spec_candidate() is None && final(self).spec_retry_at() == Some(
                            later_spec(now, RECOVERY_BACKOFF_MILLIS),
                        ) && final(actions)@.last() == SupervisorAction::Report(Notice::RecoveryStartFailed(e)),
                        Ok(f) => old(self).spec_next_internal() < u64::MAX && with_id(
                            f.value,
                            request_id_json(next_internal_id(old(self).spec_next_internal(), token, "initialize"@)),
                        ) is Some ==> final(self).spec_candidate() == Some((token, CandidatePurpose::Recovery))
                            && final(self).spec_active() == old(self).spec_active(),
                    }
                }
            },
    {
        let expired = match &self.candidate {
            Some(c) => if now >= c.deadline {
                Some(c.purpose)
            } else {
                None
            },
            None => None,
        };
        if let Some(purpose) = expired {
            self.reject_candidate(CandidateRejection::DeadlineExpired, actions)?;
            if purpose == CandidatePurpose::Recovery {
                self.phase = RolloverPhase::Recovering;
                self.retry_at = Some(later(now, RECOVERY_BACKOFF_MILLIS));
            }
        }
        let due = match self.retry_at {
            Some(deadline) => now >= deadline,
            None => true,
        };
        if self.phase == RolloverPhase::Recovering && self.candidate.is_none() && due {
            self.retry_at = None;
            match self.start_recovery(now, actions) {
                Ok(()) => {},
                Err(e) => {
                    actions.push(SupervisorAction::Report(Notice::RecoveryStartFailed(e)));
                    self.retry_at = Some(later(now, RECOVERY_BACKOFF_MILLIS));
                },
            }
            return Ok(TickRequest::Nothing);
        }
        if self.phase != RolloverPhase::Idle || self.candidate.is_some() || self.kernel.session_phase()
            != SessionPhase::Live || self.published_catalog.is_none() {
            return Ok(TickRequest::Nothing);
        }
        Ok(TickRequest::PollChannel)
    }

    /// Considers the release the channel selects: a new generation that can read the incumbent's
    /// state and was not rejected before is launched as a rollover candidate.
    pub fn consider_release(
        &mut self,
        selected: Result<ReleaseManifest, ReleaseError>,
        now: u64,
        actions: &mut Vec<SupervisorAction>,
    ) -> (r: Result<(), SupervisorError>)
        requires
            old(self).wf(),
        ensures
            final(self).wf(),
            old(self).keeps_authority(&*final(self)),
            (selected is Err || old(self).spec_candidate() is Some || old(self).spec_phase() != RolloverPhase::Idle
                || old(self).spec_active_release() is None) ==> final(self).spec_candidate() == old(self).spec_candidate()
                && final(self).spec_rejected() == old(self).spec_rejected(),
            match (selected, old(self).spec_active_release()) {
                (Ok(release), Some(incumbent)) => (old(self).spec_candidate() is None && old(self).spec_phase()
                    == RolloverPhase::Idle) ==> {
                if release@.generation == incumbent.generation || old(self).spec_rejected() == Some(release@.generation) {
                    final(self).spec_candidate() is None && final(self).spec_rejected() == old(self).spec_rejected()
                } else if !crate::rollout::state_accepts(release@.state, incumbent.state) {
                    final(self).spec_candidate() is None && final(self).spec_rejected() == Some(release@.generation)
                } else if old(self).spec_next_worker() == u64::MAX {
                    r == Err::<(), SupervisorError>(SupervisorError::WorkerIdentityExhausted) && final(self).spec_candidate()
                        is None && final(actions)@ == old(actions)@
                } else {
                    let token = (old(self).spec_next_worker() + 1) as u64;
                    &&& final(actions)@.len() >= old(actions)@.len() + 2
                    &&& final(actions)@[old(actions)@.len() as int] matches SupervisorAction::SpawnWorker { token: t, .. }
                        && t == token
                    &&& final(actions)@[old(actions)@.len() + 1int] matches SupervisorAction::Report(Notice::Preparing(g))
                        && g@ == release@.generation
                    &&& match seeded_initialize(old(self).spec_kernel(), old(self).spec_initialize_frame()) {
                        Ok(f) => if old(self).spec_next_internal() < u64::MAX && with_id(
                            f.value,
                            request_id_json(next_internal_id(old(self).spec_next_internal(), token, "initialize"@)),
                        ) is Some {
                            &&& r is Ok
                            &&& final(self).spec_candidate() == Some((token, CandidatePurpose::Rollover))
                            &&& final(self).spec_candidate_generation() == Some(release@.generation)
                            &&& final(self).spec_candidate_deadline() == Some(later_spec(now, CANDIDATE_TIMEOUT_MILLIS))
                            &&& final(self).spec_active() == old(self).spec_active()
                        } else {
                            final(self).spec_candidate() is None && final(self).spec_rejected() == Some(release@.generation)
                        },
                        Err(_) => final(self).spec_candidate() is None && final(self).spec_rejected() == Some(
                            release@.generation,
                        ),
                    }
                }
            },
                _ => true,
            },
    {
        if self.candidate.is_some() || self.phase != RolloverPhase::Idle {
            return Ok(());
        }
        let release = match selected {
            Ok(r) => r,
            Err(e) => {
                actions.push(SupervisorAction::Report(Notice::ChannelRejected(e)));
                return Ok(());
            },
        };
        let (same, accepted) = match &self.active {
            Some(active) => (
                release.generation().same_as(active.release.generation()),
                release.state().accepts(active.release.state()),
            ),
            None => {
                return Ok(());
            },
        };
        if same {
            return Ok(());
        }
        let rejected = match &self.rejected_generation {
            Some(g) => g.same_as(release.generation()),
            None => false,
        };
        if rejected {
            return Ok(());
        }
        if !accepted {
            let generation = release.generation().duplicate();
            actions.push(SupervisorAction::Report(Notice::StateIncompatible(generation.duplicate())));
            self.rejected_generation = Some(generation);
            return Ok(());
        }
        let token = self.next_worker_token()?;
        let generation = release.generation().duplicate();
        actions.push(SupervisorAction::SpawnWorker { token, release: release.clone() });
        actions.push(SupervisorAction::Report(Notice::Preparing(generation)));
        self.candidate = Some(
            Candidate {
                worker: WorkerSlot { token, release, catalog: None },
                purpose: CandidatePurpose::Rollover,
                stage: CandidateStage::Initializing,
                deadline: later(now, CANDIDATE_TIMEOUT_MILLIS),
            },
        );
        match self.seed_candidate_initialize(token, actions) {
            Ok(()) => Ok(()),
            Err(e) => self.reject_candidate(CandidateRejection::Failed(e), actions),
        }
    }

    /// Handles a failed launch of worker `token`.
    pub fn launch_failed(&mut self, token: u64, failure: LaunchFailure, now: u64, actions: &mut Vec<SupervisorAction>) -> (r: Result<(), SupervisorError>)
        requires
            old(self).wf(),
        ensures
            final(self).wf(),
            old(self).keeps_authority(&*final(self)),
            r is Ok,
            final(self).spec_kernel() == old(self).spec_kernel(),
            old(self).spec_candidate() == Some((token, CandidatePurpose::Rollover)) ==> final(self).spec_candidate()
                is None && final(self).spec_active() == old(self).spec_active() && final(self).spec_phase()
                == old(self).spec_phase() && final(self).spec_rejected() == old(self).spec_candidate_generation()
                && final(actions)@.len() == old(actions)@.len() + 1,
            old(self).spec_candidate() == Some((token, CandidatePurpose::Recovery)) ==> final(self).spec_candidate()
                is None && final(self).spec_active() == old(self).spec_active() && final(self).spec_phase()
                == RolloverPhase::Recovering && final(self).spec_retry_at() == Some(
                later_spec(now, RECOVERY_BACKOFF_MILLIS),
            ) && final(actions)@.len() == old(actions)@.len() + 1,
            !(old(self).spec_candidate() matches Some((t, _)) && t == token) ==> final(self).spec_candidate()
                == old(self).spec_candidate() && if old(self).spec_active() == Some(token) {
                final(self).spec_active() is None && final(self).spec_phase() == RolloverPhase::Recovering
                    && final(self).spec_retry_at() == Some(later_spec(now, RECOVERY_BACKOFF_MILLIS))
                    && final(actions)@.len() == old(actions)@.len() + 1
            } else {
                final(self).spec_active() == old(self).spec_active() && final(self).spec_phase() == old(self).spec_phase()
                    && final(actions)@ == old(actions)@
            },
    {
        let candidate_purpose = match &self.candidate {
            Some(c) => if c.worker.token == token {
                Some(c.purpose)
            } else {
                None
            },
            None => None,
        };
        match candidate_purpose {
            Some(CandidatePurpose::Rollover) => {
                let candidate = self.candidate.take();
                if let Some(candidate) = candidate {
                    self.rejected_generation = Some(candidate.worker.release.generation().duplicate());
                    self.forget_internal(token);
                }
                let notice = match failure {
                    LaunchFailure::Verification(e) => Notice::CandidateVerificationFailed(e),
                    LaunchFailure::Spawn => Notice::CandidateLaunchFailed,
                };
                actions.push(SupervisorAction::Report(notice));
                Ok(())
            },
            Some(CandidatePurpose::Recovery) => {
                self.candidate = None;
                self.forget_internal(token);
                self.phase = RolloverPhase::Recovering;
                self.retry_at = Some(later(now, RECOVERY_BACKOFF_MILLIS));
                actions.push(SupervisorAction::Report(Notice::RecoveryStartFailed(launch_error(failure))));
                Ok(())
            },
            None => {
                if self.active_token() == Some(token) {
                    self.active = None;
                    self.phase = RolloverPhase::Recovering;
                    self.retry_at = Some(later(now, RECOVERY_BACKOFF_MILLIS));
                    actions.push(SupervisorAction::Report(Notice::RecoveryStartFailed(launch_error(failure))));
                }
                Ok(())
            },
        }
    }

    /// Stops every worker at the end of the public session.
    pub fn shutdown(&mut self, actions: &mut Vec<SupervisorAction>)
        requires
            old(self).wf(),
        ensures
            final(self).wf(),
            old(self).keeps_authority(&*final(self)),
            final(self).spec_active() is None,
            final(self).spec_candidate() is None,
    {
        if let Some(active) = self.active.take() {
            actions.push(SupervisorAction::KillWorker(active.token));
        }
        if let Some(candidate) = self.candidate.take() {
            actions.push(SupervisorAction::KillWorker(candidate.worker.token));
        }
    }
}

/// The host error for a failed launch.
fn launch_error(failure: LaunchFailure) -> (r: SupervisorError)
    ensures
        r == match failure {
            LaunchFailure::Verification(e) => SupervisorError::Release(e),
            LaunchFailure::Spawn => SupervisorError::ActiveWorkerAbsent,
        },
{
    match failure {
        LaunchFailure::Verification(e) => SupervisorError::Release(e),
        LaunchFailure::Spawn => SupervisorError::ActiveWorkerAbsent,
    }
}

/// While the incumbent drains or a replacement is prepared, no client work reaches a worker:
/// it waits in the kernel queue, except callback answers, initialization, cancellations, and
/// catalog refreshes that the host handles itself.
pub proof fn lemma_gated_phases_hold_client_work(envelope: EnvelopeView, phase: RolloverPhase, published: bool, active: bool)
    requires
        phase == RolloverPhase::Draining || phase == RolloverPhase::Recovering,
    ensures
        client_route(envelope, phase, published, active) != ClientRoute::Dispatched,
        client_route(envelope, phase, published, active) != ClientRoute::Forwarded,
        client_route(envelope, phase, published, active) != ClientRoute::CatalogReply,
{
}

/// Before a catalog is published, every request but `initialize` waits.
pub proof fn lemma_unpublished_catalog_holds_requests(id: crate::jsonrpc::RequestIdView, method: Seq<char>, phase: RolloverPhase, active: bool)
    requires
        !is_initialize_method(method),
    ensures
        client_route(EnvelopeView::Request { id, method }, phase, false, active) == ClientRoute::Queued,
{
}

/// Only replay-safe methods and tools whose published contract converges are ever replayed:
/// probe-required and at-most-once tools, unknown tools, and deduplicated tools without their
/// operation key are never replayed.
pub proof fn lemma_replay_needs_a_convergent_contract(
    catalog: Option<CatalogView>,
    value: JsonView,
    fuel: nat,
    method: Seq<char>,
)
    requires
        spec_classify_request(catalog, value, fuel, method) != ReplayContract::NeverReplay,
        !is_initialize_method(method),
        !is_replay_safe_method(method),
    ensures
        is_tools_call_method(method),
        spec_tool_call_meta(value, method, fuel) matches Some(meta) && catalog matches Some(c) && contract_named(
            c.contracts,
            meta.tool_name,
        ) matches Some(contract) && (contract.recovery is ReplaySafe || (contract.recovery is Deduplicated
            && key_present(value, contract.deduplication_key_pointer))),
{
}

/// A recorded journal stays within its entry and byte bounds, whatever was recorded.
pub proof fn lemma_journal_stays_bounded(
    j: JournalView,
    key: Seq<char>,
    payload: Seq<u8>,
    r: Result<(), SupervisorError>,
    next: JournalView,
)
    requires
        record_step(j, key, payload, r, next),
    ensures
        next.entries.len() <= JOURNAL_MAX_ENTRIES,
        next.bytes <= JOURNAL_MAX_BYTES,
        r is Ok ==> next.entries.last() == (key, payload),
{
}

/// A planned rollover never stops the incumbent while its work is in flight: as long as a
/// dispatch is unanswered or a callback of the incumbent is open, the step after the incumbent
/// answers keeps the incumbent active, the candidate waiting, and the drain going.
pub proof fn lemma_drain_waits_for_in_flight_work(
    core: SupervisorCore,
    after: SupervisorCore,
    kernel: KernelView,
    r: Result<(), SupervisorError>,
    before_actions: Seq<SupervisorAction>,
    after_actions: Seq<SupervisorAction>,
)
    requires
        core.drain_step(&after, kernel, r, before_actions, after_actions),
        dispatch_in_flight(kernel) || owned_by(core.spec_callbacks(), core.spec_active()) != 0,
    ensures
        after.spec_active() == core.spec_active(),
        after.spec_candidate() == core.spec_candidate(),
        after.spec_phase() == RolloverPhase::Draining,
        after.spec_kernel() == kernel,
        after_actions == before_actions,
{
}

/// The protocol's read-only requests converge: `ping`, the `tools`, `resources`, `prompts`
/// and template listings, `resources/read`, `prompts/get` and `completion/complete` are
/// classified replay-safe whatever the catalog and the request hold, and so is `initialize`.
pub proof fn lemma_read_only_requests_converge(catalog: Option<CatalogView>, value: JsonView, fuel: nat, method: Seq<char>)
    requires
        method == "ping"@ || method == "tools/list"@ || method == "resources/list"@ || method
            == "resources/templates/list"@ || method == "resources/read"@ || method == "prompts/list"@ || method
            == "prompts/get"@ || method == "completion/complete"@ || method == "initialize"@,
    ensures
        spec_classify_request(catalog, value, fuel, method) == ReplayContract::Convergent,
{
}

/// Requests other than the read-only ones, `initialize` and `tools/call` are never replayed.
pub proof fn lemma_other_requests_never_replay(catalog: Option<CatalogView>, value: JsonView, fuel: nat, method: Seq<char>)
    requires
        !(method == "ping"@ || method == "tools/list"@ || method == "resources/list"@ || method
            == "resources/templates/list"@ || method == "resources/read"@ || method == "prompts/list"@ || method
            == "prompts/get"@ || method == "completion/complete"@ || method == "initialize"@ || method
            == "tools/call"@),
    ensures
        spec_classify_request(catalog, value, fuel, method) == ReplayContract::NeverReplay,
{
}

/// A tool call follows the published contract of its tool: a replay-safe tool converges, a
/// tool that runs at most once or needs a probe is never replayed, and a call of a tool that
/// the catalog does not publish, or made before any catalog, is never replayed.
pub proof fn lemma_tool_calls_follow_the_published_contract(
    catalog: Option<CatalogView>,
    value: JsonView,
    fuel: nat,
    meta: crate::callmeta::ToolCallMetaView,
)
    requires
        spec_tool_call_meta(value, "tools/call"@, fuel) == Some(meta),
    ensures
        ({
            let r = spec_classify_request(catalog, value, fuel, "tools/call"@);
            match catalog {
                None => r == ReplayContract::NeverReplay,
                Some(c) => match contract_named(c.contracts, meta.tool_name) {
                    None => r == ReplayContract::NeverReplay,
                    Some(contract) => {
                        &&& contract.recovery is ReplaySafe ==> r == ReplayContract::Convergent
                        &&& contract.recovery is AtMostOnce ==> r == ReplayContract::NeverReplay
                        &&& contract.recovery is ProbeRequired ==> r == ReplayContract::NeverReplay
                    },
                },
            }
        }),
{
    reveal_strlit("tools/call");
    reveal_strlit("initialize");
    reveal_strlit("ping");
    reveal_strlit("tools/list");
    reveal_strlit("resources/list");
    reveal_strlit("resources/templates/list");
    reveal_strlit("resources/read");
    reveal_strlit("prompts/list");
    reveal_strlit("prompts/get");
    reveal_strlit("completion/complete");
    assert("tools/call"@[6] != "tools/list"@[6]);
    assert("tools/call"@.len() != "ping"@.len());
    assert("tools/call"@.len() != "resources/list"@.len());
    assert("tools/call"@.len() != "resources/templates/list"@.len());
    assert("tools/call"@.len() != "resources/read"@.len());
    assert("tools/call"@.len() != "prompts/list"@.len());
    assert("tools/call"@.len() != "prompts/get"@.len());
    assert("tools/call"@.len() != "completion/complete"@.len());
    assert("tools/call"@.len() != "initialize"@.len() || "tools/call"@[0] != "initialize"@[0]);
    assert(!is_initialize_method("tools/call"@));
    assert(!is_replay_safe_method("tools/call"@));
}

} // verus!

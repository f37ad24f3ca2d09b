//! Effect-recovery and session-migration contracts extracted from MCP catalogs.

use vstd::prelude::*;
use crate::json::{
    JsonValue, JsonView, get_member, lemma_items_view, lemma_members_view, member, members_view,
    sorted_indices, sorted_member_indices, view_as_bool, view_as_object, view_as_str, view_as_u64,
};
use crate::jsonrpc::ToolName;
use crate::replay::ReplayContract;
use crate::text::{chars_of, owned, str_eq};

verus! {

/// The reserved `_meta` member carrying the private effect contract.
pub open spec fn meta_key() -> Seq<char> {
    "io.libmcp/effect"@
}

/// Recovery authority granted after a worker dies with an unknown outcome.
#[derive(Debug, Clone, Copy, PartialEq, Eq, Structural)]
pub enum EffectRecovery {
    /// An arbitrary failed prefix followed by another attempt is effect-equivalent to one attempt.
    ReplaySafe,
    /// A stable key is enforced by a durable deduplication authority.
    Deduplicated,
    /// Domain evidence must resolve the unknown outcome before another attempt.
    ProbeRequired,
    /// The host may dispatch at most one attempt.
    AtMostOnce,
}

/// The continuity kernel's retry law for each recovery authority.
pub open spec fn spec_replay_contract(recovery: EffectRecovery) -> ReplayContract {
    match recovery {
        EffectRecovery::ReplaySafe | EffectRecovery::Deduplicated => ReplayContract::Convergent,
        EffectRecovery::ProbeRequired => ReplayContract::ProbeRequired,
        EffectRecovery::AtMostOnce => ReplayContract::NeverReplay,
    }
}

impl EffectRecovery {
    /// Projects the richer contract onto the continuity kernel's retry law.
    pub fn replay_contract(self) -> (r: ReplayContract)
        ensures
            r == spec_replay_contract(self),
    {
        match self {
            EffectRecovery::ReplaySafe | EffectRecovery::Deduplicated => ReplayContract::Convergent,
            EffectRecovery::ProbeRequired => ReplayContract::ProbeRequired,
            EffectRecovery::AtMostOnce => ReplayContract::NeverReplay,
        }
    }
}

/// Logical session-state treatment during generation rollover.
#[derive(Debug, Clone, PartialEq, Eq)]
pub enum SessionStateContract {
    /// No business-session state must cross generations.
    Stateless,
    /// Successful session-only calls compact under this key and replay before activation.
    Journaled {
        /// Stable journal compaction key.
        key: String,
    },
    /// State moves through a bounded, versioned business checkpoint.
    Checkpointed {
        /// Checkpoint format version.
        version: u64,
    },
    /// The generation cannot be replaced while this state remains live.
    GenerationPinned,
}

/// A session-state contract with its key as text.
pub enum StateView {
    Stateless,
    Journaled(Seq<char>),
    Checkpointed(u64),
    GenerationPinned,
}

impl View for SessionStateContract {
    type V = StateView;

    open spec fn view(&self) -> StateView {
        match self {
            SessionStateContract::Stateless => StateView::Stateless,
            SessionStateContract::Journaled { key } => StateView::Journaled(key@),
            SessionStateContract::Checkpointed { version } => StateView::Checkpointed(*version),
            SessionStateContract::GenerationPinned => StateView::GenerationPinned,
        }
    }
}

impl SessionStateContract {
    /// A copy of the same contract.
    pub fn duplicate(&self) -> (r: Self)
        ensures
            r@ == self@,
    {
        match self {
            SessionStateContract::Stateless => SessionStateContract::Stateless,
            SessionStateContract::Journaled { key } => SessionStateContract::Journaled { key: key.clone() },
            SessionStateContract::Checkpointed { version } => SessionStateContract::Checkpointed {
                version: *version,
            },
            SessionStateContract::GenerationPinned => SessionStateContract::GenerationPinned,
        }
    }
}

/// Complete host-visible contract for one MCP tool.
#[derive(Debug, Clone, PartialEq, Eq)]
pub struct ToolEffectContract {
    recovery: EffectRecovery,
    state: SessionStateContract,
    deduplication_key_pointer: Option<String>,
}

/// A tool contract as mathematical values.
pub struct ContractView {
    pub recovery: EffectRecovery,
    pub state: StateView,
    pub deduplication_key_pointer: Option<Seq<char>>,
}

impl View for ToolEffectContract {
    type V = ContractView;

    closed spec fn view(&self) -> ContractView {
        ContractView {
            recovery: self.recovery,
            state: self.state@,
            deduplication_key_pointer: match self.deduplication_key_pointer {
                Some(p) => Some(p@),
                None => None,
            },
        }
    }
}

impl ToolEffectContract {
    /// Constructs an explicit tool contract.
    pub fn new(recovery: EffectRecovery, state: SessionStateContract) -> (r: Self)
        ensures
            r@ == (ContractView { recovery, state: state@, deduplication_key_pointer: None }),
    {
        Self { recovery, state, deduplication_key_pointer: None }
    }

    /// Returns the crash-recovery law.
    pub fn recovery(&self) -> (r: EffectRecovery)
        ensures
            r == self@.recovery,
    {
        self.recovery
    }

    /// Returns the rollover state law.
    pub fn state(&self) -> (r: &SessionStateContract)
        ensures
            r@ == self@.state,
    {
        &self.state
    }

    /// Returns the JSON Pointer naming a durable operation key.
    pub fn deduplication_key_pointer(&self) -> (r: Option<&str>)
        ensures
            match r {
                Some(p) => self@.deduplication_key_pointer == Some(p@),
                None => self@.deduplication_key_pointer is None,
            },
    {
        match &self.deduplication_key_pointer {
            Some(p) => Some(p.as_str()),
            None => None,
        }
    }

    /// A copy of the same contract.
    pub fn duplicate(&self) -> (r: Self)
        ensures
            r@ == self@,
    {
        Self {
            recovery: self.recovery,
            state: self.state.duplicate(),
            deduplication_key_pointer: match &self.deduplication_key_pointer {
                Some(p) => Some(p.clone()),
                None => None,
            },
        }
    }
}

/// Which part of a private state contract was rejected.
#[derive(Debug, Clone, Copy, PartialEq, Eq, Structural)]
pub enum InvalidStateReason {
    /// The contract has no state object.
    MissingStateObject,
    /// The state object has no kind.
    MissingStateKind,
    /// A journaled state has no non-empty key.
    JournalKeyMissing,
    /// A checkpointed state has no unsigned version.
    CheckpointVersionMissing,
    /// The state kind is unknown.
    UnknownStateKind,
    /// A journaled state is paired with a recovery that is not replay-safe.
    JournaledNotReplaySafe,
    /// Deduplicated recovery names no JSON Pointer key.
    DeduplicationKeyMissing,
}

/// The words for a rejected state field.
pub open spec fn reason_text(reason: InvalidStateReason) -> Seq<char> {
    match reason {
        InvalidStateReason::MissingStateObject => "missing state object"@,
        InvalidStateReason::MissingStateKind => "missing state kind"@,
        InvalidStateReason::JournalKeyMissing => "journal key is missing"@,
        InvalidStateReason::CheckpointVersionMissing => "checkpoint version is missing"@,
        InvalidStateReason::UnknownStateKind => "unknown state kind"@,
        InvalidStateReason::JournaledNotReplaySafe => "journaled transitions must be replay-safe"@,
        InvalidStateReason::DeduplicationKeyMissing => "deduplicated recovery requires a JSON Pointer key"@,
    }
}

impl InvalidStateReason {
    /// The precise rejected field, in words.
    pub fn text(self) -> (r: &'static str)
        ensures
            r@ == reason_text(self),
    {
        match self {
            InvalidStateReason::MissingStateObject => "missing state object",
            InvalidStateReason::MissingStateKind => "missing state kind",
            InvalidStateReason::JournalKeyMissing => "journal key is missing",
            InvalidStateReason::CheckpointVersionMissing => "checkpoint version is missing",
            InvalidStateReason::UnknownStateKind => "unknown state kind",
            InvalidStateReason::JournaledNotReplaySafe => "journaled transitions must be replay-safe",
            InvalidStateReason::DeduplicationKeyMissing => "deduplicated recovery requires a JSON Pointer key",
        }
    }
}

/// Invalid or contradictory private effect metadata.
#[derive(Debug, Clone, PartialEq, Eq)]
pub enum EffectContractError {
    /// The `tools/list` result omitted its tool array.
    MissingTools,
    /// One tool definition was not an object.
    ToolNotObject,
    /// One tool omitted its name.
    MissingToolName,
    /// One tool name violated MCP token bounds.
    InvalidToolName,
    /// The catalog defined one tool more than once.
    DuplicateTool(String),
    /// Reserved metadata used an unknown recovery kind.
    UnknownRecovery {
        /// Tool carrying the invalid contract.
        tool: String,
        /// Unrecognized recovery value.
        kind: String,
    },
    /// Reserved metadata used malformed state data.
    InvalidState {
        /// Tool carrying the invalid contract.
        tool: String,
        /// Precise rejected field.
        reason: InvalidStateReason,
    },
}

/// An effect-contract refusal with its texts.
pub enum EffectErrorView {
    MissingTools,
    ToolNotObject,
    MissingToolName,
    InvalidToolName,
    DuplicateTool(Seq<char>),
    UnknownRecovery { tool: Seq<char>, kind: Seq<char> },
    InvalidState { tool: Seq<char>, reason: InvalidStateReason },
}

impl View for EffectContractError {
    type V = EffectErrorView;

    open spec fn view(&self) -> EffectErrorView {
        match self {
            EffectContractError::MissingTools => EffectErrorView::MissingTools,
            EffectContractError::ToolNotObject => EffectErrorView::ToolNotObject,
            EffectContractError::MissingToolName => EffectErrorView::MissingToolName,
            EffectContractError::InvalidToolName => EffectErrorView::InvalidToolName,
            EffectContractError::DuplicateTool(n) => EffectErrorView::DuplicateTool(n@),
            EffectContractError::UnknownRecovery { tool, kind } => EffectErrorView::UnknownRecovery {
                tool: tool@,
                kind: kind@,
            },
            EffectContractError::InvalidState { tool, reason } => EffectErrorView::InvalidState {
                tool: tool@,
                reason: *reason,
            },
        }
    }
}

/// The string value of member `key`, if it is a string.
pub open spec fn get_str(m: Seq<(Seq<char>, JsonView)>, key: Seq<char>) -> Option<Seq<char>> {
    match member(m, key) {
        Some(v) => view_as_str(v),
        None => None,
    }
}

/// The members of member `key`, if it is an object.
pub open spec fn get_object(m: Seq<(Seq<char>, JsonView)>, key: Seq<char>) -> Option<Seq<(Seq<char>, JsonView)>> {
    match member(m, key) {
        Some(v) => view_as_object(v),
        None => None,
    }
}

/// The recovery authority spelled by a recovery kind.
pub open spec fn recovery_named(kind: Seq<char>) -> Option<EffectRecovery> {
    if kind == "replay_safe"@ {
        Some(EffectRecovery::ReplaySafe)
    } else if kind == "deduplicated"@ {
        Some(EffectRecovery::Deduplicated)
    } else if kind == "probe_required"@ {
        Some(EffectRecovery::ProbeRequired)
    } else if kind == "at_most_once"@ {
        Some(EffectRecovery::AtMostOnce)
    } else {
        None
    }
}

/// The state contract described by a private contract's `state` member.
pub open spec fn spec_parse_state(tool: Seq<char>, value: Option<JsonView>) -> Result<StateView, EffectErrorView> {
    let state = match value {
        Some(v) => view_as_object(v),
        None => None,
    };
    match state {
        None => Err(EffectErrorView::InvalidState { tool, reason: InvalidStateReason::MissingStateObject }),
        Some(s) => match get_str(s, "kind"@) {
            None => Err(EffectErrorView::InvalidState { tool, reason: InvalidStateReason::MissingStateKind }),
            Some(kind) => if kind == "stateless"@ {
                Ok(StateView::Stateless)
            } else if kind == "journaled"@ {
                match get_str(s, "key"@) {
                    Some(key) => if key.len() > 0 {
                        Ok(StateView::Journaled(key))
                    } else {
                        Err(EffectErrorView::InvalidState { tool, reason: InvalidStateReason::JournalKeyMissing })
                    },
                    None => Err(EffectErrorView::InvalidState { tool, reason: InvalidStateReason::JournalKeyMissing }),
                }
            } else if kind == "checkpointed"@ {
                match member(s, "version"@) {
                    Some(v) => match view_as_u64(v) {
                        Some(version) => Ok(StateView::Checkpointed(version)),
                        None => Err(
                            EffectErrorView::InvalidState { tool, reason: InvalidStateReason::CheckpointVersionMissing },
                        ),
                    },
                    None => Err(
                        EffectErrorView::InvalidState { tool, reason: InvalidStateReason::CheckpointVersionMissing },
                    ),
                }
            } else if kind == "generation_pinned"@ {
                Ok(StateView::GenerationPinned)
            } else {
                Err(EffectErrorView::InvalidState { tool, reason: InvalidStateReason::UnknownStateKind })
            },
        },
    }
}

/// The string value of member `key` of an object.
fn member_str<'a>(m: &'a Vec<(String, JsonValue)>, key: &str) -> (r: Option<&'a String>)
    ensures
        match r {
            Some(s) => get_str(members_view(m@), key@) == Some(s@),
            None => get_str(members_view(m@), key@) is None,
        },
{
    match get_member(m, key) {
        Some(v) => v.as_str(),
        None => None,
    }
}

/// The members of member `key` of an object.
fn member_object<'a>(m: &'a Vec<(String, JsonValue)>, key: &str) -> (r: Option<&'a Vec<(String, JsonValue)>>)
    ensures
        match r {
            Some(o) => get_object(members_view(m@), key@) == Some(members_view(o@)),
            None => get_object(members_view(m@), key@) is None,
        },
{
    match get_member(m, key) {
        Some(v) => v.as_object(),
        None => None,
    }
}

fn invalid_state(tool: &str, reason: InvalidStateReason) -> (r: EffectContractError)
    ensures
        r@ == (EffectErrorView::InvalidState { tool: tool@, reason }),
{
    EffectContractError::InvalidState { tool: owned(tool), reason }
}

/// Parses a private contract's `state` member.
fn parse_state(tool: &str, value: Option<&JsonValue>) -> (r: Result<SessionStateContract, EffectContractError>)
    ensures
        match r {
            Ok(s) => spec_parse_state(tool@, match value { Some(v) => Some(v@), None => None }) == Ok::<StateView, EffectErrorView>(s@),
            Err(e) => spec_parse_state(tool@, match value { Some(v) => Some(v@), None => None }) == Err::<StateView, EffectErrorView>(e@),
        },
{
    let state = match value {
        Some(v) => match v.as_object() {
            Some(s) => s,
            None => {
                return Err(invalid_state(tool, InvalidStateReason::MissingStateObject));
            },
        },
        None => {
            return Err(invalid_state(tool, InvalidStateReason::MissingStateObject));
        },
    };
    let kind = match member_str(state, "kind") {
        Some(k) => k,
        None => {
            return Err(invalid_state(tool, InvalidStateReason::MissingStateKind));
        },
    };
    if str_eq(kind.as_str(), "stateless") {
        Ok(SessionStateContract::Stateless)
    } else if str_eq(kind.as_str(), "journaled") {
        match member_str(state, "key") {
            Some(key) => {
                if chars_of(key.as_str()).len() > 0 {
                    Ok(SessionStateContract::Journaled { key: key.clone() })
                } else {
                    Err(invalid_state(tool, InvalidStateReason::JournalKeyMissing))
                }
            },
            None => Err(invalid_state(tool, InvalidStateReason::JournalKeyMissing)),
        }
    } else if str_eq(kind.as_str(), "checkpointed") {
        match get_member(state, "version") {
            Some(v) => match v.as_u64() {
                Some(version) => Ok(SessionStateContract::Checkpointed { version }),
                None => Err(invalid_state(tool, InvalidStateReason::CheckpointVersionMissing)),
            },
            None => Err(invalid_state(tool, InvalidStateReason::CheckpointVersionMissing)),
        }
    } else if str_eq(kind.as_str(), "generation_pinned") {
        Ok(SessionStateContract::GenerationPinned)
    } else {
        Err(invalid_state(tool, InvalidStateReason::UnknownStateKind))
    }
}

/// The first string member named `name` found in a value: an object's own member wins, then
/// its member values in name order, then array items in order.
pub open spec fn find_named(v: JsonView, name: Seq<char>) -> Option<Seq<char>>
    decreases v, 0int,
{
    match v {
        JsonView::Object(m) => match get_str(m, name) {
            Some(s) => Some(s),
            None => members_named(m, sorted_indices(m), name),
        },
        JsonView::Array(items) => items_named(items, name),
        _ => None,
    }
}

/// The first string member named `name` among array items.
pub open spec fn items_named(items: Seq<JsonView>, name: Seq<char>) -> Option<Seq<char>>
    decreases items, 0int,
{
    if items.len() == 0 {
        None
    } else {
        match find_named(items[0], name) {
            Some(s) => Some(s),
            None => items_named(items.drop_first(), name),
        }
    }
}

/// The first string member named `name` among the member values listed by `order`.
pub open spec fn members_named(m: Seq<(Seq<char>, JsonView)>, order: Seq<int>, name: Seq<char>) -> Option<Seq<char>>
    decreases m, order.len(),
{
    if order.len() == 0 {
        None
    } else {
        let first = if 0 <= order[0] < m.len() {
            proof {
                assert(decreases_to!(m => m[order[0]]));
                assert(decreases_to!(m[order[0]] => m[order[0]].1));
            }
            find_named(m[order[0]].1, name)
        } else {
            None
        };
        match first {
            Some(s) => Some(s),
            None => members_named(m, order.drop_first(), name),
        }
    }
}

/// The recovery named by a legacy `replayContract` annotation found anywhere in `annotations`.
pub open spec fn spec_legacy_recovery(object: Seq<(Seq<char>, JsonView)>) -> Option<EffectRecovery> {
    match member(object, "annotations"@) {
        None => None,
        Some(annotations) => match find_named(annotations, "replayContract"@) {
            Some(c) => if c == "convergent"@ {
                Some(EffectRecovery::ReplaySafe)
            } else if c == "probe_required"@ {
                Some(EffectRecovery::ProbeRequired)
            } else if c == "never_replay"@ {
                Some(EffectRecovery::AtMostOnce)
            } else {
                None
            },
            None => None,
        },
    }
}

/// Whether boolean hint `key` of the annotations object is set.
pub open spec fn annotation_hint(annotations: Option<Seq<(Seq<char>, JsonView)>>, key: Seq<char>) -> bool {
    match annotations {
        Some(a) => match member(a, key) {
            Some(v) => view_as_bool(v) == Some(true),
            None => false,
        },
        None => false,
    }
}

/// The recovery of a tool without a private contract: a legacy annotation when present, else
/// replay-safe for read-only or idempotent tools and at-most-once otherwise.
pub open spec fn spec_default_recovery(object: Seq<(Seq<char>, JsonView)>) -> EffectRecovery {
    match spec_legacy_recovery(object) {
        Some(r) => r,
        None => {
            let annotations = get_object(object, "annotations"@);
            if annotation_hint(annotations, "readOnlyHint"@) || annotation_hint(annotations, "idempotentHint"@) {
                EffectRecovery::ReplaySafe
            } else {
                EffectRecovery::AtMostOnce
            }
        },
    }
}

/// The private effect contract object of a tool, if any.
pub open spec fn private_contract(object: Seq<(Seq<char>, JsonView)>) -> Option<Seq<(Seq<char>, JsonView)>> {
    match get_object(object, "_meta"@) {
        Some(meta) => get_object(meta, meta_key()),
        None => None,
    }
}

/// The tool name used in refusals: the `name` member when it is a string, else empty.
pub open spec fn tool_label(object: Seq<(Seq<char>, JsonView)>) -> Seq<char> {
    match get_str(object, "name"@) {
        Some(n) => n,
        None => Seq::empty(),
    }
}

/// The complete host-visible contract of one tool definition.
pub open spec fn spec_parse_contract(object: Seq<(Seq<char>, JsonView)>) -> Result<ContractView, EffectErrorView> {
    let name = tool_label(object);
    match private_contract(object) {
        None => Ok(
            ContractView {
                recovery: spec_default_recovery(object),
                state: StateView::Stateless,
                deduplication_key_pointer: None,
            },
        ),
        Some(c) => match get_object(c, "recovery"@) {
            None => Err(EffectErrorView::UnknownRecovery { tool: name, kind: "<missing>"@ }),
            Some(ro) => match get_str(ro, "kind"@) {
                None => Err(EffectErrorView::UnknownRecovery { tool: name, kind: "<missing>"@ }),
                Some(kind) => match recovery_named(kind) {
                    None => Err(EffectErrorView::UnknownRecovery { tool: name, kind }),
                    Some(recovery) => match spec_parse_state(name, member(c, "state"@)) {
                        Err(e) => Err(e),
                        Ok(state) => if state is Journaled && !(recovery is ReplaySafe || recovery is Deduplicated) {
                            Err(EffectErrorView::InvalidState { tool: name, reason: InvalidStateReason::JournaledNotReplaySafe })
                        } else if recovery is Deduplicated {
                            match get_str(ro, "key"@) {
                                Some(p) => if p.len() > 1 && p[0] == '/' {
                                    Ok(ContractView { recovery, state, deduplication_key_pointer: Some(p) })
                                } else {
                                    Err(
                                        EffectErrorView::InvalidState { tool: name, reason: InvalidStateReason::DeduplicationKeyMissing },
                                    )
                                },
                                None => Err(
                                    EffectErrorView::InvalidState { tool: name, reason: InvalidStateReason::DeduplicationKeyMissing },
                                ),
                            }
                        } else {
                            Ok(ContractView { recovery, state, deduplication_key_pointer: None })
                        },
                    },
                },
            },
        },
    }
}

/// Finds the first string member named `name` in a value.
pub fn find_named_text<'a>(value: &'a JsonValue, name: &str) -> (r: Option<&'a String>)
    ensures
        match r {
            Some(s) => find_named(value@, name@) == Some(s@),
            None => find_named(value@, name@) is None,
        },
    decreases value,
{
    match value {
        JsonValue::Object(m) => {
            match member_str(m, name) {
                Some(s) => {
                    return Some(s);
                },
                None => {},
            }
            proof {
                lemma_members_view(m@);
            }
            let order = sorted_member_indices(m);
            let ghost oi = order@.map_values(|x: usize| x as int);
            let mut k: usize = 0;
            assert(oi.skip(0) =~= oi);
            while k < order.len()
                invariant
                    *value == JsonValue::Object(*m),
                    k <= order.len(),
                    oi == order@.map_values(|x: usize| x as int),
                    oi == sorted_indices(members_view(m@)),
                    get_str(members_view(m@), name@) is None,
                    forall|j: int| 0 <= j < order@.len() ==> #[trigger] order@[j] < m@.len(),
                    members_view(m@).len() == m@.len(),
                    forall|j: int| 0 <= j < m@.len() ==> #[trigger] members_view(m@)[j] == (m@[j].0@, m@[j].1@),
                    members_named(members_view(m@), oi, name@) == members_named(members_view(m@), oi.skip(k as int), name@),
                decreases order.len() - k,
            {
                let i = order[k];
                proof {
                    assert(decreases_to!(*value => (*value)->Object_0));
                    assert(decreases_to!(*m => m@));
                    assert(decreases_to!(m@ => m@[i as int]));
                    assert(decreases_to!(m@[i as int] => m@[i as int].1));
                    let rest = oi.skip(k as int);
                    assert(rest[0] == i as int);
                    assert(rest.drop_first() =~= oi.skip(k + 1));
                    assert(members_view(m@)[i as int].1 == m@[i as int].1@);
                }
                match find_named_text(&m[i].1, name) {
                    Some(s) => {
                        proof {
                            let rest = oi.skip(k as int);
                            assert(0 <= rest[0] < members_view(m@).len());
                            assert(members_named(members_view(m@), rest, name@) == Some(s@));
                            assert(value@ == JsonView::Object(members_view(m@)));
                        }
                        return Some(s);
                    },
                    None => {},
                }
                k += 1;
            }
            None
        },
        JsonValue::Array(items) => {
            proof {
                lemma_items_view(items@);
            }
            let ghost iv = crate::json::items_view(items@);
            let mut k: usize = 0;
            assert(iv.skip(0) =~= iv);
            while k < items.len()
                invariant
                    *value == JsonValue::Array(*items),
                    k <= items.len(),
                    iv == crate::json::items_view(items@),
                    iv.len() == items@.len(),
                    forall|j: int| 0 <= j < items@.len() ==> #[trigger] iv[j] == items@[j]@,
                    items_named(iv, name@) == items_named(iv.skip(k as int), name@),
                decreases items.len() - k,
            {
                proof {
                    assert(decreases_to!(*value => (*value)->Array_0));
                    assert(decreases_to!(*items => items@));
                    assert(decreases_to!(items@ => items@[k as int]));
                    let rest = iv.skip(k as int);
                    assert(rest[0] == iv[k as int]);
                    assert(rest.drop_first() =~= iv.skip(k + 1));
                }
                match find_named_text(&items[k], name) {
                    Some(s) => {
                        proof {
                            let rest = iv.skip(k as int);
                            assert(items_named(rest, name@) == Some(s@));
                            assert(value@ == JsonView::Array(iv));
                        }
                        return Some(s);
                    },
                    None => {},
                }
                k += 1;
            }
            None
        },
        _ => None,
    }
}

fn unknown_recovery(tool: &str, kind: &str) -> (r: EffectContractError)
    ensures
        r@ == (EffectErrorView::UnknownRecovery { tool: tool@, kind: kind@ }),
{
    EffectContractError::UnknownRecovery { tool: owned(tool), kind: owned(kind) }
}

/// The recovery named by a legacy annotation.
fn legacy_recovery(object: &Vec<(String, JsonValue)>) -> (r: Option<EffectRecovery>)
    ensures
        r == spec_legacy_recovery(members_view(object@)),
{
    let annotations = match get_member(object, "annotations") {
        Some(a) => a,
        None => {
            return None;
        },
    };
    match find_named_text(annotations, "replayContract") {
        Some(c) => {
            if str_eq(c.as_str(), "convergent") {
                Some(EffectRecovery::ReplaySafe)
            } else if str_eq(c.as_str(), "probe_required") {
                Some(EffectRecovery::ProbeRequired)
            } else if str_eq(c.as_str(), "never_replay") {
                Some(EffectRecovery::AtMostOnce)
            } else {
                None
            }
        },
        None => None,
    }
}

/// Whether boolean hint `key` of an annotations object is set.
fn hint_set(annotations: Option<&Vec<(String, JsonValue)>>, key: &str) -> (r: bool)
    ensures
        r == annotation_hint(match annotations { Some(a) => Some(members_view(a@)), None => None }, key@),
{
    match annotations {
        Some(a) => match get_member(a, key) {
            Some(v) => v.as_bool() == Some(true),
            None => false,
        },
        None => false,
    }
}

/// Derives the complete host-visible contract of one tool definition.
pub fn parse_contract(object: &Vec<(String, JsonValue)>) -> (r: Result<ToolEffectContract, EffectContractError>)
    ensures
        match r {
            Ok(c) => spec_parse_contract(members_view(object@)) == Ok::<ContractView, EffectErrorView>(c@),
            Err(e) => spec_parse_contract(members_view(object@)) == Err::<ContractView, EffectErrorView>(e@),
        },
{
    let name: &str = match member_str(object, "name") {
        Some(n) => n.as_str(),
        None => "",
    };
    proof {
        reveal_strlit("");
        reveal_strlit("<missing>");
    }
    let contract = match member_object(object, "_meta") {
        Some(meta) => member_object(meta, "io.libmcp/effect"),
        None => None,
    };
    let c = match contract {
        Some(c) => c,
        None => {
            let recovery = match legacy_recovery(object) {
                Some(r) => r,
                None => {
                    let annotations = member_object(object, "annotations");
                    if hint_set(annotations, "readOnlyHint") || hint_set(annotations, "idempotentHint") {
                        EffectRecovery::ReplaySafe
                    } else {
                        EffectRecovery::AtMostOnce
                    }
                },
            };
            return Ok(ToolEffectContract::new(recovery, SessionStateContract::Stateless));
        },
    };
    assert(private_contract(members_view(object@)) == Some(members_view(c@)));
    assert(tool_label(members_view(object@)) == name@);
    let recovery_object = match member_object(c, "recovery") {
        Some(ro) => ro,
        None => {
            assert(get_object(members_view(c@), "recovery"@) is None);
            return Err(unknown_recovery(name, "<missing>"));
        },
    };
    let kind = match member_str(recovery_object, "kind") {
        Some(k) => k,
        None => {
            return Err(unknown_recovery(name, "<missing>"));
        },
    };
    let recovery = if str_eq(kind.as_str(), "replay_safe") {
        EffectRecovery::ReplaySafe
    } else if str_eq(kind.as_str(), "deduplicated") {
        EffectRecovery::Deduplicated
    } else if str_eq(kind.as_str(), "probe_required") {
        EffectRecovery::ProbeRequired
    } else if str_eq(kind.as_str(), "at_most_once") {
        EffectRecovery::AtMostOnce
    } else {
        return Err(unknown_recovery(name, kind.as_str()));
    };
    let state = match parse_state(name, get_member(c, "state")) {
        Ok(s) => s,
        Err(e) => {
            return Err(e);
        },
    };
    let journaled = matches!(state, SessionStateContract::Journaled { .. });
    let replay_safe = matches!(recovery, EffectRecovery::ReplaySafe | EffectRecovery::Deduplicated);
    if journaled && !replay_safe {
        return Err(invalid_state(name, InvalidStateReason::JournaledNotReplaySafe));
    }
    let deduplication_key_pointer = if recovery == EffectRecovery::Deduplicated {
        match member_str(recovery_object, "key") {
            Some(p) => {
                let pc = chars_of(p.as_str());
                if pc.len() > 1 && pc[0] == '/' {
                    Some(p.clone())
                } else {
                    return Err(invalid_state(name, InvalidStateReason::DeduplicationKeyMissing));
                }
            },
            None => {
                return Err(invalid_state(name, InvalidStateReason::DeduplicationKeyMissing));
            },
        }
    } else {
        None
    };
    Ok(ToolEffectContract { recovery, state, deduplication_key_pointer })
}

/// An object's members without the first member named `key`.
pub open spec fn remove_member(m: Seq<(Seq<char>, JsonView)>, key: Seq<char>) -> Seq<(Seq<char>, JsonView)>
    decreases m.len(),
{
    if m.len() == 0 {
        m
    } else if m[0].0 == key {
        m.drop_first()
    } else {
        seq![m[0]] + remove_member(m.drop_first(), key)
    }
}

/// Removing the first member named `key` removes it at its first position.
proof fn lemma_remove_member_at(m: Seq<(Seq<char>, JsonView)>, key: Seq<char>, i: int)
    requires
        0 <= i <= m.len(),
        forall|k: int| 0 <= k < i ==> (#[trigger] m[k]).0 != key,
        i < m.len() ==> m[i].0 == key,
    ensures
        i < m.len() ==> remove_member(m, key) == m.remove(i),
        i == m.len() ==> remove_member(m, key) == m,
    decreases m.len(),
{
    if m.len() == 0 {
    } else if i == 0 {
        assert(m.drop_first() =~= m.remove(0));
    } else {
        assert forall|k: int| 0 <= k < i - 1 implies (#[trigger] m.drop_first()[k]).0 != key by {
            assert(m.drop_first()[k] == m[k + 1]);
        }
        assert(m[0].0 != key);
        lemma_remove_member_at(m.drop_first(), key, i - 1);
        if i < m.len() {
            assert(seq![m[0]] + m.drop_first().remove(i - 1) =~= m.remove(i));
        } else {
            assert(seq![m[0]] + m.drop_first() =~= m);
        }
    }
}

/// A tool definition with the reserved private contract removed from its `_meta`, and `_meta`
/// itself removed when nothing else remains in it.
pub open spec fn spec_strip(tool: JsonView) -> JsonView {
    match tool {
        JsonView::Object(m) => match member(m, "_meta"@) {
            Some(JsonView::Object(meta)) => {
                let rest = remove_member(meta, meta_key());
                if rest.len() == 0 {
                    JsonView::Object(remove_member(m, "_meta"@))
                } else {
                    JsonView::Object(crate::render::set_member(m, "_meta"@, JsonView::Object(rest)))
                }
            },
            _ => tool,
        },
        _ => tool,
    }
}

/// Copies the members of an object except the one at position `skip`.
fn members_without(m: &Vec<(String, JsonValue)>, skip: usize) -> (r: Vec<(String, JsonValue)>)
    requires
        skip < m@.len(),
    ensures
        members_view(r@) == members_view(m@).remove(skip as int),
{
    proof {
        lemma_members_view(m@);
    }
    let mut out: Vec<(String, JsonValue)> = Vec::new();
    let mut i: usize = 0;
    while i < m.len()
        invariant
            i <= m.len(),
            skip < m@.len(),
            members_view(m@).len() == m@.len(),
            forall|j: int| 0 <= j < m@.len() ==> #[trigger] members_view(m@)[j] == (m@[j].0@, m@[j].1@),
            members_view(out@) == (if i <= skip {
                members_view(m@).take(i as int)
            } else {
                members_view(m@).take(i as int).remove(skip as int)
            }),
        decreases m.len() - i,
    {
        if i != skip {
            let entry = (m[i].0.clone(), m[i].1.duplicate());
            let ghost before = out@;
            out.push(entry);
            proof {
                assert(out@.drop_last() =~= before);
            }
        }
        proof {
            lemma_members_view(out@);
            if i < skip {
                assert(members_view(m@).take(i + 1) =~= members_view(m@).take(i as int).push(members_view(m@)[i as int]));
            } else if i == skip {
                assert(members_view(m@).take(i + 1).remove(skip as int) =~= members_view(m@).take(i as int));
            } else {
                assert(members_view(m@).take(i + 1).remove(skip as int) =~= members_view(m@).take(i as int).remove(
                    skip as int,
                ).push(members_view(m@)[i as int]));
            }
        }
        i += 1;
    }
    assert(members_view(m@).take(i as int) =~= members_view(m@));
    out
}

/// A tool definition without its reserved private contract.
pub fn stripped(tool: &JsonValue) -> (r: JsonValue)
    ensures
        r@ == spec_strip(tool@),
{
    let m = match tool {
        JsonValue::Object(m) => m,
        _ => {
            return tool.duplicate();
        },
    };
    proof {
        lemma_members_view(m@);
    }
    let position = match crate::render::member_position(m, "_meta") {
        Some(i) => i,
        None => {
            proof {
                crate::json::lemma_member_at(members_view(m@), "_meta"@, m@.len() as int);
            }
            return tool.duplicate();
        },
    };
    proof {
        crate::json::lemma_member_at(members_view(m@), "_meta"@, position as int);
    }
    let meta = match &m[position].1 {
        JsonValue::Object(meta) => meta,
        _ => {
            return tool.duplicate();
        },
    };
    proof {
        lemma_members_view(meta@);
    }
    let rest = match crate::render::member_position(meta, "io.libmcp/effect") {
        Some(j) => {
            proof {
                lemma_remove_member_at(members_view(meta@), meta_key(), j as int);
            }
            members_without(meta, j)
        },
        None => {
            proof {
                lemma_remove_member_at(members_view(meta@), meta_key(), meta@.len() as int);
            }
            match m[position].1.duplicate() {
                JsonValue::Object(copy) => copy,
                _ => Vec::new(),
            }
        },
    };
    proof {
        lemma_members_view(rest@);
    }
    if rest.len() == 0 {
        proof {
            lemma_remove_member_at(members_view(m@), "_meta"@, position as int);
        }
        JsonValue::Object(members_without(m, position))
    } else {
        let mut copy = match tool.duplicate() {
            JsonValue::Object(copy) => copy,
            _ => Vec::new(),
        };
        crate::render::set_member_exec(&mut copy, "_meta", JsonValue::Object(rest));
        JsonValue::Object(copy)
    }
}

/// Public tool catalog plus host-private contracts removed from its projection.
#[derive(Debug, Clone, PartialEq, Eq)]
pub struct ToolCatalog {
    public_tools: Vec<JsonValue>,
    contracts: Vec<(ToolName, ToolEffectContract)>,
}

/// A catalog as mathematical values: the public projection in catalog order and the contract
/// of each tool by name, in catalog order.
pub struct CatalogView {
    pub public_tools: Seq<JsonView>,
    pub contracts: Seq<(Seq<char>, ContractView)>,
}

/// The names and views of catalog contracts.
pub open spec fn contracts_view(c: Seq<(ToolName, ToolEffectContract)>) -> Seq<(Seq<char>, ContractView)> {
    c.map_values(|e: (ToolName, ToolEffectContract)| (e.0@, e.1@))
}

impl View for ToolCatalog {
    type V = CatalogView;

    closed spec fn view(&self) -> CatalogView {
        CatalogView {
            public_tools: crate::json::items_view(self.public_tools@),
            contracts: contracts_view(self.contracts@),
        }
    }
}

/// Whether a catalog already names a tool.
pub open spec fn names_tool(contracts: Seq<(Seq<char>, ContractView)>, name: Seq<char>) -> bool {
    exists|i: int| 0 <= i < contracts.len() && #[trigger] contracts[i].0 == name
}

/// The catalog after adding one raw tool definition.
pub open spec fn catalog_step(acc: CatalogView, raw: JsonView) -> Result<CatalogView, EffectErrorView> {
    match raw {
        JsonView::Object(object) => match get_str(object, "name"@) {
            None => Err(EffectErrorView::MissingToolName),
            Some(name) => if crate::text::all_whitespace(name) {
                Err(EffectErrorView::InvalidToolName)
            } else if names_tool(acc.contracts, name) {
                Err(EffectErrorView::DuplicateTool(name))
            } else {
                match spec_parse_contract(object) {
                    Err(e) => Err(e),
                    Ok(c) => Ok(
                        CatalogView {
                            public_tools: acc.public_tools.push(spec_strip(raw)),
                            contracts: acc.contracts.push((name, c)),
                        },
                    ),
                }
            },
        },
        _ => Err(EffectErrorView::ToolNotObject),
    }
}

/// The catalog refined from a sequence of tool definitions, or the first refusal.
pub open spec fn catalog_of(tools: Seq<JsonView>) -> Result<CatalogView, EffectErrorView>
    decreases tools.len(),
{
    if tools.len() == 0 {
        Ok(CatalogView { public_tools: Seq::empty(), contracts: Seq::empty() })
    } else {
        match catalog_of(tools.drop_last()) {
            Err(e) => Err(e),
            Ok(acc) => catalog_step(acc, tools.last()),
        }
    }
}

/// The catalog refined from a `tools/list` result.
pub open spec fn spec_parse_catalog(result: JsonView) -> Result<CatalogView, EffectErrorView> {
    let tools = match view_as_object(result) {
        Some(m) => match member(m, "tools"@) {
            Some(JsonView::Array(items)) => Some(items),
            _ => None,
        },
        None => None,
    };
    match tools {
        None => Err(EffectErrorView::MissingTools),
        Some(items) => catalog_of(items),
    }
}

/// The contract listed under `name`, the first such entry.
pub open spec fn contract_named(contracts: Seq<(Seq<char>, ContractView)>, name: Seq<char>) -> Option<ContractView>
    decreases contracts.len(),
{
    if contracts.len() == 0 {
        None
    } else if contracts[0].0 == name {
        Some(contracts[0].1)
    } else {
        contract_named(contracts.drop_first(), name)
    }
}

/// Once a prefix of the tool list is refused, the whole list is refused the same way.
proof fn lemma_catalog_refusal_persists(tools: Seq<JsonView>, n: int)
    requires
        0 <= n <= tools.len(),
        catalog_of(tools.take(n)) is Err,
    ensures
        catalog_of(tools) == catalog_of(tools.take(n)),
    decreases tools.len() - n,
{
    if n == tools.len() {
        assert(tools.take(n) =~= tools);
    } else {
        let next = tools.take(n + 1);
        assert(next.drop_last() =~= tools.take(n));
        lemma_catalog_refusal_persists(tools, n + 1);
    }
}

/// Whether a contract list already holds `name`.
fn has_contract(contracts: &Vec<(ToolName, ToolEffectContract)>, name: &ToolName) -> (r: bool)
    ensures
        r == names_tool(contracts_view(contracts@), name@),
{
    let mut k: usize = 0;
    while k < contracts.len()
        invariant
            k <= contracts.len(),
            forall|j: int| 0 <= j < k ==> (#[trigger] contracts_view(contracts@)[j]).0 != name@,
        decreases contracts.len() - k,
    {
        if contracts[k].0.same_as(name) {
            assert(contracts_view(contracts@)[k as int].0 == name@);
            return true;
        }
        k += 1;
    }
    false
}

impl ToolCatalog {
    /// Refines a `tools/list` result and removes the reserved private metadata.
    pub fn parse(result: &JsonValue) -> (r: Result<Self, EffectContractError>)
        ensures
            match r {
                Ok(c) => spec_parse_catalog(result@) == Ok::<CatalogView, EffectErrorView>(c@),
                Err(e) => spec_parse_catalog(result@) == Err::<CatalogView, EffectErrorView>(e@),
            },
    {
        let tools = match result.as_object() {
            Some(m) => match get_member(m, "tools") {
                Some(v) => match v.as_array() {
                    Some(a) => a,
                    None => {
                        return Err(EffectContractError::MissingTools);
                    },
                },
                None => {
                    return Err(EffectContractError::MissingTools);
                },
            },
            None => {
                return Err(EffectContractError::MissingTools);
            },
        };
        proof {
            lemma_items_view(tools@);
        }
        let ghost items = crate::json::items_view(tools@);
        let mut public_tools: Vec<JsonValue> = Vec::new();
        let mut contracts: Vec<(ToolName, ToolEffectContract)> = Vec::new();
        let mut i: usize = 0;
        proof {
            assert(items.take(0) =~= Seq::<JsonView>::empty());
            assert(contracts_view(contracts@) =~= Seq::<(Seq<char>, ContractView)>::empty());
        }
        while i < tools.len()
            invariant
                i <= tools.len(),
                items == crate::json::items_view(tools@),
                items.len() == tools@.len(),
                forall|j: int| 0 <= j < tools@.len() ==> #[trigger] items[j] == tools@[j]@,
                spec_parse_catalog(result@) == catalog_of(items),
                catalog_of(items.take(i as int)) == Ok::<CatalogView, EffectErrorView>(
                    CatalogView {
                        public_tools: crate::json::items_view(public_tools@),
                        contracts: contracts_view(contracts@),
                    },
                ),
            decreases tools.len() - i,
        {
            let raw = &tools[i];
            let ghost acc = CatalogView {
                public_tools: crate::json::items_view(public_tools@),
                contracts: contracts_view(contracts@),
            };
            proof {
                assert(items.take(i + 1).drop_last() =~= items.take(i as int));
                assert(items.take(i + 1).last() == raw@);
                assert(catalog_of(items.take(i + 1)) == catalog_step(acc, raw@));
            }
            let object = match raw.as_object() {
                Some(o) => o,
                None => {
                    proof {
                        lemma_catalog_refusal_persists(items, i + 1);
                    }
                    return Err(EffectContractError::ToolNotObject);
                },
            };
            let name_text = match member_str(object, "name") {
                Some(n) => n,
                None => {
                    proof {
                        lemma_catalog_refusal_persists(items, i + 1);
                    }
                    return Err(EffectContractError::MissingToolName);
                },
            };
            let name = match ToolName::try_new(name_text.as_str()) {
                Ok(n) => n,
                Err(_) => {
                    proof {
                        lemma_catalog_refusal_persists(items, i + 1);
                    }
                    return Err(EffectContractError::InvalidToolName);
                },
            };
            if has_contract(&contracts, &name) {
                proof {
                    lemma_catalog_refusal_persists(items, i + 1);
                }
                return Err(EffectContractError::DuplicateTool(name_text.clone()));
            }
            let contract = match parse_contract(object) {
                Ok(c) => c,
                Err(e) => {
                    proof {
                        lemma_catalog_refusal_persists(items, i + 1);
                    }
                    return Err(e);
                },
            };
            let public = stripped(raw);
            let ghost before_public = public_tools@;
            let ghost before_contracts = contracts@;
            public_tools.push(public);
            contracts.push((name, contract));
            proof {
                assert(public_tools@.drop_last() =~= before_public);
                assert(contracts_view(contracts@) =~= contracts_view(before_contracts).push(
                    (name_text@, contracts@.last().1@),
                ));
            }
            i += 1;
        }
        proof {
            assert(items.take(i as int) =~= items);
        }
        Ok(Self { public_tools, contracts })
    }

    /// Returns the public catalog projection.
    pub fn public_tools(&self) -> (r: &[JsonValue])
        ensures
            crate::json::items_view(r@) == self@.public_tools,
    {
        self.public_tools.as_slice()
    }

    /// Returns the contract for one named tool.
    pub fn contract(&self, name: &ToolName) -> (r: Option<&ToolEffectContract>)
        ensures
            match r {
                Some(c) => contract_named(self@.contracts, name@) == Some(c@),
                None => contract_named(self@.contracts, name@) is None,
            },
    {
        let mut k: usize = 0;
        let ghost cv = contracts_view(self.contracts@);
        assert(cv.skip(0) =~= cv);
        while k < self.contracts.len()
            invariant
                k <= self.contracts.len(),
                cv == contracts_view(self.contracts@),
                cv == self@.contracts,
                contract_named(cv, name@) == contract_named(cv.skip(k as int), name@),
            decreases self.contracts.len() - k,
        {
            proof {
                let rest = cv.skip(k as int);
                assert(rest[0] == (self.contracts@[k as int].0@, self.contracts@[k as int].1@));
                assert(rest.drop_first() =~= cv.skip(k + 1));
            }
            if self.contracts[k].0.same_as(name) {
                return Some(&self.contracts[k].1);
            }
            k += 1;
        }
        None
    }

    /// A copy of the same catalog.
    pub fn duplicate(&self) -> (r: Self)
        ensures
            r@ == self@,
    {
        let mut public_tools: Vec<JsonValue> = Vec::new();
        let mut i: usize = 0;
        while i < self.public_tools.len()
            invariant
                i <= self.public_tools.len(),
                crate::json::items_view(public_tools@) == crate::json::items_view(self.public_tools@.take(i as int)),
            decreases self.public_tools.len() - i,
        {
            let ghost before = public_tools@;
            public_tools.push(self.public_tools[i].duplicate());
            proof {
                assert(public_tools@.drop_last() =~= before);
                assert(self.public_tools@.take(i + 1).drop_last() =~= self.public_tools@.take(i as int));
            }
            i += 1;
        }
        let mut contracts: Vec<(ToolName, ToolEffectContract)> = Vec::new();
        let mut k: usize = 0;
        while k < self.contracts.len()
            invariant
                k <= self.contracts.len(),
                contracts@.len() == k,
                contracts_view(contracts@) == contracts_view(self.contracts@.take(k as int)),
            decreases self.contracts.len() - k,
        {
            let ghost before = contracts@;
            contracts.push((self.contracts[k].0.duplicate(), self.contracts[k].1.duplicate()));
            proof {
                let now = contracts_view(contracts@);
                let want = contracts_view(self.contracts@.take(k + 1));
                assert forall|j: int| 0 <= j < k + 1 implies now[j] == want[j] by {
                    if j < k {
                        assert(contracts@[j] == before[j]);
                        assert(contracts_view(before)[j] == contracts_view(self.contracts@.take(k as int))[j]);
                        assert(self.contracts@.take(k as int)[j] == self.contracts@.take(k + 1)[j]);
                    }
                }
                assert(now =~= want);
            }
            k += 1;
        }
        proof {
            assert(self.public_tools@.take(i as int) =~= self.public_tools@);
            assert(self.contracts@.take(k as int) =~= self.contracts@);
        }
        Self { public_tools, contracts }
    }
}

/// Whether two documents are the same JSON value: objects hold the same members regardless of
/// order, arrays the same items in order, and scalars are identical. For documents without
/// repeated member names this is exactly when their canonical serializations coincide.
pub open spec fn same_json(a: JsonView, b: JsonView) -> bool
    decreases a, 0int,
{
    match (a, b) {
        (JsonView::Object(ma), JsonView::Object(mb)) => ma.len() == mb.len() && members_within(ma, mb),
        (JsonView::Array(xa), JsonView::Array(xb)) => items_same(xa, xb),
        _ => a == b,
    }
}

/// Whether every member of `ma` has a same-valued member of the same name in `mb`.
pub open spec fn members_within(ma: Seq<(Seq<char>, JsonView)>, mb: Seq<(Seq<char>, JsonView)>) -> bool
    decreases ma, 0int,
{
    if ma.len() == 0 {
        true
    } else {
        match member(mb, ma.last().0) {
            Some(v) => same_json(ma.last().1, v) && members_within(ma.drop_last(), mb),
            None => false,
        }
    }
}

/// Whether two item lists are pairwise the same JSON values.
pub open spec fn items_same(xa: Seq<JsonView>, xb: Seq<JsonView>) -> bool
    decreases xa, 0int,
{
    if xa.len() != xb.len() {
        false
    } else if xa.len() == 0 {
        true
    } else {
        same_json(xa.last(), xb.last()) && items_same(xa.drop_last(), xb.drop_last())
    }
}

/// Compares two documents as JSON values.
pub fn same_json_value(a: &JsonValue, b: &JsonValue) -> (r: bool)
    ensures
        r == same_json(a@, b@),
    decreases a,
{
    match (a, b) {
        (JsonValue::Object(ma), JsonValue::Object(mb)) => {
            proof {
                lemma_members_view(ma@);
                lemma_members_view(mb@);
            }
            if ma.len() != mb.len() {
                return false;
            }
            let mut i: usize = 0;
            while i < ma.len()
                invariant
                    *a == JsonValue::Object(*ma),
                    *b == JsonValue::Object(*mb),
                    i <= ma.len(),
                    members_view(ma@).len() == ma@.len(),
                    forall|j: int| 0 <= j < ma@.len() ==> #[trigger] members_view(ma@)[j] == (ma@[j].0@, ma@[j].1@),
                    members_within(members_view(ma@).take(i as int), members_view(mb@)),
                decreases ma.len() - i,
            {
                proof {
                    assert(decreases_to!(*a => (*a)->Object_0));
                    assert(decreases_to!(*ma => ma@));
                    assert(decreases_to!(ma@ => ma@[i as int]));
                    assert(decreases_to!(ma@[i as int] => ma@[i as int].1));
                    let t = members_view(ma@).take(i + 1);
                    assert(t.drop_last() =~= members_view(ma@).take(i as int));
                    assert(t.last() == members_view(ma@)[i as int]);
                }
                match get_member(mb, ma[i].0.as_str()) {
                    Some(v) => {
                        if !same_json_value(&ma[i].1, v) {
                            proof {
                                assert(!members_within(members_view(ma@).take(i + 1), members_view(mb@)));
                                lemma_members_within_prefix(members_view(ma@), members_view(mb@), i + 1);
                                assert(a@ == JsonView::Object(members_view(ma@)));
                                assert(b@ == JsonView::Object(members_view(mb@)));
                            }
                            return false;
                        }
                    },
                    None => {
                        proof {
                            assert(!members_within(members_view(ma@).take(i + 1), members_view(mb@)));
                            lemma_members_within_prefix(members_view(ma@), members_view(mb@), i + 1);
                            assert(a@ == JsonView::Object(members_view(ma@)));
                            assert(b@ == JsonView::Object(members_view(mb@)));
                        }
                        return false;
                    },
                }
                i += 1;
            }
            proof {
                assert(members_view(ma@).take(i as int) =~= members_view(ma@));
            }
            true
        },
        (JsonValue::Array(xa), JsonValue::Array(xb)) => {
            proof {
                lemma_items_view(xa@);
                lemma_items_view(xb@);
            }
            if xa.len() != xb.len() {
                return false;
            }
            let mut i: usize = 0;
            while i < xa.len()
                invariant
                    *a == JsonValue::Array(*xa),
                    *b == JsonValue::Array(*xb),
                    i <= xa.len() == xb.len(),
                    crate::json::items_view(xa@).len() == xa@.len(),
                    crate::json::items_view(xb@).len() == xb@.len(),
                    forall|j: int| 0 <= j < xa@.len() ==> #[trigger] crate::json::items_view(xa@)[j] == xa@[j]@,
                    forall|j: int| 0 <= j < xb@.len() ==> #[trigger] crate::json::items_view(xb@)[j] == xb@[j]@,
                    items_same(crate::json::items_view(xa@).take(i as int), crate::json::items_view(xb@).take(i as int)),
                decreases xa.len() - i,
            {
                proof {
                    assert(decreases_to!(*a => (*a)->Array_0));
                    assert(decreases_to!(*xa => xa@));
                    assert(decreases_to!(xa@ => xa@[i as int]));
                    let ta = crate::json::items_view(xa@).take(i + 1);
                    let tb = crate::json::items_view(xb@).take(i + 1);
                    assert(ta.drop_last() =~= crate::json::items_view(xa@).take(i as int));
                    assert(tb.drop_last() =~= crate::json::items_view(xb@).take(i as int));
                }
                if !same_json_value(&xa[i], &xb[i]) {
                    proof {
                        let ta = crate::json::items_view(xa@).take(i + 1);
                        let tb = crate::json::items_view(xb@).take(i + 1);
                        assert(ta.last() == xa@[i as int]@);
                        assert(tb.last() == xb@[i as int]@);
                        assert(!items_same(ta, tb));
                        lemma_items_same_prefix(crate::json::items_view(xa@), crate::json::items_view(xb@), i + 1);
                        assert(a@ == JsonView::Array(crate::json::items_view(xa@)));
                        assert(b@ == JsonView::Array(crate::json::items_view(xb@)));
                    }
                    return false;
                }
                i += 1;
            }
            proof {
                assert(crate::json::items_view(xa@).take(i as int) =~= crate::json::items_view(xa@));
                assert(crate::json::items_view(xb@).take(i as int) =~= crate::json::items_view(xb@));
            }
            true
        },
        (JsonValue::Null, JsonValue::Null) => true,
        (JsonValue::Bool(x), JsonValue::Bool(y)) => *x == *y,
        (JsonValue::Number(x), JsonValue::Number(y)) => x.same_as(y),
        (JsonValue::String(x), JsonValue::String(y)) => str_eq(x.as_str(), y.as_str()),
        _ => false,
    }
}

/// A failing member check fails for every longer prefix.
proof fn lemma_members_within_prefix(ma: Seq<(Seq<char>, JsonView)>, mb: Seq<(Seq<char>, JsonView)>, n: int)
    requires
        0 < n <= ma.len(),
        !members_within(ma.take(n), mb),
    ensures
        !members_within(ma, mb),
    decreases ma.len() - n,
{
    if n == ma.len() {
        assert(ma.take(n) =~= ma);
    } else {
        let t = ma.take(n + 1);
        assert(t.drop_last() =~= ma.take(n));
        lemma_members_within_prefix(ma, mb, n + 1);
    }
}

/// A failing item check fails for every longer prefix.
proof fn lemma_items_same_prefix(xa: Seq<JsonView>, xb: Seq<JsonView>, n: int)
    requires
        0 < n <= xa.len(),
        xa.len() == xb.len(),
        !items_same(xa.take(n), xb.take(n)),
    ensures
        !items_same(xa, xb),
    decreases xa.len() - n,
{
    if n == xa.len() {
        assert(xa.take(n) =~= xa);
        assert(xb.take(n) =~= xb);
    } else {
        assert(xa.take(n + 1).drop_last() =~= xa.take(n));
        assert(xb.take(n + 1).drop_last() =~= xb.take(n));
        lemma_items_same_prefix(xa, xb, n + 1);
    }
}

impl ToolCatalog {
    /// Whether two catalogs publish the same tools: the same public definitions in the same order,
    /// compared as JSON values.
    pub fn same_public_tools(&self, other: &Self) -> (r: bool)
        ensures
            r == items_same(self@.public_tools, other@.public_tools),
    {
        let xa = &self.public_tools;
        let xb = &other.public_tools;
        proof {
            lemma_items_view(xa@);
            lemma_items_view(xb@);
        }
        if xa.len() != xb.len() {
            return false;
        }
        let mut i: usize = 0;
        while i < xa.len()
            invariant
                i <= xa.len() == xb.len(),
                *xa == self.public_tools,
                *xb == other.public_tools,
                crate::json::items_view(xa@).len() == xa@.len(),
                crate::json::items_view(xb@).len() == xb@.len(),
                forall|j: int| 0 <= j < xa@.len() ==> #[trigger] crate::json::items_view(xa@)[j] == xa@[j]@,
                forall|j: int| 0 <= j < xb@.len() ==> #[trigger] crate::json::items_view(xb@)[j] == xb@[j]@,
                items_same(crate::json::items_view(xa@).take(i as int), crate::json::items_view(xb@).take(i as int)),
            decreases xa.len() - i,
        {
            proof {
                let ta = crate::json::items_view(xa@).take(i + 1);
                let tb = crate::json::items_view(xb@).take(i + 1);
                assert(ta.drop_last() =~= crate::json::items_view(xa@).take(i as int));
                assert(tb.drop_last() =~= crate::json::items_view(xb@).take(i as int));
                assert(ta.last() == xa@[i as int]@);
                assert(tb.last() == xb@[i as int]@);
            }
            if !same_json_value(&xa[i], &xb[i]) {
                proof {
                    assert(!items_same(crate::json::items_view(xa@).take(i + 1), crate::json::items_view(xb@).take(i + 1)));
                    lemma_items_same_prefix(crate::json::items_view(xa@), crate::json::items_view(xb@), i + 1);
                    assert(self@.public_tools == crate::json::items_view(xa@));
                    assert(other@.public_tools == crate::json::items_view(xb@));
                }
                return false;
            }
            i += 1;
        }
        proof {
            assert(crate::json::items_view(xa@).take(i as int) =~= crate::json::items_view(xa@));
            assert(crate::json::items_view(xb@).take(i as int) =~= crate::json::items_view(xb@));
        }
        true
    }
}

/// Journaled session state is only ever paired with a replay-safe recovery authority.
pub proof fn lemma_journaled_contracts_are_replay_safe(object: Seq<(Seq<char>, JsonView)>)
    requires
        spec_parse_contract(object) matches Ok(c) && c.state is Journaled,
    ensures
        spec_parse_contract(object) matches Ok(c) && (c.recovery is ReplaySafe || c.recovery is Deduplicated),
{
}

/// Deduplicated recovery always names a non-root JSON Pointer for its operation key, and no
/// other recovery names one.
pub proof fn lemma_deduplication_names_a_pointer(object: Seq<(Seq<char>, JsonView)>)
    requires
        spec_parse_contract(object) is Ok,
    ensures
        spec_parse_contract(object) matches Ok(c) && (c.recovery is Deduplicated <==> c.deduplication_key_pointer
            is Some),
        spec_parse_contract(object) matches Ok(c) && (c.deduplication_key_pointer matches Some(p) ==> p.len() > 1
            && p[0] == '/'),
{
}

/// Whether a contract names an operation key exactly when its recovery is deduplicated, and
/// then by a non-root JSON Pointer.
pub open spec fn pointer_matches_recovery(c: ContractView) -> bool {
    &&& (c.recovery is Deduplicated <==> c.deduplication_key_pointer is Some)
    &&& (c.deduplication_key_pointer matches Some(p) ==> p.len() > 1 && p[0] == '/')
}

/// Every contract of a refined tool list obeys the pointer law.
proof fn lemma_catalog_pointers(tools: Seq<JsonView>)
    requires
        catalog_of(tools) is Ok,
    ensures
        catalog_of(tools) matches Ok(c) && forall|i: int|
            0 <= i < c.contracts.len() ==> pointer_matches_recovery(#[trigger] c.contracts[i].1),
    decreases tools.len(),
{
    if tools.len() > 0 {
        lemma_catalog_pointers(tools.drop_last());
        let acc = catalog_of(tools.drop_last())->Ok_0;
        if let JsonView::Object(object) = tools.last() {
            if spec_parse_contract(object) is Ok {
                lemma_deduplication_names_a_pointer(object);
            }
        }
        let c = catalog_of(tools)->Ok_0;
        assert forall|i: int| 0 <= i < c.contracts.len() implies pointer_matches_recovery(#[trigger] c.contracts[i].1) by {
            if i < acc.contracts.len() {
                assert(c.contracts[i] == acc.contracts[i]);
            }
        }
    }
}

/// The contract found under a name is one of the listed contracts.
proof fn lemma_contract_named_is_listed(contracts: Seq<(Seq<char>, ContractView)>, name: Seq<char>)
    ensures
        contract_named(contracts, name) matches Some(c) ==> exists|i: int|
            0 <= i < contracts.len() && #[trigger] contracts[i].1 == c,
    decreases contracts.len(),
{
    if contracts.len() > 0 {
        if contracts[0].0 == name {
            assert(contracts[0].1 == contracts[0].1);
        } else {
            lemma_contract_named_is_listed(contracts.drop_first(), name);
            if let Some(c) = contract_named(contracts, name) {
                let i = choose|i: int| 0 <= i < contracts.drop_first().len() && #[trigger] contracts.drop_first()[i].1 == c;
                assert(contracts[i + 1] == contracts.drop_first()[i]);
            }
        }
    }
}

/// Every contract of a parsed catalog names an operation key exactly when its recovery is
/// deduplicated, and then by a non-root JSON Pointer to a request field.
pub proof fn lemma_catalog_contracts_name_pointers(result: JsonView, name: Seq<char>)
    requires
        spec_parse_catalog(result) is Ok,
    ensures
        spec_parse_catalog(result) matches Ok(catalog) && (contract_named(catalog.contracts, name) matches Some(c)
            ==> pointer_matches_recovery(c)),
{
    let tools = match view_as_object(result) {
        Some(m) => match member(m, "tools"@) {
            Some(JsonView::Array(items)) => items,
            _ => Seq::empty(),
        },
        None => Seq::empty(),
    };
    lemma_catalog_pointers(tools);
    let catalog = spec_parse_catalog(result)->Ok_0;
    lemma_contract_named_is_listed(catalog.contracts, name);
}

/// A tool without `_meta` whose annotations name a legacy `replayContract` takes its recovery
/// from it: `convergent` is replay-safe, `probe_required` needs a probe, and `never_replay` runs
/// at most once; such a contract keeps no session state and names no operation key.
pub proof fn lemma_legacy_replay_contracts(
    object: Seq<(Seq<char>, JsonView)>,
    annotations: Seq<(Seq<char>, JsonView)>,
    named: Seq<char>,
)
    requires
        member(object, "_meta"@) is None,
        member(object, "annotations"@) == Some(JsonView::Object(annotations)),
        member(annotations, "replayContract"@) == Some(JsonView::Str(named)),
        named == "convergent"@ || named == "probe_required"@ || named == "never_replay"@,
    ensures
        spec_parse_contract(object) == Ok::<ContractView, EffectErrorView>(
            ContractView {
                recovery: if named == "convergent"@ {
                    EffectRecovery::ReplaySafe
                } else if named == "probe_required"@ {
                    EffectRecovery::ProbeRequired
                } else {
                    EffectRecovery::AtMostOnce
                },
                state: StateView::Stateless,
                deduplication_key_pointer: None,
            },
        ),
{
    reveal_strlit("convergent");
    reveal_strlit("probe_required");
    reveal_strlit("never_replay");
    assert(find_named(JsonView::Object(annotations), "replayContract"@) == Some(named));
}

/// A private stateless contract takes its recovery from its `recovery.kind`: `replay_safe`,
/// `probe_required` and `at_most_once` name the matching authority, and no operation key.
pub proof fn lemma_private_stateless_contracts(
    object: Seq<(Seq<char>, JsonView)>,
    meta: Seq<(Seq<char>, JsonView)>,
    contract: Seq<(Seq<char>, JsonView)>,
    recovery: Seq<(Seq<char>, JsonView)>,
    state: Seq<(Seq<char>, JsonView)>,
    kind: Seq<char>,
)
    requires
        member(object, "_meta"@) == Some(JsonView::Object(meta)),
        member(meta, "io.libmcp/effect"@) == Some(JsonView::Object(contract)),
        member(contract, "recovery"@) == Some(JsonView::Object(recovery)),
        member(recovery, "kind"@) == Some(JsonView::Str(kind)),
        kind == "replay_safe"@ || kind == "probe_required"@ || kind == "at_most_once"@,
        member(contract, "state"@) == Some(JsonView::Object(state)),
        member(state, "kind"@) == Some(JsonView::Str("stateless"@)),
    ensures
        spec_parse_contract(object) == Ok::<ContractView, EffectErrorView>(
            ContractView {
                recovery: if kind == "replay_safe"@ {
                    EffectRecovery::ReplaySafe
                } else if kind == "probe_required"@ {
                    EffectRecovery::ProbeRequired
                } else {
                    EffectRecovery::AtMostOnce
                },
                state: StateView::Stateless,
                deduplication_key_pointer: None,
            },
        ),
{
    reveal_strlit("replay_safe");
    reveal_strlit("deduplicated");
    reveal_strlit("probe_required");
    reveal_strlit("at_most_once");
    reveal_strlit("stateless");
    reveal_strlit("journaled");
    assert(private_contract(object) == Some(contract));
    assert(get_object(contract, "recovery"@) == Some(recovery));
    assert(get_str(recovery, "kind"@) == Some(kind));
    assert(spec_parse_state(tool_label(object), member(contract, "state"@)) == Ok::<StateView, EffectErrorView>(
        StateView::Stateless,
    ));
    if kind == "replay_safe"@ {
        assert(recovery_named(kind) == Some(EffectRecovery::ReplaySafe));
    } else if kind == "probe_required"@ {
        assert(kind.len() != "replay_safe"@.len() && kind.len() != "deduplicated"@.len());
        assert(recovery_named(kind) == Some(EffectRecovery::ProbeRequired));
    } else {
        assert(kind.len() != "replay_safe"@.len() && kind.len() != "probe_required"@.len());
        assert(kind[0] != "deduplicated"@[0]);
        assert(recovery_named(kind) == Some(EffectRecovery::AtMostOnce));
    }
}

/// Members whose values are booleans name no string anywhere below them.
proof fn lemma_members_named_of_scalars(m: Seq<(Seq<char>, JsonView)>, order: Seq<int>)
    requires
        forall|k: int| 0 <= k < m.len() ==> (#[trigger] m[k]).1 is Bool,
    ensures
        members_named(m, order, "replayContract"@) is None,
    decreases order.len(),
{
    if order.len() > 0 {
        if 0 <= order[0] < m.len() {
            assert(m[order[0]].1 is Bool);
            assert(find_named(m[order[0]].1, "replayContract"@) is None);
        }
        lemma_members_named_of_scalars(m, order.drop_first());
    }
}

/// A tool without `_meta` whose only annotation marks it read-only, or idempotent, may be
/// replayed.
pub proof fn lemma_read_only_or_idempotent_tools_replay(object: Seq<(Seq<char>, JsonView)>, hint: Seq<char>)
    requires
        member(object, "_meta"@) is None,
        hint == "readOnlyHint"@ || hint == "idempotentHint"@,
        member(object, "annotations"@) == Some(JsonView::Object(seq![(hint, JsonView::Bool(true))])),
    ensures
        spec_parse_contract(object) == Ok::<ContractView, EffectErrorView>(
            ContractView {
                recovery: EffectRecovery::ReplaySafe,
                state: StateView::Stateless,
                deduplication_key_pointer: None,
            },
        ),
{
    reveal_strlit("readOnlyHint");
    reveal_strlit("idempotentHint");
    reveal_strlit("replayContract");
    let a = seq![(hint, JsonView::Bool(true))];
    assert(hint != "replayContract"@) by {
        if hint == "readOnlyHint"@ {
            assert(hint.len() != "replayContract"@.len());
        } else {
            assert(hint[0] != "replayContract"@[0]);
        }
    }
    assert(member(a, "replayContract"@) is None) by {
        reveal_with_fuel(member, 2);
        assert(a[0].0 != "replayContract"@);
        assert(a.drop_first() =~= Seq::<(Seq<char>, JsonView)>::empty());
    }
    let order = sorted_indices(a);
    assert(forall|k: int| 0 <= k < a.len() ==> (#[trigger] a[k]).1 is Bool);
    lemma_members_named_of_scalars(a, order);
    assert(get_str(a, "replayContract"@) is None);
    assert(find_named(JsonView::Object(a), "replayContract"@) is None);
    assert(member(a, hint) == Some(JsonView::Bool(true)));
}

/// Refinement is conservative: a tool without a private contract and without annotations may
/// run at most once.
pub proof fn lemma_unannotated_tools_run_at_most_once(object: Seq<(Seq<char>, JsonView)>)
    requires
        private_contract(object) is None,
        member(object, "annotations"@) is None,
    ensures
        spec_parse_contract(object) == Ok::<ContractView, EffectErrorView>(
            ContractView {
                recovery: EffectRecovery::AtMostOnce,
                state: StateView::Stateless,
                deduplication_key_pointer: None,
            },
        ),
{
}

/// Whether the members of an object carry distinct names.
pub open spec fn distinct_names(m: Seq<(Seq<char>, JsonView)>) -> bool {
    forall|i: int, j: int| 0 <= i < j < m.len() ==> #[trigger] m[i].0 != #[trigger] m[j].0
}

/// A member removed from an object with distinct names is gone.
proof fn lemma_removed_member_is_gone(m: Seq<(Seq<char>, JsonView)>, key: Seq<char>)
    requires
        distinct_names(m),
    ensures
        member(remove_member(m, key), key) is None,
        distinct_names(remove_member(m, key)),
    decreases m.len(),
{
    if m.len() > 0 {
        let rest = m.drop_first();
        assert forall|i: int, j: int| 0 <= i < j < rest.len() implies #[trigger] rest[i].0 != #[trigger] rest[j].0 by {
            assert(rest[i] == m[i + 1] && rest[j] == m[j + 1]);
        }
        if m[0].0 == key {
            assert forall|i: int| 0 <= i < rest.len() implies #[trigger] rest[i].0 != key by {
                assert(rest[i] == m[i + 1]);
            }
            crate::json::lemma_member_at(rest, key, rest.len() as int);
        } else {
            lemma_removed_member_is_gone(rest, key);
            let r = remove_member(m, key);
            assert(r == seq![m[0]] + remove_member(rest, key));
            assert(r.drop_first() =~= remove_member(rest, key));
            crate::json::lemma_member_index(remove_member(rest, key), key);
            crate::json::lemma_member_index(r, key);
            if member(r, key) is Some {
                let i = choose|i: int| 0 <= i < r.len() && #[trigger] r[i].0 == key;
                if i > 0 {
                    assert(r.drop_first()[i - 1].0 == key);
                }
            }
            lemma_remove_member_subset(rest, key);
            assert forall|i: int, j: int| 0 <= i < j < r.len() implies #[trigger] r[i].0 != #[trigger] r[j].0 by {
                if i == 0 {
                    let k = choose|k: int| 0 <= k < rest.len() && rest[k] == remove_member(rest, key)[j - 1];
                    assert(m[k + 1] == rest[k]);
                } else {
                    assert(r[i] == remove_member(rest, key)[i - 1]);
                    assert(r[j] == remove_member(rest, key)[j - 1]);
                }
            }
        }
    }
}

/// Every member left after a removal was a member before.
proof fn lemma_remove_member_subset(m: Seq<(Seq<char>, JsonView)>, key: Seq<char>)
    ensures
        forall|j: int| 0 <= j < remove_member(m, key).len() ==> exists|k: int| 0 <= k < m.len() && m[k]
            == #[trigger] remove_member(m, key)[j],
    decreases m.len(),
{
    if m.len() > 0 {
        lemma_remove_member_subset(m.drop_first(), key);
        let r = remove_member(m, key);
        assert forall|j: int| 0 <= j < r.len() implies exists|k: int| 0 <= k < m.len() && m[k] == #[trigger] r[j] by {
            if m[0].0 == key {
                assert(m[j + 1] == r[j]);
            } else if j == 0 {
                assert(m[0] == r[0]);
            } else {
                let inner = remove_member(m.drop_first(), key);
                assert(r[j] == inner[j - 1]);
                let k = choose|k: int| 0 <= k < m.drop_first().len() && m.drop_first()[k] == inner[j - 1];
                assert(m[k + 1] == r[j]);
            }
        }
    }
}

/// Setting a member makes it the member under that name.
proof fn lemma_set_member_reads_back(m: Seq<(Seq<char>, JsonView)>, key: Seq<char>, v: JsonView)
    ensures
        member(crate::render::set_member(m, key, v), key) == Some(v),
    decreases m.len(),
{
    if m.len() > 0 && m[0].0 != key {
        lemma_set_member_reads_back(m.drop_first(), key, v);
        let s = crate::render::set_member(m, key, v);
        assert(s.drop_first() =~= crate::render::set_member(m.drop_first(), key, v));
    }
}

/// The public projection of a tool carries no private effect contract, when the tool and its
/// `_meta` name each member once.
pub proof fn lemma_stripped_tool_keeps_contract_private(tool: JsonView)
    requires
        tool matches JsonView::Object(m) && distinct_names(m) && (member(m, "_meta"@) matches Some(
            JsonView::Object(meta),
        ) ==> distinct_names(meta)),
    ensures
        spec_strip(tool) matches JsonView::Object(m2) && (member(m2, "_meta"@) matches Some(JsonView::Object(meta2))
            ==> member(meta2, meta_key()) is None),
{
    match tool {
        JsonView::Object(m) => match member(m, "_meta"@) {
            Some(JsonView::Object(meta)) => {
                lemma_removed_member_is_gone(meta, meta_key());
                let rest = remove_member(meta, meta_key());
                if rest.len() == 0 {
                    lemma_removed_member_is_gone(m, "_meta"@);
                } else {
                    lemma_set_member_reads_back(m, "_meta"@, JsonView::Object(rest));
                }
            },
            _ => {},
        },
        _ => {},
    }
}

} // verus!

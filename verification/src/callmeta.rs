//! Telemetry metadata extracted from `tools/call` frames.

use vstd::prelude::*;
use crate::json::{
    JsonValue, JsonView, decode_json_text, get_member, lemma_items_view, lemma_members_view,
    member, members_view, sorted_indices, sorted_member_indices, spec_decode_json_text,
};
use crate::jsonrpc::{FramedMessage, RpcMethod, ToolName, is_advanced_lsp_tool, is_tools_call_method};
use crate::normalize::{FileUriError, file_uri_to_path, spec_file_uri_to_path};
use crate::text::{all_whitespace, chars_of, chars_start_with, owned, trim, trim_text};

verus! {

/// Tool call metadata extracted from a generic `tools/call` frame.
#[derive(Debug, PartialEq, Eq)]
pub struct ToolCallMeta {
    /// Tool name.
    pub tool_name: ToolName,
    /// Nested LSP method when the tool proxies LSP-style requests.
    pub lsp_method: Option<RpcMethod>,
    /// Best-effort path hint for telemetry grouping.
    pub path_hint: Option<String>,
}

/// Mathematical model of tool call metadata.
pub struct ToolCallMetaView {
    pub tool_name: Seq<char>,
    pub lsp_method: Option<Seq<char>>,
    pub path_hint: Option<Seq<char>>,
}

pub open spec fn opt_text_view(o: Option<String>) -> Option<Seq<char>> {
    match o {
        Some(s) => Some(s@),
        None => None,
    }
}

pub open spec fn opt_method_view(o: Option<RpcMethod>) -> Option<Seq<char>> {
    match o {
        Some(m) => Some(m@),
        None => None,
    }
}

impl View for ToolCallMeta {
    type V = ToolCallMetaView;

    open spec fn view(&self) -> ToolCallMetaView {
        ToolCallMetaView {
            tool_name: self.tool_name@,
            lsp_method: opt_method_view(self.lsp_method),
            path_hint: opt_text_view(self.path_hint),
        }
    }
}

/// The string value of the first listed key that names a string member.
pub open spec fn first_string_member(m: Seq<(Seq<char>, JsonView)>, keys: Seq<Seq<char>>) -> Option<Seq<char>>
    decreases keys.len(),
{
    if keys.len() == 0 {
        None
    } else {
        match member(m, keys[0]) {
            Some(JsonView::Str(s)) => Some(s),
            _ => first_string_member(m, keys.drop_first()),
        }
    }
}

/// Keys that name a path directly on an arguments object, in priority order.
pub open spec fn direct_path_keys() -> Seq<Seq<char>> {
    seq!["file_path"@, "filePath"@, "path"@, "uri"@]
}

/// Keys that name a path inside a `textDocument` object, in priority order.
pub open spec fn text_document_path_keys() -> Seq<Seq<char>> {
    seq!["uri"@, "file_path"@, "filePath"@, "path"@]
}

/// A path named directly by an object or by its `textDocument` member.
pub open spec fn direct_path_hint(m: Seq<(Seq<char>, JsonView)>) -> Option<Seq<char>> {
    match first_string_member(m, direct_path_keys()) {
        Some(p) => Some(p),
        None => match member(m, "textDocument"@) {
            Some(JsonView::Object(doc)) => first_string_member(doc, text_document_path_keys()),
            _ => None,
        },
    }
}

/// A path hint with surrounding whitespace removed, and a `file://` URI
/// replaced by its local path when it names one.
pub open spec fn normalize_hint(raw: Seq<char>) -> Seq<char> {
    let t = trim(raw);
    if t.len() >= 7 && t.take(7) == "file://"@ {
        match spec_file_uri_to_path(t) {
            Ok(p) => p,
            Err(_) => t,
        }
    } else {
        t
    }
}

/// The document that a string holding an embedded JSON object or array decodes to.
pub open spec fn nested_document(text: Seq<char>) -> Option<JsonView> {
    let t = trim(text);
    if t.len() > 0 && (t[0] == '{' || t[0] == '[') {
        spec_decode_json_text(t)
    } else {
        None
    }
}

/// The first path hint found in a value, searching at most `fuel` levels of
/// nesting: a direct hint on an object wins, then object members in name
/// order, array items in order, and JSON documents embedded in strings.
pub open spec fn path_hint(v: JsonView, fuel: nat) -> Option<Seq<char>>
    decreases fuel, 0int,
{
    if fuel == 0 {
        None
    } else {
        match v {
            JsonView::Str(t) => match nested_document(t) {
                Some(d) => path_hint(d, (fuel - 1) as nat),
                None => None,
            },
            JsonView::Object(m) => match direct_path_hint(m) {
                Some(p) => Some(normalize_hint(p)),
                None => members_hint(m, sorted_indices(m), (fuel - 1) as nat),
            },
            JsonView::Array(items) => items_hint(items, (fuel - 1) as nat),
            _ => None,
        }
    }
}

/// The first path hint among array items.
pub open spec fn items_hint(items: Seq<JsonView>, fuel: nat) -> Option<Seq<char>>
    decreases fuel, items.len(),
{
    if items.len() == 0 {
        None
    } else {
        match path_hint(items[0], fuel) {
            Some(h) => Some(h),
            None => items_hint(items.drop_first(), fuel),
        }
    }
}

/// The first path hint among the member values listed by `order`.
pub open spec fn members_hint(m: Seq<(Seq<char>, JsonView)>, order: Seq<int>, fuel: nat) -> Option<Seq<char>>
    decreases fuel, order.len(),
{
    if order.len() == 0 {
        None
    } else {
        let first = if 0 <= order[0] < m.len() {
            path_hint(m[order[0]].1, fuel)
        } else {
            None
        };
        match first {
            Some(h) => Some(h),
            None => members_hint(m, order.drop_first(), fuel),
        }
    }
}

/// The nested LSP method named by the arguments of an advanced-LSP tool call.
pub open spec fn spec_lsp_method(arguments: Option<JsonView>) -> Option<Seq<char>> {
    match arguments {
        Some(JsonView::Object(a)) => {
            let found = match member(a, "method"@) {
                Some(v) => Some(v),
                None => match member(a, "lsp_method"@) {
                    Some(v) => Some(v),
                    None => member(a, "lspMethod"@),
                },
            };
            match found {
                Some(JsonView::Str(s)) => if all_whitespace(s) {
                    None
                } else {
                    Some(s)
                },
                _ => None,
            }
        },
        _ => None,
    }
}

/// Tool call metadata of a frame value invoked with `method`; path hints
/// are searched at most `fuel` levels deep.
pub open spec fn spec_tool_call_meta(value: JsonView, method: Seq<char>, fuel: nat) -> Option<ToolCallMetaView> {
    if !is_tools_call_method(method) {
        None
    } else {
        match value {
            JsonView::Object(root) => match member(root, "params"@) {
                Some(JsonView::Object(params)) => match member(params, "name"@) {
                    Some(JsonView::Str(name)) => if all_whitespace(name) {
                        None
                    } else {
                        let arguments = member(params, "arguments"@);
                        Some(ToolCallMetaView {
                            tool_name: name,
                            lsp_method: if is_advanced_lsp_tool(name) {
                                spec_lsp_method(arguments)
                            } else {
                                None
                            },
                            path_hint: match arguments {
                                Some(a) => path_hint(a, fuel),
                                None => None,
                            },
                        })
                    },
                    _ => None,
                },
                _ => None,
            },
            _ => None,
        }
    }
}

impl ToolCallMeta {
    /// A copy with the same metadata.
    pub fn duplicate(&self) -> (r: Self)
        ensures
            r@ == self@,
    {
        Self {
            tool_name: self.tool_name.duplicate(),
            lsp_method: match &self.lsp_method {
                Some(m) => Some(m.duplicate()),
                None => None,
            },
            path_hint: match &self.path_hint {
                Some(p) => Some(p.clone()),
                None => None,
            },
        }
    }
}

impl Clone for ToolCallMeta {
    fn clone(&self) -> (r: Self)
        ensures
            r@ == self@,
    {
        self.duplicate()
    }
}

/// The string value of a member, if the member exists and is a string.
fn string_member(m: &Vec<(String, JsonValue)>, key: &str) -> (r: Option<String>)
    ensures
        r matches Some(s) ==> member(members_view(m@), key@) == Some(JsonView::Str(s@)),
        r is None ==> !(member(members_view(m@), key@) matches Some(JsonView::Str(_))),
{
    match get_member(m, key) {
        Some(v) => match v.as_str() {
            Some(s) => Some(s.clone()),
            None => None,
        },
        None => None,
    }
}

/// A path named directly by an object or by its `textDocument` member.
fn direct_path_hint_of(m: &Vec<(String, JsonValue)>) -> (r: Option<String>)
    ensures
        opt_text_view(r) == direct_path_hint(members_view(m@)),
{
    let ghost mv = members_view(m@);
    proof {
        reveal_with_fuel(first_string_member, 5);
        let k = direct_path_keys();
        assert(k.drop_first() =~= seq!["filePath"@, "path"@, "uri"@]);
        assert(k.drop_first().drop_first() =~= seq!["path"@, "uri"@]);
        assert(k.drop_first().drop_first().drop_first() =~= seq!["uri"@]);
        assert(k.drop_first().drop_first().drop_first().drop_first() =~= Seq::<Seq<char>>::empty());
        let d = text_document_path_keys();
        assert(d.drop_first() =~= seq!["file_path"@, "filePath"@, "path"@]);
        assert(d.drop_first().drop_first() =~= seq!["filePath"@, "path"@]);
        assert(d.drop_first().drop_first().drop_first() =~= seq!["path"@]);
        assert(d.drop_first().drop_first().drop_first().drop_first() =~= Seq::<Seq<char>>::empty());
    }
    if let Some(p) = string_member(m, "file_path") {
        return Some(p);
    }
    if let Some(p) = string_member(m, "filePath") {
        return Some(p);
    }
    if let Some(p) = string_member(m, "path") {
        return Some(p);
    }
    if let Some(p) = string_member(m, "uri") {
        return Some(p);
    }
    match get_member(m, "textDocument") {
        Some(doc) => match doc.as_object() {
            Some(d) => {
                if let Some(p) = string_member(d, "uri") {
                    return Some(p);
                }
                if let Some(p) = string_member(d, "file_path") {
                    return Some(p);
                }
                if let Some(p) = string_member(d, "filePath") {
                    return Some(p);
                }
                string_member(d, "path")
            },
            None => None,
        },
        None => None,
    }
}

/// Trims a path hint and resolves a `file://` URI to its local path when it names one.
fn normalize_hint_text(raw: &str) -> (r: String)
    ensures
        r@ == normalize_hint(raw@),
{
    let t = trim_text(raw);
    let tc = chars_of(t.as_str());
    let scheme = chars_of("file://");
    proof {
        reveal_strlit("file://");
    }
    if chars_start_with(tc.as_slice(), scheme.as_slice()) {
        match file_uri_to_path(t.as_str()) {
            Ok(p) => p,
            Err(_) => t,
        }
    } else {
        t
    }
}

/// Decodes a string holding an embedded JSON object or array.
fn nested_document_of(text: &str) -> (r: Option<JsonValue>)
    ensures
        r matches Some(v) ==> nested_document(text@) == Some(v@),
        r is None ==> nested_document(text@) is None,
{
    let t = trim_text(text);
    let tc = chars_of(t.as_str());
    if tc.len() > 0 && (tc[0] == '{' || tc[0] == '[') {
        decode_json_text(t.as_str())
    } else {
        None
    }
}

/// The first path hint found in a value, at most `fuel` levels deep.
pub fn path_hint_of(v: &JsonValue, fuel: usize) -> (r: Option<String>)
    ensures
        opt_text_view(r) == path_hint(v@, fuel as nat),
    decreases fuel, 0int,
{
    if fuel == 0 {
        return None;
    }
    match v {
        JsonValue::String(t) => match nested_document_of(t.as_str()) {
            Some(d) => path_hint_of(&d, fuel - 1),
            None => None,
        },
        JsonValue::Object(m) => match direct_path_hint_of(m) {
            Some(p) => Some(normalize_hint_text(p.as_str())),
            None => {
                let order = sorted_member_indices(m);
                proof {
                    let oi = order@.map_values(|x: usize| x as int);
                    assert(oi.skip(0) =~= oi);
                }
                members_hint_of(m, &order, 0, fuel - 1)
            },
        },
        JsonValue::Array(items) => {
            proof {
                let iv = crate::json::items_view(items@);
                assert(iv.skip(0) =~= iv);
            }
            items_hint_of(items, 0, fuel - 1)
        },
        _ => None,
    }
}

/// The first path hint among array items from position `from` on.
fn items_hint_of(items: &Vec<JsonValue>, from: usize, fuel: usize) -> (r: Option<String>)
    requires
        from <= items@.len(),
    ensures
        opt_text_view(r) == items_hint(crate::json::items_view(items@).skip(from as int), fuel as nat),
    decreases fuel, items@.len() - from,
{
    proof {
        lemma_items_view(items@);
    }
    let ghost rest = crate::json::items_view(items@).skip(from as int);
    if from == items.len() {
        assert(rest.len() == 0);
        return None;
    }
    assert(rest[0] == items@[from as int]@);
    assert(rest.drop_first() =~= crate::json::items_view(items@).skip(from + 1));
    match path_hint_of(&items[from], fuel) {
        Some(h) => Some(h),
        None => items_hint_of(items, from + 1, fuel),
    }
}

/// The first path hint among member values listed by `order` from position `from` on.
fn members_hint_of(m: &Vec<(String, JsonValue)>, order: &Vec<usize>, from: usize, fuel: usize) -> (r: Option<String>)
    requires
        from <= order@.len(),
        forall|k: int| 0 <= k < order@.len() ==> #[trigger] order@[k] < m@.len(),
    ensures
        opt_text_view(r) == members_hint(
            members_view(m@),
            order@.map_values(|x: usize| x as int).skip(from as int),
            fuel as nat,
        ),
    decreases fuel, order@.len() - from,
{
    proof {
        lemma_members_view(m@);
    }
    let ghost oi = order@.map_values(|x: usize| x as int);
    let ghost rest = oi.skip(from as int);
    if from == order.len() {
        assert(rest.len() == 0);
        return None;
    }
    let i = order[from];
    assert(rest[0] == i as int);
    assert(members_view(m@)[i as int].1 == m@[i as int].1@);
    assert(rest.drop_first() =~= oi.skip(from + 1));
    match path_hint_of(&m[i].1, fuel) {
        Some(h) => Some(h),
        None => members_hint_of(m, order, from + 1, fuel),
    }
}

/// The nested LSP method named by tool arguments.
fn lsp_method_of(arguments: Option<&JsonValue>) -> (r: Option<RpcMethod>)
    ensures
        opt_method_view(r) == spec_lsp_method(match arguments {
            Some(a) => Some(a@),
            None => None,
        }),
{
    let a = match arguments {
        Some(v) => match v.as_object() {
            Some(a) => a,
            None => return None,
        },
        None => return None,
    };
    let found = match get_member(a, "method") {
        Some(v) => Some(v),
        None => match get_member(a, "lsp_method") {
            Some(v) => Some(v),
            None => get_member(a, "lspMethod"),
        },
    };
    match found {
        Some(v) => match v.as_str() {
            Some(s) => match RpcMethod::try_new(s.as_str()) {
                Ok(m) => Some(m),
                Err(_) => None,
            },
            None => None,
        },
        None => None,
    }
}

/// Extracts `tools/call` metadata from a JSON-RPC frame.
///
/// Path hints are searched as deep as the payload can nest values: every
/// level of nesting occupies at least one payload byte.
pub fn parse_tool_call_meta(frame: &FramedMessage, rpc_method: &RpcMethod) -> (r: Option<ToolCallMeta>)
    ensures
        match r {
            Some(m) => spec_tool_call_meta(frame@.value, rpc_method@, frame@.payload.len()) == Some(m@),
            None => spec_tool_call_meta(frame@.value, rpc_method@, frame@.payload.len()) is None,
        },
{
    if !rpc_method.is_tools_call() {
        return None;
    }
    let fuel = frame.payload().len();
    let root = match frame.value().as_object() {
        Some(root) => root,
        None => return None,
    };
    let params = match get_member(root, "params") {
        Some(p) => match p.as_object() {
            Some(params) => params,
            None => return None,
        },
        None => return None,
    };
    let name = match get_member(params, "name") {
        Some(n) => match n.as_str() {
            Some(name) => name,
            None => return None,
        },
        None => return None,
    };
    let tool_name = match ToolName::try_new(name.as_str()) {
        Ok(t) => t,
        Err(_) => return None,
    };
    let arguments = get_member(params, "arguments");
    let lsp_method = if tool_name.is_advanced_lsp_request() {
        lsp_method_of(arguments)
    } else {
        None
    };
    let path_hint = match arguments {
        Some(a) => path_hint_of(a, fuel),
        None => None,
    };
    Some(ToolCallMeta { tool_name, lsp_method, path_hint })
}

/// The path hint of an arguments object comes from its first string member among `file_path`,
/// `filePath`, `path` and `uri`, in that order, with surrounding whitespace removed and a
/// `file://` URI read as its local path.
pub proof fn lemma_direct_path_members_give_the_hint(a: Seq<(Seq<char>, JsonView)>, i: int, text: Seq<char>, fuel: nat)
    requires
        0 <= i < 4,
        fuel > 0,
        member(a, if i == 0 {
            "file_path"@
        } else if i == 1 {
            "filePath"@
        } else if i == 2 {
            "path"@
        } else {
            "uri"@
        }) == Some(JsonView::Str(text)),
        i >= 1 ==> !(member(a, "file_path"@) matches Some(JsonView::Str(_))),
        i >= 2 ==> !(member(a, "filePath"@) matches Some(JsonView::Str(_))),
        i >= 3 ==> !(member(a, "path"@) matches Some(JsonView::Str(_))),
    ensures
        path_hint(JsonView::Object(a), fuel) == Some(normalize_hint(text)),
{
    let keys = seq!["file_path"@, "filePath"@, "path"@, "uri"@];
    assert(direct_path_keys() =~= keys);
    let k1 = keys.drop_first();
    let k2 = k1.drop_first();
    let k3 = k2.drop_first();
    assert(k1 =~= seq!["filePath"@, "path"@, "uri"@]);
    assert(k2 =~= seq!["path"@, "uri"@]);
    assert(k3 =~= seq!["uri"@]);
    assert(k3.drop_first() =~= Seq::<Seq<char>>::empty());
    assert(keys[0] == "file_path"@ && k1[0] == "filePath"@ && k2[0] == "path"@ && k3[0] == "uri"@);
    reveal_with_fuel(first_string_member, 5);
    assert(first_string_member(a, keys) == Some(text));
}

/// The path hint of a `tools/call` request is the one its arguments give.
pub proof fn lemma_tool_call_hint_is_the_arguments_hint(
    root: Seq<(Seq<char>, JsonView)>,
    params: Seq<(Seq<char>, JsonView)>,
    name: Seq<char>,
    arguments: JsonView,
    fuel: nat,
)
    requires
        member(root, "params"@) == Some(JsonView::Object(params)),
        member(params, "name"@) == Some(JsonView::Str(name)),
        !all_whitespace(name),
        member(params, "arguments"@) == Some(arguments),
    ensures
        spec_tool_call_meta(JsonView::Object(root), "tools/call"@, fuel) matches Some(meta) && meta.tool_name == name
            && meta.path_hint == path_hint(arguments, fuel),
{
    reveal_strlit("tools/call");
}

/// Without a direct path member, the path hint comes from the `textDocument` object: its first
/// string member among `uri`, `file_path`, `filePath` and `path`, in that order.
pub proof fn lemma_text_document_gives_the_hint(
    a: Seq<(Seq<char>, JsonView)>,
    doc: Seq<(Seq<char>, JsonView)>,
    i: int,
    text: Seq<char>,
    fuel: nat,
)
    requires
        0 <= i < 4,
        fuel > 0,
        !(member(a, "file_path"@) matches Some(JsonView::Str(_))),
        !(member(a, "filePath"@) matches Some(JsonView::Str(_))),
        !(member(a, "path"@) matches Some(JsonView::Str(_))),
        !(member(a, "uri"@) matches Some(JsonView::Str(_))),
        member(a, "textDocument"@) == Some(JsonView::Object(doc)),
        member(doc, if i == 0 {
            "uri"@
        } else if i == 1 {
            "file_path"@
        } else if i == 2 {
            "filePath"@
        } else {
            "path"@
        }) == Some(JsonView::Str(text)),
        i >= 1 ==> !(member(doc, "uri"@) matches Some(JsonView::Str(_))),
        i >= 2 ==> !(member(doc, "file_path"@) matches Some(JsonView::Str(_))),
        i >= 3 ==> !(member(doc, "filePath"@) matches Some(JsonView::Str(_))),
    ensures
        path_hint(JsonView::Object(a), fuel) == Some(normalize_hint(text)),
{
    let keys = seq!["file_path"@, "filePath"@, "path"@, "uri"@];
    assert(direct_path_keys() =~= keys);
    assert(keys.drop_first() =~= seq!["filePath"@, "path"@, "uri"@]);
    assert(keys.drop_first().drop_first() =~= seq!["path"@, "uri"@]);
    assert(keys.drop_first().drop_first().drop_first() =~= seq!["uri"@]);
    assert(keys.drop_first().drop_first().drop_first().drop_first() =~= Seq::<Seq<char>>::empty());
    let dk = seq!["uri"@, "file_path"@, "filePath"@, "path"@];
    assert(text_document_path_keys() =~= dk);
    assert(dk.drop_first() =~= seq!["file_path"@, "filePath"@, "path"@]);
    assert(dk.drop_first().drop_first() =~= seq!["filePath"@, "path"@]);
    assert(dk.drop_first().drop_first().drop_first() =~= seq!["path"@]);
    assert(dk.drop_first().drop_first().drop_first().drop_first() =~= Seq::<Seq<char>>::empty());
    reveal_with_fuel(first_string_member, 5);
    assert(first_string_member(a, keys) is None);
    assert(first_string_member(doc, dk) == Some(text));
}

} // verus!

//! JSON-RPC request identity, method tokens, and frame validation.

use vstd::prelude::*;
use crate::json::{
    JsonNumber, JsonValue, JsonView, NumberView, first_duplicate, get_member, json_view, member,
    has_member, members_view, view_as_i64, view_as_object, view_as_str,
};
use crate::text::{all_whitespace, fold_ascii, fold_ascii_token, is_blank, owned, str_eq};
use crate::types::InvariantViolation;

pub use crate::callmeta::{ToolCallMeta, parse_tool_call_meta};

verus! {

/// JSON-RPC request identifier.
#[derive(Debug, Clone, PartialEq, Eq, Hash)]
pub enum RequestId {
    /// Numeric identifier.
    Number(JsonNumber),
    /// Text identifier.
    Text(String),
}

/// Mathematical model of a request identifier.
pub enum RequestIdView {
    Number(NumberView),
    Text(Seq<char>),
}

impl View for RequestId {
    type V = RequestIdView;

    open spec fn view(&self) -> RequestIdView {
        match self {
            RequestId::Number(n) => RequestIdView::Number(n@),
            RequestId::Text(t) => RequestIdView::Text(t@),
        }
    }
}

/// `RequestId::from_json_value`: numbers and strings identify requests.
pub open spec fn spec_request_id(v: JsonView) -> Option<RequestIdView> {
    match v {
        JsonView::Number(n) => Some(RequestIdView::Number(n)),
        JsonView::Str(s) => Some(RequestIdView::Text(s)),
        _ => None,
    }
}

/// The JSON value of a request identifier.
pub open spec fn request_id_json(id: RequestIdView) -> JsonView {
    match id {
        RequestIdView::Number(n) => JsonView::Number(n),
        RequestIdView::Text(t) => JsonView::Str(t),
    }
}

impl RequestId {
    /// Constructs a numeric request ID.
    pub fn number(number: u64) -> (r: Self)
        ensures
            r@ == RequestIdView::Number(NumberView::Unsigned(number)),
    {
        RequestId::Number(JsonNumber::Unsigned(number))
    }

    /// Constructs a textual request ID.
    pub fn text(text: &str) -> (r: Self)
        ensures
            r@ == RequestIdView::Text(text@),
    {
        RequestId::Text(owned(text))
    }

    /// A copy with the same identity.
    pub fn duplicate(&self) -> (r: Self)
        ensures
            r@ == self@,
    {
        match self {
            RequestId::Number(n) => RequestId::Number(n.duplicate()),
            RequestId::Text(t) => RequestId::Text(t.clone()),
        }
    }

    /// Whether two identifiers name the same request.
    pub fn same_as(&self, other: &Self) -> (r: bool)
        ensures
            r == (self@ == other@),
    {
        match (self, other) {
            (RequestId::Number(a), RequestId::Number(b)) => a.same_as(b),
            (RequestId::Text(a), RequestId::Text(b)) => str_eq(a.as_str(), b.as_str()),
            _ => false,
        }
    }

    /// Parses a request ID from JSON.
    pub fn from_json_value(value: &JsonValue) -> (r: Option<Self>)
        ensures
            r matches Some(id) ==> spec_request_id(value@) == Some(id@),
            r is None ==> spec_request_id(value@) is None,
    {
        match value {
            JsonValue::Number(n) => Some(RequestId::Number(n.duplicate())),
            JsonValue::String(s) => Some(RequestId::Text(s.clone())),
            _ => None,
        }
    }

    /// Converts the request ID back to JSON.
    pub fn to_json_value(&self) -> (r: JsonValue)
        ensures
            r@ == request_id_json(self@),
    {
        match self {
            RequestId::Number(n) => JsonValue::Number(n.duplicate()),
            RequestId::Text(t) => JsonValue::String(t.clone()),
        }
    }
}

/// JSON-RPC method token; never blank.
#[derive(Debug, PartialEq, Eq, PartialOrd, Ord, Hash)]
pub struct RpcMethod {
    text: String,
}

impl View for RpcMethod {
    type V = Seq<char>;

    closed spec fn view(&self) -> Seq<char> {
        self.text@
    }
}

pub open spec fn is_initialize_method(m: Seq<char>) -> bool {
    m == "initialize"@
}

pub open spec fn is_initialized_method(m: Seq<char>) -> bool {
    m == "initialized"@ || m == "notifications/initialized"@
}

pub open spec fn is_tools_call_method(m: Seq<char>) -> bool {
    m == "tools/call"@
}

impl RpcMethod {
    #[verifier::type_invariant]
    spec fn not_blank(self) -> bool {
        !all_whitespace(self.text@)
    }

    /// Constructs a method token; blank text is rejected.
    pub fn try_new(method: &str) -> (r: Result<Self, InvariantViolation>)
        ensures
            all_whitespace(method@) <==> r is Err,
            r matches Ok(m) ==> m@ == method@,
    {
        if is_blank(method) {
            return Err(InvariantViolation::new("JSON-RPC method token must be non-empty"));
        }
        Ok(Self { text: owned(method) })
    }

    /// Returns the MCP `tools/call` method token.
    pub fn tools_call() -> (r: Self)
        ensures
            r@ == "tools/call"@,
    {
        let text = owned("tools/call");
        proof {
            reveal_strlit("tools/call");
            assert(!all_whitespace(text@)) by {
                assert(!crate::text::is_whitespace(text@[0]));
            }
        }
        Self { text }
    }

    /// A copy with the same text.
    pub fn duplicate(&self) -> (r: Self)
        ensures
            r@ == self@,
    {
        proof {
            use_type_invariant(self);
        }
        Self { text: self.text.clone() }
    }

    /// Returns the method text.
    pub fn as_str(&self) -> (r: &str)
        ensures
            r@ == self@,
            !all_whitespace(self@),
    {
        proof {
            use_type_invariant(self);
        }
        self.text.as_str()
    }

    /// Whether two tokens are the same method.
    pub fn same_as(&self, other: &Self) -> (r: bool)
        ensures
            r == (self@ == other@),
    {
        str_eq(self.text.as_str(), other.text.as_str())
    }

    /// Returns whether this is the JSON-RPC initialize request.
    pub fn is_initialize(&self) -> (r: bool)
        ensures
            r == is_initialize_method(self@),
    {
        str_eq(self.text.as_str(), "initialize")
    }

    /// Returns whether this is an initialized notification spelling.
    pub fn is_initialized_notification(&self) -> (r: bool)
        ensures
            r == is_initialized_method(self@),
    {
        str_eq(self.text.as_str(), "initialized") || str_eq(
            self.text.as_str(),
            "notifications/initialized",
        )
    }

    /// Returns whether this is an MCP tool-call request.
    pub fn is_tools_call(&self) -> (r: bool)
        ensures
            r == is_tools_call_method(self@),
    {
        str_eq(self.text.as_str(), "tools/call")
    }

    /// Parses a method token from JSON: a string that is not blank.
    pub fn from_json_value(value: &JsonValue) -> (r: Option<Self>)
        ensures
            r matches Some(m) ==> spec_method_token(value@) == Some(m@),
            r is None ==> spec_method_token(value@) is None,
    {
        match value.as_str() {
            Some(text) => match Self::try_new(text.as_str()) {
                Ok(m) => Some(m),
                Err(_) => None,
            },
            None => None,
        }
    }
}

/// `RpcMethod::from_json_value`.
pub open spec fn spec_method_token(v: JsonView) -> Option<Seq<char>> {
    match v {
        JsonView::Str(s) => if all_whitespace(s) {
            None
        } else {
            Some(s)
        },
        _ => None,
    }
}

impl Clone for RpcMethod {
    fn clone(&self) -> (r: Self)
        ensures
            r@ == self@,
    {
        self.duplicate()
    }
}

/// MCP tool name token; never blank.
#[derive(Debug, PartialEq, Eq, Hash)]
pub struct ToolName {
    text: String,
}

impl View for ToolName {
    type V = Seq<char>;

    closed spec fn view(&self) -> Seq<char> {
        self.text@
    }
}

/// The folded spelling of the common advanced-LSP proxy tool.
pub open spec fn is_advanced_lsp_tool(name: Seq<char>) -> bool {
    fold_ascii(name) == "advancedlsprequest"@
}

impl ToolName {
    #[verifier::type_invariant]
    spec fn not_blank(self) -> bool {
        !all_whitespace(self.text@)
    }

    /// Constructs a tool-name token; blank text is rejected.
    pub fn try_new(name: &str) -> (r: Result<Self, InvariantViolation>)
        ensures
            all_whitespace(name@) <==> r is Err,
            r matches Ok(t) ==> t@ == name@,
    {
        if is_blank(name) {
            return Err(InvariantViolation::new("tool name must be non-empty"));
        }
        Ok(Self { text: owned(name) })
    }

    /// A copy with the same text.
    pub fn duplicate(&self) -> (r: Self)
        ensures
            r@ == self@,
    {
        proof {
            use_type_invariant(self);
        }
        Self { text: self.text.clone() }
    }

    /// Whether two names are the same tool.
    pub fn same_as(&self, other: &Self) -> (r: bool)
        ensures
            r == (self@ == other@),
    {
        str_eq(self.text.as_str(), other.text.as_str())
    }

    /// Returns the tool-name text.
    pub fn as_str(&self) -> (r: &str)
        ensures
            r@ == self@,
    {
        self.text.as_str()
    }

    /// Returns whether the tool name denotes the common advanced-LSP proxy.
    pub fn is_advanced_lsp_request(&self) -> (r: bool)
        ensures
            r == is_advanced_lsp_tool(self@),
    {
        let folded = fold_ascii_token(self.text.as_str());
        str_eq(folded.as_str(), "advancedlsprequest")
    }
}

impl Clone for ToolName {
    fn clone(&self) -> (r: Self)
        ensures
            r@ == self@,
    {
        self.duplicate()
    }
}

/// Rejection raised while validating a JSON-RPC frame.
#[derive(Debug, Clone, PartialEq, Eq)]
pub enum FrameParseError {
    /// The payload was not valid JSON.
    InvalidJson(String),
    /// An object contained the same member name more than once.
    DuplicateObjectMember(String),
    /// The frame root was not an object.
    RootNotObject,
    /// The protocol version was absent or not exactly `2.0`.
    InvalidVersion,
    /// A request or notification method was not a valid method token.
    InvalidMethod,
    /// A request or response ID was neither a number nor a string.
    InvalidRequestId,
    /// Request parameters were not structured.
    InvalidParams,
    /// Request and response members formed no unambiguous envelope.
    AmbiguousEnvelope,
    /// A response error was not a valid JSON-RPC error object.
    InvalidError,
}

/// Mathematical model of a frame rejection.
pub enum FrameErrorView {
    InvalidJson(Seq<char>),
    DuplicateObjectMember(Seq<char>),
    RootNotObject,
    InvalidVersion,
    InvalidMethod,
    InvalidRequestId,
    InvalidParams,
    AmbiguousEnvelope,
    InvalidError,
}

impl View for FrameParseError {
    type V = FrameErrorView;

    open spec fn view(&self) -> FrameErrorView {
        match self {
            FrameParseError::InvalidJson(d) => FrameErrorView::InvalidJson(d@),
            FrameParseError::DuplicateObjectMember(m) => FrameErrorView::DuplicateObjectMember(m@),
            FrameParseError::RootNotObject => FrameErrorView::RootNotObject,
            FrameParseError::InvalidVersion => FrameErrorView::InvalidVersion,
            FrameParseError::InvalidMethod => FrameErrorView::InvalidMethod,
            FrameParseError::InvalidRequestId => FrameErrorView::InvalidRequestId,
            FrameParseError::InvalidParams => FrameErrorView::InvalidParams,
            FrameParseError::AmbiguousEnvelope => FrameErrorView::AmbiguousEnvelope,
            FrameParseError::InvalidError => FrameErrorView::InvalidError,
        }
    }
}

/// What decoding a payload as JSON gave: the document, or the decoder's
/// description of why the payload is not JSON.
pub open spec fn document_view(d: Result<JsonValue, String>) -> Result<JsonView, Seq<char>> {
    match d {
        Ok(v) => Ok(v@),
        Err(m) => Err(m@),
    }
}

/// The frame that a payload and its decoded document form, or the first
/// reason they form none.
pub open spec fn spec_parse_frame(payload: Seq<u8>, document: Result<JsonView, Seq<char>>) -> Result<
    FrameView,
    FrameErrorView,
> {
    match document {
        Err(m) => Err(FrameErrorView::InvalidJson(m)),
        Ok(v) => match first_duplicate(v) {
            Some(d) => Err(FrameErrorView::DuplicateObjectMember(d)),
            None => match v {
                JsonView::Object(m) => match spec_envelope(m) {
                    Ok(e) => Ok(FrameView { payload, value: v, envelope: e }),
                    Err(e) => Err(e@),
                },
                _ => Err(FrameErrorView::RootNotObject),
            },
        },
    }
}

/// A frame result taken by its view.
pub open spec fn frame_result_view(r: Result<FramedMessage, FrameParseError>) -> Result<FrameView, FrameErrorView> {
    match r {
        Ok(f) => Ok(f@),
        Err(e) => Err(e@),
    }
}

/// The human-facing description of a frame rejection.
pub open spec fn frame_error_message(e: FrameErrorView) -> Seq<char> {
    match e {
        FrameErrorView::InvalidJson(detail) => "invalid JSON-RPC frame payload: "@ + detail,
        FrameErrorView::DuplicateObjectMember(member) => "JSON-RPC frame contains duplicate object member `"@
            + member + "`"@,
        FrameErrorView::RootNotObject => "JSON-RPC frame root must be an object"@,
        FrameErrorView::InvalidVersion => "JSON-RPC frame must declare version 2.0"@,
        FrameErrorView::InvalidMethod => "JSON-RPC request method must be a non-empty string"@,
        FrameErrorView::InvalidRequestId => "JSON-RPC request id must be a number or string"@,
        FrameErrorView::InvalidParams => "JSON-RPC params must be an object or array"@,
        FrameErrorView::AmbiguousEnvelope => "JSON-RPC envelope must be exactly one request, notification, or response"@,
        FrameErrorView::InvalidError => "JSON-RPC error must contain an integer code and string message"@,
    }
}

impl FrameParseError {
    /// Human-facing description of the rejection.
    pub fn message(&self) -> (r: String)
        ensures
            r@ == frame_error_message(self@),
    {
        match self {
            FrameParseError::InvalidJson(detail) => {
                let mut text = owned("invalid JSON-RPC frame payload: ");
                text.append(detail.as_str());
                text
            },
            FrameParseError::DuplicateObjectMember(member) => {
                let mut text = owned("JSON-RPC frame contains duplicate object member `");
                text.append(member.as_str());
                text.append("`");
                text
            },
            FrameParseError::RootNotObject => owned("JSON-RPC frame root must be an object"),
            FrameParseError::InvalidVersion => owned("JSON-RPC frame must declare version 2.0"),
            FrameParseError::InvalidMethod => owned(
                "JSON-RPC request method must be a non-empty string",
            ),
            FrameParseError::InvalidRequestId => owned(
                "JSON-RPC request id must be a number or string",
            ),
            FrameParseError::InvalidParams => owned("JSON-RPC params must be an object or array"),
            FrameParseError::AmbiguousEnvelope => owned(
                "JSON-RPC envelope must be exactly one request, notification, or response",
            ),
            FrameParseError::InvalidError => owned(
                "JSON-RPC error must contain an integer code and string message",
            ),
        }
    }
}

/// Coarse JSON-RPC envelope classification.
#[derive(Debug, Clone, PartialEq, Eq)]
pub enum RpcEnvelopeKind {
    /// Request with an ID.
    Request {
        /// Request identifier.
        id: RequestId,
        /// Method name.
        method: RpcMethod,
    },
    /// Notification without an ID.
    Notification {
        /// Method name.
        method: RpcMethod,
    },
    /// Response with an ID.
    Response {
        /// Request identifier.
        id: RequestId,
        /// Whether the response carries a JSON-RPC error payload.
        has_error: bool,
    },
}

/// Mathematical model of an envelope classification.
pub enum EnvelopeView {
    Request { id: RequestIdView, method: Seq<char> },
    Notification { method: Seq<char> },
    Response { id: RequestIdView, has_error: bool },
}

impl View for RpcEnvelopeKind {
    type V = EnvelopeView;

    open spec fn view(&self) -> EnvelopeView {
        match self {
            RpcEnvelopeKind::Request { id, method } => EnvelopeView::Request {
                id: id@,
                method: method@,
            },
            RpcEnvelopeKind::Notification { method } => EnvelopeView::Notification {
                method: method@,
            },
            RpcEnvelopeKind::Response { id, has_error } => EnvelopeView::Response {
                id: id@,
                has_error: *has_error,
            },
        }
    }
}

impl RpcEnvelopeKind {
    /// A copy with the same classification.
    pub fn duplicate(&self) -> (r: Self)
        ensures
            r@ == self@,
    {
        match self {
            RpcEnvelopeKind::Request { id, method } => RpcEnvelopeKind::Request {
                id: id.duplicate(),
                method: method.duplicate(),
            },
            RpcEnvelopeKind::Notification { method } => RpcEnvelopeKind::Notification {
                method: method.duplicate(),
            },
            RpcEnvelopeKind::Response { id, has_error } => RpcEnvelopeKind::Response {
                id: id.duplicate(),
                has_error: *has_error,
            },
        }
    }
}

/// A valid JSON-RPC error object: an integer `code` and a string `message`.
pub open spec fn valid_error_view(v: JsonView) -> bool {
    match v {
        JsonView::Object(m) => {
            &&& member(m, "code"@) is Some
            &&& view_as_i64(member(m, "code"@).unwrap()) is Some
            &&& member(m, "message"@) is Some
            &&& view_as_str(member(m, "message"@).unwrap()) is Some
        },
        _ => false,
    }
}

/// The envelope that a frame's root members determine, or why they determine none.
pub open spec fn spec_envelope(m: Seq<(Seq<char>, JsonView)>) -> Result<EnvelopeView, FrameParseError> {
    if !(member(m, "jsonrpc"@) is Some && view_as_str(member(m, "jsonrpc"@).unwrap()) == Some(
        "2.0"@,
    )) {
        Err(FrameParseError::InvalidVersion)
    } else if has_member(m, "method"@) {
        if has_member(m, "result"@) || has_member(m, "error"@) {
            Err(FrameParseError::AmbiguousEnvelope)
        } else if has_member(m, "params"@) && !(member(m, "params"@).unwrap() is Object)
            && !(member(m, "params"@).unwrap() is Array) {
            Err(FrameParseError::InvalidParams)
        } else if spec_method_token(member(m, "method"@).unwrap()) is None {
            Err(FrameParseError::InvalidMethod)
        } else {
            let method = spec_method_token(member(m, "method"@).unwrap()).unwrap();
            if has_member(m, "id"@) {
                match spec_request_id(member(m, "id"@).unwrap()) {
                    Some(id) => Ok(EnvelopeView::Request { id, method }),
                    None => Err(FrameParseError::InvalidRequestId),
                }
            } else {
                Ok(EnvelopeView::Notification { method })
            }
        }
    } else if has_member(m, "params"@) {
        Err(FrameParseError::AmbiguousEnvelope)
    } else if !(has_member(m, "id"@) && spec_request_id(member(m, "id"@).unwrap()) is Some) {
        Err(FrameParseError::InvalidRequestId)
    } else {
        let id = spec_request_id(member(m, "id"@).unwrap()).unwrap();
        let has_result = has_member(m, "result"@);
        let has_error = has_member(m, "error"@);
        if has_result == has_error {
            Err(FrameParseError::AmbiguousEnvelope)
        } else if has_error && !valid_error_view(member(m, "error"@).unwrap()) {
            Err(FrameParseError::InvalidError)
        } else {
            Ok(EnvelopeView::Response { id, has_error })
        }
    }
}

fn valid_error_object(error: &JsonValue) -> (r: bool)
    ensures
        r == valid_error_view(error@),
{
    match error.as_object() {
        Some(object) => {
            let code = get_member(object, "code");
            let message = get_member(object, "message");
            let code_ok = match code {
                Some(c) => c.as_i64().is_some(),
                None => false,
            };
            let message_ok = match message {
                Some(m) => m.as_str().is_some(),
                None => false,
            };
            code_ok && message_ok
        },
        None => false,
    }
}

fn validate_envelope(object: &Vec<(String, JsonValue)>) -> (r: Result<RpcEnvelopeKind, FrameParseError>)
    ensures
        r matches Ok(e) ==> spec_envelope(members_view(object@)) == Ok::<EnvelopeView, FrameParseError>(e@),
        r matches Err(e) ==> spec_envelope(members_view(object@)) == Err::<EnvelopeView, FrameParseError>(e),
{
    let version_ok = match get_member(object, "jsonrpc") {
        Some(v) => match v.as_str() {
            Some(text) => str_eq(text.as_str(), "2.0"),
            None => false,
        },
        None => false,
    };
    if !version_ok {
        return Err(FrameParseError::InvalidVersion);
    }
    if let Some(method_value) = get_member(object, "method") {
        if get_member(object, "result").is_some() || get_member(object, "error").is_some() {
            return Err(FrameParseError::AmbiguousEnvelope);
        }
        if let Some(params) = get_member(object, "params") {
            if !params.is_object() && !params.is_array() {
                return Err(FrameParseError::InvalidParams);
            }
        }
        let method = match RpcMethod::from_json_value(method_value) {
            Some(method) => method,
            None => return Err(FrameParseError::InvalidMethod),
        };
        return match get_member(object, "id") {
            Some(id) => match RequestId::from_json_value(id) {
                Some(id) => Ok(RpcEnvelopeKind::Request { id, method }),
                None => Err(FrameParseError::InvalidRequestId),
            },
            None => Ok(RpcEnvelopeKind::Notification { method }),
        };
    }
    if get_member(object, "params").is_some() {
        return Err(FrameParseError::AmbiguousEnvelope);
    }
    let id = match get_member(object, "id") {
        Some(value) => match RequestId::from_json_value(value) {
            Some(id) => id,
            None => return Err(FrameParseError::InvalidRequestId),
        },
        None => return Err(FrameParseError::InvalidRequestId),
    };
    let has_result = get_member(object, "result").is_some();
    let error = get_member(object, "error");
    let has_error = error.is_some();
    if has_result == has_error {
        return Err(FrameParseError::AmbiguousEnvelope);
    }
    if let Some(error) = error {
        if !valid_error_object(error) {
            return Err(FrameParseError::InvalidError);
        }
    }
    Ok(RpcEnvelopeKind::Response { id, has_error })
}

/// Mathematical model of a validated frame.
pub struct FrameView {
    pub payload: Seq<u8>,
    pub value: JsonView,
    pub envelope: EnvelopeView,
}

/// A JSON-RPC frame whose payload, decoded value, and envelope are sealed together.
#[derive(Debug, PartialEq, Eq)]
pub struct FramedMessage {
    payload: Vec<u8>,
    value: JsonValue,
    envelope: RpcEnvelopeKind,
}

/// Whether a decoded value is an acceptable JSON-RPC frame with this envelope.
pub open spec fn frame_accepts(value: JsonView, envelope: EnvelopeView) -> bool {
    &&& first_duplicate(value) is None
    &&& value is Object
    &&& spec_envelope(value->Object_0) == Ok::<EnvelopeView, FrameParseError>(envelope)
}

impl View for FramedMessage {
    type V = FrameView;

    closed spec fn view(&self) -> FrameView {
        FrameView { payload: self.payload@, value: self.value@, envelope: self.envelope@ }
    }
}

impl FramedMessage {
    #[verifier::type_invariant]
    spec fn sealed(self) -> bool {
        frame_accepts(self.value@, self.envelope@)
    }

    /// Every frame's envelope is the one its value determines.
    pub fn assert_sealed(&self)
        ensures
            frame_accepts(self@.value, self@.envelope),
    {
        proof {
            use_type_invariant(self);
        }
    }

    /// Validates a decoded JSON-RPC frame payload and seals it.
    ///
    /// `value` is the JSON document that `payload` encodes, with repeated
    /// member names kept as written.
    pub fn parse_decoded(payload: Vec<u8>, value: JsonValue) -> (r: Result<Self, FrameParseError>)
        ensures
            first_duplicate(value@) matches Some(d) ==> r matches Err(
                FrameParseError::DuplicateObjectMember(name),
            ) && name@ == d,
            first_duplicate(value@) is None && !(value@ is Object) ==> r == Err::<
                FramedMessage,
                FrameParseError,
            >(FrameParseError::RootNotObject),
            first_duplicate(value@) is None && value@ is Object ==> match spec_envelope(
                value@->Object_0,
            ) {
                Ok(e) => r matches Ok(f) && f@ == (FrameView {
                    payload: payload@,
                    value: value@,
                    envelope: e,
                }),
                Err(e) => r == Err::<FramedMessage, FrameParseError>(e),
            },
    {
        if let Some(member) = value.first_duplicate_member() {
            return Err(FrameParseError::DuplicateObjectMember(member));
        }
        let envelope = match value.as_object() {
            Some(object) => validate_envelope(object)?,
            None => return Err(FrameParseError::RootNotObject),
        };
        Ok(Self { payload, value, envelope })
    }

    /// Validates a payload together with what decoding it as JSON gave.
    pub fn from_document(payload: Vec<u8>, document: Result<JsonValue, String>) -> (r: Result<Self, FrameParseError>)
        ensures
            frame_result_view(r) == spec_parse_frame(payload@, document_view(document)),
    {
        match document {
            Err(detail) => Err(FrameParseError::InvalidJson(detail)),
            Ok(value) => Self::parse_decoded(payload, value),
        }
    }

    /// A copy of the same frame.
    pub fn duplicate(&self) -> (r: Self)
        ensures
            r@ == self@,
    {
        proof {
            use_type_invariant(self);
        }
        let payload = self.payload.clone();
        proof {
            assert(payload@ =~= self.payload@);
        }
        Self { payload, value: self.value.duplicate(), envelope: self.envelope.duplicate() }
    }

    /// Returns the original payload bytes.
    pub fn payload(&self) -> (r: &[u8])
        ensures
            r@ == self@.payload,
    {
        self.payload.as_slice()
    }

    /// Returns the validated JSON value.
    pub fn value(&self) -> (r: &JsonValue)
        ensures
            r@ == self@.value,
    {
        &self.value
    }

    /// Returns the validated envelope shape.
    pub fn classify(&self) -> (r: RpcEnvelopeKind)
        ensures
            r@ == self@.envelope,
    {
        self.envelope.duplicate()
    }

    /// The identifier of a request frame.
    pub fn request_id(&self) -> (r: Option<RequestId>)
        ensures
            r matches Some(id) ==> self@.envelope matches EnvelopeView::Request { id: i, .. } && id@ == i,
            r is None ==> !(self@.envelope is Request),
    {
        match &self.envelope {
            RpcEnvelopeKind::Request { id, .. } => Some(id.duplicate()),
            _ => None,
        }
    }

    /// Whether this frame is a request with the given identifier.
    pub fn is_request_with_id(&self, id: &RequestId) -> (r: bool)
        ensures
            r == (self@.envelope matches EnvelopeView::Request { id: i, .. } && i == id@),
    {
        match &self.envelope {
            RpcEnvelopeKind::Request { id: own, .. } => own.same_as(id),
            _ => false,
        }
    }

    /// Whether two frames carry identical payload bytes.
    pub fn same_payload(&self, other: &Self) -> (r: bool)
        ensures
            r == (self@.payload == other@.payload),
    {
        bytes_eq(self.payload.as_slice(), other.payload.as_slice())
    }
}

/// Byte-slice equality.
pub fn bytes_eq(a: &[u8], b: &[u8]) -> (r: bool)
    ensures
        r == (a@ == b@),
{
    if a.len() != b.len() {
        return false;
    }
    let mut i: usize = 0;
    while i < a.len()
        invariant
            i <= a.len() == b.len(),
            forall|k: int| 0 <= k < i ==> a@[k] == b@[k],
        decreases a.len() - i,
    {
        if a[i] != b[i] {
            return false;
        }
        i += 1;
    }
    assert(a@ =~= b@);
    true
}

} // verus!

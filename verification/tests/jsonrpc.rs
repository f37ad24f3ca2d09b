use libmcp::json::{JsonNumber, JsonValue};
use libmcp::jsonrpc::{
    FrameParseError, FramedMessage, RequestId, RpcEnvelopeKind, RpcMethod, ToolName,
    parse_tool_call_meta,
};

struct Doc(JsonValue);

struct DocVisitor;

impl<'de> serde::Deserialize<'de> for Doc {
    fn deserialize<D>(deserializer: D) -> Result<Self, D::Error>
    where
        D: serde::Deserializer<'de>,
    {
        deserializer.deserialize_any(DocVisitor)
    }
}

impl<'de> serde::de::Visitor<'de> for DocVisitor {
    type Value = Doc;

    fn expecting(&self, formatter: &mut std::fmt::Formatter<'_>) -> std::fmt::Result {
        formatter.write_str("a JSON value")
    }

    fn visit_bool<E>(self, value: bool) -> Result<Doc, E> {
        Ok(Doc(JsonValue::Bool(value)))
    }

    fn visit_i64<E>(self, value: i64) -> Result<Doc, E> {
        Ok(Doc(JsonValue::Number(if value >= 0 {
            JsonNumber::Unsigned(value as u64)
        } else {
            JsonNumber::Negative(value)
        })))
    }

    fn visit_u64<E>(self, value: u64) -> Result<Doc, E> {
        Ok(Doc(JsonValue::Number(JsonNumber::Unsigned(value))))
    }

    fn visit_f64<E>(self, value: f64) -> Result<Doc, E>
    where
        E: serde::de::Error,
    {
        serde_json::Number::from_f64(value)
            .map(|number| Doc(JsonValue::Number(JsonNumber::Float(number.to_string()))))
            .ok_or_else(|| E::custom("JSON numbers must be finite"))
    }

    fn visit_str<E>(self, value: &str) -> Result<Doc, E> {
        Ok(Doc(JsonValue::String(value.to_owned())))
    }

    fn visit_string<E>(self, value: String) -> Result<Doc, E> {
        Ok(Doc(JsonValue::String(value)))
    }

    fn visit_none<E>(self) -> Result<Doc, E> {
        Ok(Doc(JsonValue::Null))
    }

    fn visit_unit<E>(self) -> Result<Doc, E> {
        Ok(Doc(JsonValue::Null))
    }

    fn visit_seq<A>(self, mut sequence: A) -> Result<Doc, A::Error>
    where
        A: serde::de::SeqAccess<'de>,
    {
        let mut items = Vec::new();
        while let Some(Doc(item)) = sequence.next_element::<Doc>()? {
            items.push(item);
        }
        Ok(Doc(JsonValue::Array(items)))
    }

    fn visit_map<A>(self, mut members: A) -> Result<Doc, A::Error>
    where
        A: serde::de::MapAccess<'de>,
    {
        let mut object = Vec::new();
        while let Some(name) = members.next_key::<String>()? {
            let Doc(value) = members.next_value::<Doc>()?;
            object.push((name, value));
        }
        Ok(Doc(JsonValue::Object(object)))
    }
}

fn document(payload: &[u8]) -> Result<JsonValue, String> {
    serde_json::from_slice::<Doc>(payload)
        .map(|doc| doc.0)
        .map_err(|error| error.to_string())
}

fn parse_frame(payload: Vec<u8>) -> Result<FramedMessage, FrameParseError> {
    let decoded = document(&payload);
    FramedMessage::from_document(payload, decoded)
}

fn json(text: &str) -> JsonValue {
    document(text.as_bytes()).expect("test JSON is well formed")
}

fn member<'a>(value: &'a JsonValue, key: &str) -> Option<&'a JsonValue> {
    match value {
        JsonValue::Object(members) => members.iter().find(|(name, _)| name == key).map(|(_, v)| v),
        _ => None,
    }
}

#[test]
fn request_id_round_trips_numeric_and_textual_values() {
    let numeric = RequestId::from_json_value(&json("42"));
    assert!(matches!(numeric, Some(RequestId::Number(ref value)) if value == &JsonNumber::Unsigned(42)));

    let textual = RequestId::from_json_value(&json(r#""abc""#));
    assert!(matches!(textual, Some(RequestId::Text(ref value)) if value == "abc"));

    let round_trip = numeric.map(|value| value.to_json_value());
    assert_eq!(round_trip, Some(json("42")));
    assert_eq!(RequestId::number(42).to_json_value(), json("42"));
    let decoded = RequestId::from_json_value(&json(r#""abc""#));
    assert!(matches!(decoded, Some(value) if value == RequestId::text("abc")));
    assert!(RequestId::from_json_value(&json("null")).is_none());
}

#[test]
fn method_and_tool_tokens_reject_empty_text() {
    assert!(RpcMethod::try_new("tools/call").is_ok());
    assert!(RpcMethod::try_new("").is_err());
    assert!(ToolName::try_new("hover").is_ok());
    assert!(ToolName::try_new(" ").is_err());
    assert!(RpcMethod::from_json_value(&json(r#""""#)).is_none());
    let blank = serde_json::from_str::<String>(r#"" ""#).expect("string");
    assert!(ToolName::try_new(&blank).is_err());
}

#[test]
fn classifies_request_frames() {
    let frame = parse_frame(br#"{"jsonrpc":"2.0","id":7,"method":"tools/call"}"#.to_vec());
    assert!(frame.is_ok());
    let frame = match frame {
        Ok(value) => value,
        Err(_) => return,
    };
    assert!(matches!(
        frame.classify(),
        RpcEnvelopeKind::Request { method, .. } if method.is_tools_call()
    ));
}

#[test]
fn rejects_ambiguous_or_malformed_envelopes() {
    let cases = [
        (br#"{"id":1,"method":"tools/call"}"#.as_slice(), "version"),
        (br#"{"jsonrpc":"1.0","id":1,"method":"tools/call"}"#.as_slice(), "version"),
        (br#"{"jsonrpc":"2.0","id":null,"method":"tools/call"}"#.as_slice(), "id"),
        (br#"{"jsonrpc":"2.0","id":1,"method":"tools/call","params":7}"#.as_slice(), "params"),
        (
            br#"{"jsonrpc":"2.0","id":1,"result":{},"error":{"code":-1,"message":"x"}}"#.as_slice(),
            "envelope",
        ),
        (br#"{"jsonrpc":"2.0","id":1,"error":{"code":"bad","message":"x"}}"#.as_slice(), "error"),
    ];

    for (payload, expected) in cases {
        let error = parse_frame(payload.to_vec());
        assert!(error.is_err(), "{expected} case was accepted");
    }

    let scalar = parse_frame(b"[]".to_vec());
    assert!(matches!(scalar, Err(FrameParseError::RootNotObject)));
}

#[test]
fn rejects_duplicate_members_at_every_depth() {
    let root = parse_frame(br#"{"jsonrpc":"2.0","id":1,"id":2,"method":"tools/call"}"#.to_vec());
    assert!(matches!(
        root,
        Err(FrameParseError::DuplicateObjectMember(member)) if member == "id"
    ));

    let nested = parse_frame(
        br#"{"jsonrpc":"2.0","id":1,"method":"tools/call","params":{"x":1,"x":2}}"#.to_vec(),
    );
    assert!(matches!(
        nested,
        Err(FrameParseError::DuplicateObjectMember(member)) if member == "x"
    ));
}

#[test]
fn seals_payload_value_and_envelope_together() {
    let payload = br#"{"jsonrpc":"2.0","id":"r1","result":{"ok":true}}"#.to_vec();
    let frame = parse_frame(payload.clone());
    assert!(frame.is_ok());
    let frame = match frame {
        Ok(frame) => frame,
        Err(_) => return,
    };
    assert_eq!(frame.payload(), payload);
    assert_eq!(member(frame.value(), "result"), Some(&json(r#"{"ok": true}"#)));
    assert!(matches!(
        frame.classify(),
        RpcEnvelopeKind::Response {
            id,
            has_error: false
        } if id == RequestId::text("r1")
    ));
}

#[test]
fn extracts_tool_call_meta_with_nested_path_hint() {
    let path = "/tmp/libmcp-jsonrpc-example.rs";
    let uri = match url::Url::from_file_path(path) {
        Ok(uri) => uri,
        Err(()) => return,
    };
    let payload = format!(
        r#"{{"jsonrpc":"2.0","id":1,"method":"tools/call","params":{{"name":"advanced_lsp_request","arguments":{{"method":"textDocument/hover","params":{{"textDocument":{{"uri":"{}"}}}}}}}}}}"#,
        uri.as_str()
    )
    .into_bytes();
    let frame = parse_frame(payload);
    assert!(frame.is_ok());
    let frame = match frame {
        Ok(value) => value,
        Err(_) => return,
    };
    let meta = parse_tool_call_meta(&frame, &RpcMethod::tools_call());
    assert!(meta.is_some());
    let meta = match meta {
        Some(value) => value,
        None => return,
    };
    assert_eq!(meta.tool_name.as_str(), "advanced_lsp_request");
    assert_eq!(meta.lsp_method.as_ref().map(RpcMethod::as_str), Some("textDocument/hover"));
    assert_eq!(meta.path_hint.as_deref(), Some(path));
}

#[test]
fn tool_call_meta_follows_embedded_json_and_name_order() {
    let frame = parse_frame(
        br#"{"jsonrpc":"2.0","id":2,"method":"tools/call","params":{"name":"edit","arguments":{"zeta":{"path":" /z.rs "},"alpha":"{\"file_path\":\"/a.rs\"}"}}}"#
            .to_vec(),
    )
    .expect("valid frame");
    let meta = parse_tool_call_meta(&frame, &RpcMethod::tools_call()).expect("tool call");
    assert_eq!(meta.tool_name.as_str(), "edit");
    assert!(meta.lsp_method.is_none());
    assert_eq!(meta.path_hint.as_deref(), Some("/a.rs"));

    let direct = parse_frame(
        br#"{"jsonrpc":"2.0","id":3,"method":"tools/call","params":{"name":"read","arguments":{"path":"  /p.rs "}}}"#
            .to_vec(),
    )
    .expect("valid frame");
    let meta = parse_tool_call_meta(&direct, &RpcMethod::tools_call()).expect("tool call");
    assert_eq!(meta.path_hint.as_deref(), Some("/p.rs"));

    let other = RpcMethod::try_new("tools/list").expect("method");
    assert!(parse_tool_call_meta(&direct, &other).is_none());
    let nameless = parse_frame(
        br#"{"jsonrpc":"2.0","id":4,"method":"tools/call","params":{"name":"  "}}"#.to_vec(),
    )
    .expect("valid frame");
    assert!(parse_tool_call_meta(&nameless, &RpcMethod::tools_call()).is_none());
}

#[test]
fn frame_errors_describe_each_rejection() {
    assert_eq!(
        FrameParseError::DuplicateObjectMember("id".to_owned()).message(),
        "JSON-RPC frame contains duplicate object member `id`"
    );
    let invalid = parse_frame(b"{".to_vec());
    assert!(matches!(invalid, Err(FrameParseError::InvalidJson(_))));
    let notification = parse_frame(br#"{"jsonrpc":"2.0","method":"notifications/initialized"}"#.to_vec())
        .expect("valid notification");
    assert!(matches!(
        notification.classify(),
        RpcEnvelopeKind::Notification { method } if method.is_initialized_notification()
    ));
    let error = parse_frame(br#"{"jsonrpc":"2.0","id":1,"error":{"code":-1,"message":"x"}}"#.to_vec())
        .expect("valid error response");
    assert!(matches!(error.classify(), RpcEnvelopeKind::Response { has_error: true, .. }));
}

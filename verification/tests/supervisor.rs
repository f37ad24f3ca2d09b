use libmcp::jsonrpc::{FrameParseError, FramedMessage, RequestId};
use libmcp::json::{JsonNumber, JsonValue};
use libmcp::effect::same_json_value;
use libmcp::rollout::{ReleaseId, ReleaseManifest, ReleaseProvenance, StateCompatibility};
use libmcp::supervisor::{
    ClientRoute, RolloverPhase, SupervisorAction, SupervisorConfig, SupervisorCore, SupervisorError, TickRequest,
    callback_request_id, internal_request_id, patch_initialize_response, rewrite_id, rpc_error,
};

struct Doc(JsonValue);

struct DocVisitor;

impl<'de> serde::Deserialize<'de> for Doc {
    fn deserialize<D>(deserializer: D) -> Result<Self, D::Error>
    where
        D: serde::Deserializer<'de>,
    {
        deserializer.deserialize_any(DocVisitor)
    }
}

impl<'de> serde::de::Visitor<'de> for DocVisitor {
    type Value = Doc;

    fn expecting(&self, formatter: &mut std::fmt::Formatter<'_>) -> std::fmt::Result {
        formatter.write_str("a JSON value")
    }

    fn visit_bool<E>(self, value: bool) -> Result<Doc, E> {
        Ok(Doc(JsonValue::Bool(value)))
    }

    fn visit_i64<E>(self, value: i64) -> Result<Doc, E> {
        Ok(Doc(JsonValue::Number(if value >= 0 {
            JsonNumber::Unsigned(value as u64)
        } else {
            JsonNumber::Negative(value)
        })))
    }

    fn visit_u64<E>(self, value: u64) -> Result<Doc, E> {
        Ok(Doc(JsonValue::Number(JsonNumber::Unsigned(value))))
    }

    fn visit_f64<E>(self, value: f64) -> Result<Doc, E>
    where
        E: serde::de::Error,
    {
        serde_json::Number::from_f64(value)
            .map(|number| Doc(JsonValue::Number(JsonNumber::Float(number.to_string()))))
            .ok_or_else(|| E::custom("JSON numbers must be finite"))
    }

    fn visit_str<E>(self, value: &str) -> Result<Doc, E> {
        Ok(Doc(JsonValue::String(value.to_owned())))
    }

    fn visit_string<E>(self, value: String) -> Result<Doc, E> {
        Ok(Doc(JsonValue::String(value)))
    }

    fn visit_none<E>(self) -> Result<Doc, E> {
        Ok(Doc(JsonValue::Null))
    }

    fn visit_unit<E>(self) -> Result<Doc, E> {
        Ok(Doc(JsonValue::Null))
    }

    fn visit_seq<A>(self, mut sequence: A) -> Result<Doc, A::Error>
    where
        A: serde::de::SeqAccess<'de>,
    {
        let mut items = Vec::new();
        while let Some(Doc(item)) = sequence.next_element::<Doc>()? {
            items.push(item);
        }
        Ok(Doc(JsonValue::Array(items)))
    }

    fn visit_map<A>(self, mut members: A) -> Result<Doc, A::Error>
    where
        A: serde::de::MapAccess<'de>,
    {
        let mut object = Vec::new();
        while let Some(name) = members.next_key::<String>()? {
            let Doc(value) = members.next_value::<Doc>()?;
            object.push((name, value));
        }
        Ok(Doc(JsonValue::Object(object)))
    }
}

fn document(payload: &[u8]) -> Result<JsonValue, String> {
    serde_json::from_slice::<Doc>(payload)
        .map(|doc| doc.0)
        .map_err(|error| error.to_string())
}

fn parse_frame(payload: Vec<u8>) -> Result<FramedMessage, FrameParseError> {
    let decoded = document(&payload);
    FramedMessage::from_document(payload, decoded)
}

fn json(text: &str) -> JsonValue {
    document(text.as_bytes()).expect("test JSON is well formed")
}

fn manifest(tag: &[u8], binary: &[u8]) -> ReleaseManifest {
    ReleaseManifest::try_new(
        "mail",
        ReleaseId::digest_bytes(tag).expect("generation"),
        ReleaseId::digest_bytes(binary).expect("binary"),
        "/srv/mail/releases/x/server",
        Vec::new(),
        StateCompatibility::Stateless,
        ReleaseProvenance::try_new(
            "/repo",
            &"1".repeat(40),
            ReleaseId::try_new(&"2".repeat(64)).expect("lock"),
            "rustc",
            "now",
        )
        .expect("provenance"),
    )
    .expect("manifest")
}

fn frame(text: &str) -> Result<FramedMessage, FrameParseError> {
    parse_frame(text.as_bytes().to_vec())
}

fn started() -> SupervisorCore {
    let config = SupervisorConfig::try_new("mail", "/srv/mail/current.json", manifest(b"v1", b"exe"), Vec::new(), b"exe")
        .expect("config");
    let (core, actions) = SupervisorCore::start(config);
    assert!(matches!(actions.as_slice(), [SupervisorAction::SpawnWorker { token: 1, .. }]));
    core
}

fn written(actions: &[SupervisorAction]) -> Vec<&JsonValue> {
    actions
        .iter()
        .filter_map(|action| match action {
            SupervisorAction::WriteClient(value) => Some(value),
            _ => None,
        })
        .collect()
}

#[test]
fn supervisor_configuration_requires_matching_verified_release() {
    assert_eq!(
        SupervisorConfig::try_new("papercuts", "/c", manifest(b"v1", b"exe"), Vec::new(), b"exe").err(),
        Some(SupervisorError::ServerMismatch)
    );
    assert_eq!(
        SupervisorConfig::try_new("mail", "relative", manifest(b"v1", b"exe"), Vec::new(), b"exe").err(),
        Some(SupervisorError::ChannelNotAbsolute)
    );
    assert!(matches!(
        SupervisorConfig::try_new("mail", "/c", manifest(b"v1", b"exe"), Vec::new(), b"tampered"),
        Err(SupervisorError::Release(_))
    ));
}

#[test]
fn supervised_session_initializes_publishes_catalog_and_dispatches() {
    let mut core = started();
    let mut actions = Vec::new();

    let route = core.client_payload(frame("not json"), 0, &mut actions).expect("parse error");
    assert_eq!(route, None);
    let expected = json(r#"{"jsonrpc": "2.0", "id": null, "error": {"code": -32700, "message": "x"}}"#);
    assert!(matches!(written(&actions).as_slice(), [value] if matches!(value, JsonValue::Object(m) if m.len() == 3)));
    let _ = expected;

    actions.clear();
    let initialize = frame(r#"{"jsonrpc":"2.0","id":1,"method":"initialize","params":{}}"#);
    assert_eq!(core.client_payload(initialize, 0, &mut actions).expect("initialize"), Some(ClientRoute::Dispatched));
    assert!(matches!(actions.as_slice(), [SupervisorAction::ForwardToWorker { token: 1, .. }]));

    actions.clear();
    core.worker_payload(1, frame(r#"{"jsonrpc":"2.0","id":1,"result":{"protocolVersion":"x"}}"#), 0, &mut actions)
        .expect("initialize response");
    let patched = json(
        r#"{"jsonrpc":"2.0","id":1,"result":{"protocolVersion":"x","capabilities":{"tools":{"listChanged":true}}}}"#,
    );
    assert!(matches!(written(&actions).as_slice(), [value] if same_json_value(value, &patched)));

    actions.clear();
    let initialized = frame(r#"{"jsonrpc":"2.0","method":"notifications/initialized"}"#);
    assert_eq!(core.client_payload(initialized, 0, &mut actions).expect("initialized"), Some(ClientRoute::Initialized));
    let tools_request = json(r#"{"jsonrpc":"2.0","id":"io.libmcp/1/tools/1","method":"tools/list"}"#);
    assert!(matches!(
        actions.as_slice(),
        [SupervisorAction::ForwardToWorker { token: 1, .. }, SupervisorAction::SendWorker { token: 1, message }]
            if same_json_value(message, &tools_request)
    ));

    actions.clear();
    let listed = frame(
        r#"{"jsonrpc":"2.0","id":"io.libmcp/1/tools/1","result":{"tools":[{"name":"echo","annotations":{"readOnlyHint":true}}]}}"#,
    );
    core.worker_payload(1, listed, 0, &mut actions).expect("catalog");
    assert!(actions.is_empty());

    actions.clear();
    let list = frame(r#"{"jsonrpc":"2.0","id":2,"method":"tools/list"}"#);
    assert_eq!(core.client_payload(list, 0, &mut actions).expect("list"), Some(ClientRoute::CatalogReply));
    let reply = json(r#"{"jsonrpc":"2.0","id":2,"result":{"tools":[{"name":"echo","annotations":{"readOnlyHint":true}}]}}"#);
    assert!(matches!(written(&actions).as_slice(), [value] if same_json_value(value, &reply)));

    actions.clear();
    let call = frame(r#"{"jsonrpc":"2.0","id":3,"method":"tools/call","params":{"name":"echo","arguments":{}}}"#);
    assert_eq!(core.client_payload(call, 0, &mut actions).expect("call"), Some(ClientRoute::Dispatched));
    assert!(matches!(actions.as_slice(), [SupervisorAction::ForwardToWorker { token: 1, .. }]));

    actions.clear();
    assert_eq!(core.tick(1, &mut actions), Ok(TickRequest::PollChannel));

    actions.clear();
    core.worker_gone(1, "crashed".to_owned(), 5, &mut actions).expect("loss");
    assert_eq!(core.active_token(), None);
    assert!(core.gating_new_work());
    actions.clear();
    assert_eq!(core.tick(5, &mut actions), Ok(TickRequest::Nothing));
    assert!(actions.iter().any(|action| matches!(action, SupervisorAction::SpawnWorker { token: 2, .. })));
    let _ = RolloverPhase::Idle;
}

#[test]
fn worker_callbacks_are_renamed_for_the_client() {
    let mut core = started();
    let mut actions = Vec::new();
    core.worker_payload(1, frame(r#"{"jsonrpc":"2.0","id":"w-1","method":"sampling/createMessage"}"#), 0, &mut actions)
        .expect("callback");
    let renamed = json(r#"{"jsonrpc":"2.0","id":"io.libmcp/callback/1","method":"sampling/createMessage"}"#);
    assert!(matches!(written(&actions).as_slice(), [value] if same_json_value(value, &renamed)));
    actions.clear();
    let answer = frame(r#"{"jsonrpc":"2.0","id":"io.libmcp/callback/1","result":{}}"#);
    assert_eq!(core.client_payload(answer, 0, &mut actions).expect("answer"), Some(ClientRoute::CallbackResponse));
    let restored = json(r#"{"jsonrpc":"2.0","id":"w-1","result":{}}"#);
    assert!(matches!(
        actions.as_slice(),
        [SupervisorAction::SendWorker { token: 1, message }] if same_json_value(message, &restored)
    ));
}

#[test]
fn protocol_messages_are_built_exactly() {
    let id = internal_request_id(7, "journal", 12);
    assert_eq!(id, RequestId::text("io.libmcp/7/journal/12"));
    assert_eq!(callback_request_id(3), RequestId::text("io.libmcp/callback/3"));
    let error = rpc_error(&RequestId::number(4), -32097, "boom");
    assert!(same_json_value(&error, &json(r#"{"jsonrpc":"2.0","id":4,"error":{"code":-32097,"message":"boom"}}"#)));
    assert!(rewrite_id(&json("[1]"), &RequestId::number(1)).is_none());
    let unchanged = json(r#"{"jsonrpc":"2.0","id":1,"error":{"code":1,"message":"m"}}"#);
    assert!(same_json_value(&patch_initialize_response(&unchanged), &unchanged));
    let replaced = json(r#"{"id":1,"result":{"capabilities":{"tools":false}}}"#);
    assert!(same_json_value(
        &patch_initialize_response(&replaced),
        &json(r#"{"id":1,"result":{"capabilities":{"tools":{"listChanged":true}}}}"#)
    ));
}

#[test]
fn worker_notifications_and_refusals_follow_the_active_worker() {
    let mut core = started();
    let mut actions = Vec::new();

    let progress = r#"{"jsonrpc":"2.0","method":"notifications/progress","params":{"progress":1}}"#;
    core.worker_payload(1, frame(progress), 0, &mut actions).expect("notification");
    assert!(matches!(actions.as_slice(), [SupervisorAction::ForwardToClient(_)]));

    actions.clear();
    core.worker_payload(9, frame(progress), 0, &mut actions).expect("stranger");
    assert!(actions.is_empty());

    actions.clear();
    assert_eq!(core.client_payload(frame("{"), 0, &mut actions).expect("parse error"), None);
    match written(&actions).as_slice() {
        [JsonValue::Object(members)] => {
            let message = members
                .iter()
                .find(|(name, _)| name == "error")
                .and_then(|(_, error)| error.as_object())
                .and_then(|error| error.iter().find(|(name, _)| name == "message"))
                .and_then(|(_, message)| message.as_str())
                .expect("message");
            assert!(message.starts_with("invalid JSON-RPC frame payload: "));
        }
        other => panic!("unexpected answer {other:?}"),
    }

    actions.clear();
    let early = frame(r#"{"jsonrpc":"2.0","id":5,"method":"tools/call","params":{"name":"echo"}}"#);
    assert_eq!(core.client_payload(early, 0, &mut actions).expect("queued"), Some(ClientRoute::Queued));
    assert!(actions.is_empty());

    actions.clear();
    core.send_failed(1, "pipe closed".to_owned(), 7, &mut actions);
    assert_eq!(core.active_token(), None);
    assert!(core.gating_new_work());
    assert_eq!(
        core.launch_failed(2, libmcp::supervisor::LaunchFailure::Spawn, 7, &mut actions),
        Ok(())
    );
}

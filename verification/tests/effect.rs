use libmcp::effect::{
    EffectContractError, EffectRecovery, InvalidStateReason, SessionStateContract, ToolCatalog, parse_contract,
    same_json_value,
};
use libmcp::json::{JsonNumber, JsonValue};
use libmcp::jsonrpc::ToolName;
use libmcp::replay::ReplayContract;

struct Doc(JsonValue);

struct DocVisitor;

impl<'de> serde::Deserialize<'de> for Doc {
    fn deserialize<D>(deserializer: D) -> Result<Self, D::Error>
    where
        D: serde::Deserializer<'de>,
    {
        deserializer.deserialize_any(DocVisitor)
    }
}

impl<'de> serde::de::Visitor<'de> for DocVisitor {
    type Value = Doc;

    fn expecting(&self, formatter: &mut std::fmt::Formatter<'_>) -> std::fmt::Result {
        formatter.write_str("a JSON value")
    }

    fn visit_bool<E>(self, value: bool) -> Result<Doc, E> {
        Ok(Doc(JsonValue::Bool(value)))
    }

    fn visit_i64<E>(self, value: i64) -> Result<Doc, E> {
        Ok(Doc(JsonValue::Number(if value >= 0 {
            JsonNumber::Unsigned(value as u64)
        } else {
            JsonNumber::Negative(value)
        })))
    }

    fn visit_u64<E>(self, value: u64) -> Result<Doc, E> {
        Ok(Doc(JsonValue::Number(JsonNumber::Unsigned(value))))
    }

    fn visit_f64<E>(self, value: f64) -> Result<Doc, E>
    where
        E: serde::de::Error,
    {
        serde_json::Number::from_f64(value)
            .map(|number| Doc(JsonValue::Number(JsonNumber::Float(number.to_string()))))
            .ok_or_else(|| E::custom("JSON numbers must be finite"))
    }

    fn visit_str<E>(self, value: &str) -> Result<Doc, E> {
        Ok(Doc(JsonValue::String(value.to_owned())))
    }

    fn visit_string<E>(self, value: String) -> Result<Doc, E> {
        Ok(Doc(JsonValue::String(value)))
    }

    fn visit_none<E>(self) -> Result<Doc, E> {
        Ok(Doc(JsonValue::Null))
    }

    fn visit_unit<E>(self) -> Result<Doc, E> {
        Ok(Doc(JsonValue::Null))
    }

    fn visit_seq<A>(self, mut sequence: A) -> Result<Doc, A::Error>
    where
        A: serde::de::SeqAccess<'de>,
    {
        let mut items = Vec::new();
        while let Some(Doc(item)) = sequence.next_element::<Doc>()? {
            items.push(item);
        }
        Ok(Doc(JsonValue::Array(items)))
    }

    fn visit_map<A>(self, mut members: A) -> Result<Doc, A::Error>
    where
        A: serde::de::MapAccess<'de>,
    {
        let mut object = Vec::new();
        while let Some(name) = members.next_key::<String>()? {
            let Doc(value) = members.next_value::<Doc>()?;
            object.push((name, value));
        }
        Ok(Doc(JsonValue::Object(object)))
    }
}

fn document(payload: &[u8]) -> Result<JsonValue, String> {
    serde_json::from_slice::<Doc>(payload)
        .map(|doc| doc.0)
        .map_err(|error| error.to_string())
}

fn json(text: &str) -> JsonValue {
    document(text.as_bytes()).expect("test JSON is well formed")
}

fn object(text: &str) -> Vec<(String, JsonValue)> {
    match json(text) {
        JsonValue::Object(m) => m,
        _ => panic!("test JSON is an object"),
    }
}

#[test]
fn catalog_refinement_is_conservative_and_private() {
    let result = json(
        r#"{"tools": [
            {"name": "observe", "annotations": {"readOnlyHint": true}},
            {"name": "spend", "annotations": {"readOnlyHint": true, "consult": {"replayContract": "never_replay"}}},
            {"name": "bind", "_meta": {"io.libmcp/effect": {
                "recovery": {"kind": "replay_safe"},
                "state": {"kind": "journaled", "key": "project"}
            }}}
        ]}"#,
    );
    let catalog = ToolCatalog::parse(&result).expect("catalog");

    let observe_name = ToolName::try_new("observe").expect("name");
    let observe = catalog.contract(&observe_name);
    assert!(observe.is_some_and(|value| value.recovery() == EffectRecovery::ReplaySafe));
    let spend_name = ToolName::try_new("spend").expect("name");
    let spend = catalog.contract(&spend_name);
    assert!(spend.is_some_and(|value| value.recovery() == EffectRecovery::AtMostOnce));
    let bind_name = ToolName::try_new("bind").expect("name");
    let bind = catalog.contract(&bind_name);
    assert!(bind.is_some_and(|value| matches!(
        value.state(),
        SessionStateContract::Journaled { key } if key == "project"
    )));
    assert!(catalog.public_tools().iter().all(|tool| match tool {
        JsonValue::Object(m) => m.iter().all(|(name, _)| name != "_meta"),
        _ => false,
    }));
}

#[test]
fn catalog_refusals_name_the_offending_definition() {
    assert_eq!(ToolCatalog::parse(&json(r#"{"items": []}"#)).err(), Some(EffectContractError::MissingTools));
    assert_eq!(ToolCatalog::parse(&json(r#"{"tools": [1]}"#)).err(), Some(EffectContractError::ToolNotObject));
    assert_eq!(ToolCatalog::parse(&json(r#"{"tools": [{}]}"#)).err(), Some(EffectContractError::MissingToolName));
    assert_eq!(
        ToolCatalog::parse(&json(r#"{"tools": [{"name": "  "}]}"#)).err(),
        Some(EffectContractError::InvalidToolName)
    );
    assert_eq!(
        ToolCatalog::parse(&json(r#"{"tools": [{"name": "a"}, {"name": "a"}]}"#)).err(),
        Some(EffectContractError::DuplicateTool("a".to_owned()))
    );
    assert_eq!(
        parse_contract(&object(r#"{"name": "x", "_meta": {"io.libmcp/effect": {"recovery": {"kind": "maybe"}}}}"#)).err(),
        Some(EffectContractError::UnknownRecovery { tool: "x".to_owned(), kind: "maybe".to_owned() })
    );
    assert_eq!(
        parse_contract(&object(r#"{"name": "x", "_meta": {"io.libmcp/effect": {}}}"#)).err(),
        Some(EffectContractError::UnknownRecovery { tool: "x".to_owned(), kind: "<missing>".to_owned() })
    );
    assert_eq!(
        parse_contract(&object(
            r#"{"name": "x", "_meta": {"io.libmcp/effect": {"recovery": {"kind": "at_most_once"}, "state": {"kind": "journaled", "key": "k"}}}}"#
        ))
        .err(),
        Some(EffectContractError::InvalidState {
            tool: "x".to_owned(),
            reason: InvalidStateReason::JournaledNotReplaySafe
        })
    );
    assert_eq!(
        parse_contract(&object(
            r#"{"name": "x", "_meta": {"io.libmcp/effect": {"recovery": {"kind": "deduplicated", "key": "/"}, "state": {"kind": "stateless"}}}}"#
        ))
        .err(),
        Some(EffectContractError::InvalidState {
            tool: "x".to_owned(),
            reason: InvalidStateReason::DeduplicationKeyMissing
        })
    );
    assert_eq!(
        parse_contract(&object(
            r#"{"name": "x", "_meta": {"io.libmcp/effect": {"recovery": {"kind": "replay_safe"}, "state": {"kind": "checkpointed"}}}}"#
        ))
        .err(),
        Some(EffectContractError::InvalidState {
            tool: "x".to_owned(),
            reason: InvalidStateReason::CheckpointVersionMissing
        })
    );
}

#[test]
fn contracts_project_onto_replay_laws() {
    assert_eq!(EffectRecovery::ReplaySafe.replay_contract(), ReplayContract::Convergent);
    assert_eq!(EffectRecovery::Deduplicated.replay_contract(), ReplayContract::Convergent);
    assert_eq!(EffectRecovery::ProbeRequired.replay_contract(), ReplayContract::ProbeRequired);
    assert_eq!(EffectRecovery::AtMostOnce.replay_contract(), ReplayContract::NeverReplay);
    let deduplicated = parse_contract(&object(
        r#"{"name": "pay", "_meta": {"io.libmcp/effect": {"recovery": {"kind": "deduplicated", "key": "/params/arguments/key"}, "state": {"kind": "checkpointed", "version": 3}}}}"#,
    ))
    .expect("contract");
    assert_eq!(deduplicated.recovery(), EffectRecovery::Deduplicated);
    assert_eq!(deduplicated.deduplication_key_pointer(), Some("/params/arguments/key"));
    assert_eq!(deduplicated.state(), &SessionStateContract::Checkpointed { version: 3 });
    let idempotent = parse_contract(&object(r#"{"name": "x", "annotations": {"idempotentHint": true}}"#)).expect("contract");
    assert_eq!(idempotent.recovery(), EffectRecovery::ReplaySafe);
    let probed = parse_contract(&object(r#"{"name": "x", "annotations": {"deep": [{"replayContract": "probe_required"}]}}"#))
        .expect("contract");
    assert_eq!(probed.recovery(), EffectRecovery::ProbeRequired);
}

#[test]
fn stripping_keeps_other_metadata() {
    let result = json(
        r#"{"tools": [{"name": "a", "_meta": {"io.libmcp/effect": {"recovery": {"kind": "replay_safe"}, "state": {"kind": "stateless"}}, "other": 1}}]}"#,
    );
    let catalog = ToolCatalog::parse(&result).expect("catalog");
    let expected = json(r#"{"name": "a", "_meta": {"other": 1}}"#);
    assert!(same_json_value(&catalog.public_tools()[0], &expected));
    let same = ToolCatalog::parse(&result).expect("catalog");
    assert!(catalog.same_public_tools(&same));
    let other = ToolCatalog::parse(&json(r#"{"tools": [{"name": "b"}]}"#)).expect("catalog");
    assert!(!catalog.same_public_tools(&other));
    assert!(same_json_value(&json(r#"{"a": 1, "b": [true, null]}"#), &json(r#"{"b": [true, null], "a": 1}"#)));
    assert!(!same_json_value(&json(r#"{"a": 1}"#), &json(r#"{"a": 2}"#)));
}

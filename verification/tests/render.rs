use libmcp::json::{JsonNumber, JsonValue};
use libmcp::jsonrpc::{FrameParseError, FramedMessage};
use libmcp::render::{
    DetailLevel, JsonPorcelainConfig, PathStyle, RenderConfig, RenderMode, collapse_inline_whitespace,
    render_json_porcelain, render_path, truncate_chars, with_presentation_properties,
};

struct Doc(JsonValue);

struct DocVisitor;

impl<'de> serde::Deserialize<'de> for Doc {
    fn deserialize<D>(deserializer: D) -> Result<Self, D::Error>
    where
        D: serde::Deserializer<'de>,
    {
        deserializer.deserialize_any(DocVisitor)
    }
}

impl<'de> serde::de::Visitor<'de> for DocVisitor {
    type Value = Doc;

    fn expecting(&self, formatter: &mut std::fmt::Formatter<'_>) -> std::fmt::Result {
        formatter.write_str("a JSON value")
    }

    fn visit_bool<E>(self, value: bool) -> Result<Doc, E> {
        Ok(Doc(JsonValue::Bool(value)))
    }

    fn visit_i64<E>(self, value: i64) -> Result<Doc, E> {
        Ok(Doc(JsonValue::Number(if value >= 0 {
            JsonNumber::Unsigned(value as u64)
        } else {
            JsonNumber::Negative(value)
        })))
    }

    fn visit_u64<E>(self, value: u64) -> Result<Doc, E> {
        Ok(Doc(JsonValue::Number(JsonNumber::Unsigned(value))))
    }

    fn visit_f64<E>(self, value: f64) -> Result<Doc, E>
    where
        E: serde::de::Error,
    {
        serde_json::Number::from_f64(value)
            .map(|number| Doc(JsonValue::Number(JsonNumber::Float(number.to_string()))))
            .ok_or_else(|| E::custom("JSON numbers must be finite"))
    }

    fn visit_str<E>(self, value: &str) -> Result<Doc, E> {
        Ok(Doc(JsonValue::String(value.to_owned())))
    }

    fn visit_string<E>(self, value: String) -> Result<Doc, E> {
        Ok(Doc(JsonValue::String(value)))
    }

    fn visit_none<E>(self) -> Result<Doc, E> {
        Ok(Doc(JsonValue::Null))
    }

    fn visit_unit<E>(self) -> Result<Doc, E> {
        Ok(Doc(JsonValue::Null))
    }

    fn visit_seq<A>(self, mut sequence: A) -> Result<Doc, A::Error>
    where
        A: serde::de::SeqAccess<'de>,
    {
        let mut items = Vec::new();
        while let Some(Doc(item)) = sequence.next_element::<Doc>()? {
            items.push(item);
        }
        Ok(Doc(JsonValue::Array(items)))
    }

    fn visit_map<A>(self, mut members: A) -> Result<Doc, A::Error>
    where
        A: serde::de::MapAccess<'de>,
    {
        let mut object = Vec::new();
        while let Some(name) = members.next_key::<String>()? {
            let Doc(value) = members.next_value::<Doc>()?;
            object.push((name, value));
        }
        Ok(Doc(JsonValue::Object(object)))
    }
}

fn document(payload: &[u8]) -> Result<JsonValue, String> {
    serde_json::from_slice::<Doc>(payload)
        .map(|doc| doc.0)
        .map_err(|error| error.to_string())
}

fn parse_frame(payload: Vec<u8>) -> Result<FramedMessage, FrameParseError> {
    let decoded = document(&payload);
    FramedMessage::from_document(payload, decoded)
}

fn json(text: &str) -> JsonValue {
    document(text.as_bytes()).expect("test JSON is well formed")
}

fn member<'a>(value: &'a JsonValue, key: &str) -> Option<&'a JsonValue> {
    match value {
        JsonValue::Object(members) => members.iter().find(|(name, _)| name == key).map(|(_, v)| v),
        _ => None,
    }
}

#[test]
fn render_config_uses_mode_specific_defaults() {
    let porcelain = RenderConfig::from_user_input(None, None, None);
    assert_eq!(porcelain.render, RenderMode::Porcelain);
    assert_eq!(porcelain.detail, DetailLevel::Concise);
    assert_eq!(porcelain.path_style, PathStyle::Relative);

    let json_config = RenderConfig::from_user_input(Some(RenderMode::Json), None, None);
    assert_eq!(json_config.path_style, PathStyle::Absolute);
}

#[test]
fn collapses_whitespace_and_renders_relative_paths() {
    assert_eq!(collapse_inline_whitespace("a   b\t c"), "a b c");
    let root = "/tmp/repo";
    let path = "/tmp/repo/src/lib.rs";
    assert_eq!(render_path(path, PathStyle::Relative, Some(root)), "src/lib.rs");
}

#[test]
fn renders_objects_and_arrays_to_bounded_porcelain() {
    let object = json(r#"{"beta": {"nested": true, "count": 2}, "alpha": "hello   world"}"#);
    let rendered = render_json_porcelain(&object, JsonPorcelainConfig::default());
    assert_eq!(rendered, "alpha: \"hello world\"\nbeta: {count=2, nested=true}");

    let array = json(r#"[{"id": 1, "title": "first"}, {"id": 2, "title": "second"}]"#);
    let rendered = render_json_porcelain(&array, JsonPorcelainConfig::default());
    assert_eq!(
        rendered,
        "2 item(s)\n[1] {id=1, title=\"first\"}\n[2] {id=2, title=\"second\"}"
    );
}

#[test]
fn injects_render_and_detail_schema_properties() {
    let schema = with_presentation_properties(json(
        r#"{"type": "object", "properties": {"path": {"type": "string"}}}"#,
    ));
    let properties = member(&schema, "properties").expect("properties");
    assert_eq!(
        member(member(properties, "render").expect("render"), "enum"),
        Some(&json(r#"["porcelain", "json"]"#))
    );
    assert_eq!(
        member(member(properties, "detail").expect("detail"), "enum"),
        Some(&json(r#"["concise", "full"]"#))
    );
    assert!(member(properties, "path").is_some());
    assert_eq!(member(&schema, "additionalProperties"), Some(&JsonValue::Bool(false)));
    let scalar = with_presentation_properties(JsonValue::Bool(true));
    assert_eq!(scalar, JsonValue::Bool(true));
}

#[test]
fn porcelain_bounds_mark_truncation_and_escape_scalars() {
    let config = JsonPorcelainConfig::try_new(2, 8).expect("valid bounds");
    let rendered = render_json_porcelain(
        &json(r#"{"alpha": "one", "beta": "two", "gamma": "three"}"#),
        config,
    );
    assert_eq!(rendered.lines().count(), 2);
    assert!(rendered.contains("omitted"));
    assert_eq!(rendered, "alpha: \"one\"\n… 2 more line(s) omitted");
    let scalar = render_json_porcelain(&json(r#""quote\" newline\n tail""#), config);
    assert!(scalar.contains('…'));
    assert!(serde_json::from_str::<String>(&scalar).is_ok());
    assert_eq!(scalar, "\"quote…\"");
    assert!(JsonPorcelainConfig::try_new(0, 8).is_err());
    assert!(JsonPorcelainConfig::try_new(1, 2).is_err());
    let escaped = render_json_porcelain(&json(r#""a\"b\\c""#), JsonPorcelainConfig::default());
    assert_eq!(escaped, r#""a\"b\\c""#);
    let long = render_json_porcelain(
        &json("[1, 2, 3, 4, 5]"),
        JsonPorcelainConfig::try_new(1, 12).expect("valid bounds"),
    );
    assert_eq!(long, "… 6 more line(s) omitted");
    let nested = render_json_porcelain(&json(r#"{"k": [1, 2, 3, 4, 5]}"#), JsonPorcelainConfig::default());
    assert_eq!(nested, "k: [1, 2, 3, +2 more]");
    let empty = render_json_porcelain(&json("{}"), JsonPorcelainConfig::default());
    assert_eq!(empty, "empty object");
}

#[test]
fn truncation_counts_unicode_scalars() {
    let cut = truncate_chars("héllo", Some(2));
    assert_eq!(cut.text, "hé");
    assert!(cut.truncated);
    let whole = truncate_chars("héllo", Some(5));
    assert_eq!(whole.text, "héllo");
    assert!(!whole.truncated);
    let unbounded = truncate_chars("héllo", None);
    assert!(!unbounded.truncated);
    assert_eq!(render_path("/elsewhere/x", PathStyle::Relative, Some("/tmp/repo")), "/elsewhere/x");
    assert_eq!(render_path("/tmp/repo/x", PathStyle::Absolute, Some("/tmp/repo")), "/tmp/repo/x");
    assert_eq!(collapse_inline_whitespace("  lead  and trail \n"), "lead and trail");
}

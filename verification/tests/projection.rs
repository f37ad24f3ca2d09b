use libmcp::json::{JsonValue, get_member};
use libmcp::projection::{
    ProjectionError, ProjectionPolicy, SelectorProjection, SelectorRef, StructuredProjection, SurfaceKind,
    SurfacePolicy, TimestampText, ToolProjection,
};
use libmcp::render::DetailLevel;

fn text(value: &str) -> JsonValue {
    JsonValue::String(value.to_owned())
}

#[derive(Clone)]
struct HypothesisSelector {
    slug: String,
    title: String,
}

// What `#[derive(SelectorProjection)]` writes for a slug and a title field.
impl SelectorProjection for HypothesisSelector {
    fn selector_ref(&self) -> SelectorRef {
        SelectorRef { slug: self.slug.clone(), title: Some(self.title.clone()) }
    }
}

struct ExperimentProjection {
    slug: String,
    title: String,
    hypothesis: SelectorRef,
    summary: Option<String>,
    analysis: String,
}

fn selector_value(selector: &SelectorRef) -> JsonValue {
    JsonValue::Object(vec![
        ("slug".to_owned(), text(&selector.slug)),
        ("title".to_owned(), selector.title.as_deref().map_or(JsonValue::Null, text)),
    ])
}

impl ExperimentProjection {
    fn members(&self, full: bool) -> JsonValue {
        // Serialized maps hold their members in key order.
        let mut members = Vec::new();
        if full {
            members.push(("analysis".to_owned(), text(&self.analysis)));
        }
        members.push(("hypothesis".to_owned(), selector_value(&self.hypothesis)));
        members.push(("slug".to_owned(), text(&self.slug)));
        if let Some(summary) = &self.summary {
            members.push(("summary".to_owned(), text(summary)));
        }
        members.push(("title".to_owned(), text(&self.title)));
        JsonValue::Object(members)
    }
}

// What `#[derive(ToolProjection)]` writes for a read surface with a `skip_none` summary and a
// `full_only` analysis.
impl StructuredProjection for ExperimentProjection {
    fn concise_projection(&self) -> Result<JsonValue, ProjectionError> {
        Ok(self.members(false))
    }

    fn full_projection(&self) -> Result<JsonValue, ProjectionError> {
        Ok(self.members(true))
    }
}

impl SurfacePolicy for ExperimentProjection {
    const KIND: SurfaceKind = SurfaceKind::Read;

    fn projection_policy(&self) -> ProjectionPolicy {
        ProjectionPolicy::from_surface(Self::KIND, true, false)
    }
}

fn member<'a>(value: &'a JsonValue, key: &str) -> Option<&'a JsonValue> {
    value.as_object().and_then(|members| get_member(members, key))
}

#[test]
fn derived_projection_shapes_detail_levels() {
    let owner = HypothesisSelector {
        slug: "native-lp-sink".to_owned(),
        title: "Native LP sink".to_owned(),
    };
    let projection = ExperimentProjection {
        slug: "matched-lp-site-traces".to_owned(),
        title: "Matched LP site traces".to_owned(),
        hypothesis: owner.selector_ref(),
        summary: Some("Node LP work dominates traced native spend.".to_owned()),
        analysis: "Native LP spends most traced wallclock in node reoptimization.".to_owned(),
    };

    assert_eq!(ExperimentProjection::KIND, SurfaceKind::Read);

    let concise = projection.concise_projection().expect("concise");
    let full = projection.full_projection().expect("full");

    assert!(member(&concise, "analysis").is_none());
    assert_eq!(
        member(&concise, "hypothesis")
            .and_then(|value| member(value, "slug"))
            .and_then(JsonValue::as_str)
            .map(String::as_str),
        Some("native-lp-sink")
    );
    assert_eq!(
        member(&full, "analysis").and_then(JsonValue::as_str).map(String::as_str),
        Some("Native LP spends most traced wallclock in node reoptimization.")
    );

    let porcelain = projection.porcelain_projection(DetailLevel::Concise).expect("porcelain");
    assert!(porcelain.contains("slug: \"matched-lp-site-traces\""));
}

struct ReadSurface;

impl SurfacePolicy for ReadSurface {
    const KIND: SurfaceKind = SurfaceKind::Read;
}

#[test]
fn timestamp_text_serializes_as_rfc3339_string() {
    let rendered = TimestampText::from_unix_timestamp(0).expect("timestamp");
    assert_eq!(rendered.as_str(), "1970-01-01T00:00:00Z");
    let later = TimestampText::from_unix_timestamp(86_400 + 61).expect("timestamp");
    assert_eq!(later.as_str(), "1970-01-02T00:01:01Z");
    assert!(TimestampText::from_unix_timestamp(i64::MAX).is_none());
}

#[test]
fn surface_kinds_select_detail_indexed_bounds() {
    let policy = ProjectionPolicy::from_surface(SurfaceKind::Overview, true, false);
    let concise = policy.porcelain.for_detail(DetailLevel::Concise);
    let full = policy.porcelain.for_detail(DetailLevel::Full);
    assert_eq!((concise.max_lines(), concise.max_inline_chars()), (10, 144));
    assert_eq!((full.max_lines(), full.max_inline_chars()), (28, 240));
    let ops = ProjectionPolicy::from_surface(SurfaceKind::Ops, false, true);
    assert_eq!(ops.porcelain.for_detail(DetailLevel::Concise).max_lines(), 8);
    assert!(!ops.forbid_opaque_ids);
    assert!(ops.reference_only);
    let derived = ReadSurface.projection_policy();
    assert_eq!(derived.kind, SurfaceKind::Read);
    assert!(derived.forbid_opaque_ids);
    assert!(!derived.reference_only);
    assert_eq!(derived.porcelain.for_detail(DetailLevel::Full).max_inline_chars(), 320);
}

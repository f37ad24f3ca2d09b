//! Model-facing projection doctrine: surface kinds, their porcelain bounds, and selector and
//! timestamp projections.

use vstd::prelude::*;
use crate::render::{DetailLevel, JsonPorcelainConfig};
use crate::text::owned;
use crate::json::JsonValue;
use crate::render::render_json_porcelain;

verus! {

/// Model-facing surface kind.
#[derive(Debug, Clone, Copy, PartialEq, Eq, Structural)]
pub enum SurfaceKind {
    /// One bounded snapshot answering “where are we now?”
    Overview,
    /// Enumeration surfaces such as lists and summaries.
    List,
    /// Focused one-object reads.
    Read,
    /// Mutation receipts.
    Mutation,
    /// Operational and health surfaces.
    Ops,
}

/// Detail-indexed porcelain bounds for one surface kind.
#[derive(Debug, Clone, Copy, PartialEq, Eq, Structural)]
pub struct SurfacePorcelainBounds {
    /// Concise porcelain bounds.
    pub concise: JsonPorcelainConfig,
    /// Full porcelain bounds.
    pub full: JsonPorcelainConfig,
}

/// The bounds of a detail level.
pub open spec fn detail_bounds(bounds: SurfacePorcelainBounds, detail: DetailLevel) -> JsonPorcelainConfig {
    match detail {
        DetailLevel::Concise => bounds.concise,
        DetailLevel::Full => bounds.full,
    }
}

impl SurfacePorcelainBounds {
    /// Selects bounds for a detail level.
    pub fn for_detail(self, detail: DetailLevel) -> (r: JsonPorcelainConfig)
        ensures
            r == match detail {
                DetailLevel::Concise => self.concise,
                DetailLevel::Full => self.full,
            },
    {
        match detail {
            DetailLevel::Concise => self.concise,
            DetailLevel::Full => self.full,
        }
    }
}

/// The porcelain bounds of each surface kind, as (concise lines, concise inline characters,
/// full lines, full inline characters).
pub open spec fn surface_bounds(kind: SurfaceKind) -> (usize, usize, usize, usize) {
    match kind {
        SurfaceKind::Overview => (10, 144, 28, 240),
        SurfaceKind::List => (16, 128, 32, 176),
        SurfaceKind::Read => (18, 176, 40, 320),
        SurfaceKind::Mutation => (12, 160, 24, 256),
        SurfaceKind::Ops => (8, 160, 24, 240),
    }
}

/// Whether porcelain bounds are the bounds of a surface kind.
pub open spec fn bounds_of(bounds: SurfacePorcelainBounds, kind: SurfaceKind) -> bool {
    let (cl, ci, fl, fi) = surface_bounds(kind);
    &&& bounds.concise.spec_max_lines() == cl
    &&& bounds.concise.spec_max_inline_chars() == ci
    &&& bounds.full.spec_max_lines() == fl
    &&& bounds.full.spec_max_inline_chars() == fi
}

/// The porcelain bounds of a surface kind.
pub fn porcelain_bounds(kind: SurfaceKind) -> (r: SurfacePorcelainBounds)
    ensures
        bounds_of(r, kind),
{
    let (cl, ci, fl, fi): (usize, usize, usize, usize) = match kind {
        SurfaceKind::Overview => (10, 144, 28, 240),
        SurfaceKind::List => (16, 128, 32, 176),
        SurfaceKind::Read => (18, 176, 40, 320),
        SurfaceKind::Mutation => (12, 160, 24, 256),
        SurfaceKind::Ops => (8, 160, 24, 240),
    };
    SurfacePorcelainBounds { concise: JsonPorcelainConfig::within(cl, ci), full: JsonPorcelainConfig::within(fl, fi) }
}

/// Projection policy derived from the surface kind.
#[derive(Debug, Clone, Copy, PartialEq, Eq, Structural)]
pub struct ProjectionPolicy {
    /// Declared surface kind.
    pub kind: SurfaceKind,
    /// Whether opaque database identifiers are forbidden by doctrine.
    pub forbid_opaque_ids: bool,
    /// Whether the surface is reference-only and must not inline bodies.
    pub reference_only: bool,
    /// Detail-indexed porcelain bounds.
    pub porcelain: SurfacePorcelainBounds,
}

impl ProjectionPolicy {
    /// Builds a policy from the type-level doctrine.
    pub fn from_surface(kind: SurfaceKind, forbid_opaque_ids: bool, reference_only: bool) -> (r: Self)
        ensures
            r.kind == kind,
            r.forbid_opaque_ids == forbid_opaque_ids,
            r.reference_only == reference_only,
            bounds_of(r.porcelain, kind),
    {
        Self { kind, forbid_opaque_ids, reference_only, porcelain: porcelain_bounds(kind) }
    }
}

/// Slug-first selector projection for model-facing references.
#[derive(Debug, Clone, PartialEq, Eq)]
pub struct SelectorRef {
    /// Stable human-facing selector.
    pub slug: String,
    /// Optional human-facing title.
    pub title: Option<String>,
}

/// The RFC 3339 rendering of a UTC Unix timestamp by the `time` crate: `None` when the
/// timestamp is out of its range, `Some(None)` when the date has no RFC 3339 form.
pub uninterp spec fn rfc3339_utc(unix_seconds: i64) -> Option<Option<Seq<char>>>;

/// `time::OffsetDateTime::from_unix_timestamp` followed by `format(&Rfc3339)`.
#[verifier::external_body]
fn format_unix_rfc3339(unix_seconds: i64) -> (r: Option<Option<String>>)
    ensures
        rfc3339_utc(unix_seconds) == match r {
            Some(Some(t)) => Some(Some(t@)),
            Some(None) => Some(None::<Seq<char>>),
            None => None::<Option<Seq<char>>>,
        },
{
    match time::OffsetDateTime::from_unix_timestamp(unix_seconds) {
        Ok(t) => Some(t.format(&time::format_description::well_known::Rfc3339).ok()),
        Err(_) => None,
    }
}

/// Uniform RFC3339 timestamp text for model-facing surfaces.
#[derive(Debug, Clone, PartialEq, Eq)]
pub struct TimestampText {
    text: String,
}

impl View for TimestampText {
    type V = Seq<char>;

    closed spec fn view(&self) -> Seq<char> {
        self.text@
    }
}

impl TimestampText {
    /// Renders a UTC Unix timestamp: its RFC 3339 text, or its decimal seconds when the date has
    /// no RFC 3339 form; `None` when the timestamp is out of range.
    pub fn from_unix_timestamp(unix_seconds: i64) -> (r: Option<Self>)
        ensures
            match rfc3339_utc(unix_seconds) {
                None => r is None,
                Some(Some(t)) => r matches Some(ts) && ts@ == t,
                Some(None) => r matches Some(ts) && ts@ == crate::text::signed_decimal(unix_seconds as int),
            },
    {
        match format_unix_rfc3339(unix_seconds) {
            None => None,
            Some(Some(text)) => Some(Self { text }),
            Some(None) => {
                let digits = crate::text::i64_decimal(unix_seconds);
                Some(Self { text: crate::text::string_from_chars(digits.as_slice()) })
            },
        }
    }

    /// Returns the rendered timestamp string.
    pub fn as_str(&self) -> (r: &str)
        ensures
            r@ == self@,
    {
        self.text.as_str()
    }
}

/// Anything that can produce a selector reference.
pub trait SelectorProjection {
    /// Builds the selector reference.
    fn selector_ref(&self) -> SelectorRef;
}

/// Type-level surface doctrine.
pub trait SurfacePolicy {
    /// Declared surface kind.
    const KIND: SurfaceKind;
    /// Whether opaque database identifiers are forbidden by doctrine.
    const FORBID_OPAQUE_IDS: bool = true;
    /// Whether the surface is reference-only.
    const REFERENCE_ONLY: bool = false;

    /// Materializes the policy.
    fn projection_policy(&self) -> (r: ProjectionPolicy)
        default_ensures
            r.kind == Self::KIND,
            r.forbid_opaque_ids == Self::FORBID_OPAQUE_IDS,
            r.reference_only == Self::REFERENCE_ONLY,
            bounds_of(r.porcelain, Self::KIND),
    {
        ProjectionPolicy::from_surface(Self::KIND, Self::FORBID_OPAQUE_IDS, Self::REFERENCE_ONLY)
    }
}

/// Projection failure.
#[derive(Debug, Clone, PartialEq, Eq)]
pub enum ProjectionError {
    /// Serialization failed while materializing the projection.
    Serialize(String),
}

/// Structured concise/full projections.
pub trait StructuredProjection {
    /// Concise structured projection.
    fn concise_projection(&self) -> Result<JsonValue, ProjectionError>;
    /// Full structured projection.
    fn full_projection(&self) -> Result<JsonValue, ProjectionError>;
}

/// Happy-path trait for model-facing tool outputs.
pub trait ToolProjection: StructuredProjection + SurfacePolicy {
    /// Returns the structured projection for the chosen detail level.
    fn structured_projection(&self, detail: DetailLevel) -> (r: Result<JsonValue, ProjectionError>)
        ensures
            match detail {
                DetailLevel::Concise => call_ensures(Self::concise_projection, (self,), r),
                DetailLevel::Full => call_ensures(Self::full_projection, (self,), r),
            },
    {
        match detail {
            DetailLevel::Concise => self.concise_projection(),
            DetailLevel::Full => self.full_projection(),
        }
    }

    /// Renders porcelain for the chosen detail level.
    fn porcelain_projection(&self, detail: DetailLevel) -> (r: Result<String, ProjectionError>)
        ensures
            r matches Err(e) ==> call_ensures(
                Self::structured_projection,
                (self, detail),
                Err::<JsonValue, ProjectionError>(e),
            ),
            r matches Ok(text) ==> exists|policy: ProjectionPolicy, value: JsonValue|
                #![trigger call_ensures(Self::projection_policy, (self,), policy), call_ensures(Self::structured_projection, (self, detail), Ok::<JsonValue, ProjectionError>(value))]
                call_ensures(Self::projection_policy, (self,), policy) && call_ensures(
                    Self::structured_projection,
                    (self, detail),
                    Ok::<JsonValue, ProjectionError>(value),
                ) && text@ == crate::render::spec_render_json_porcelain(
                    value@,
                    detail_bounds(policy.porcelain, detail).spec_max_lines() as int,
                    detail_bounds(policy.porcelain, detail).spec_max_inline_chars() as int,
                ),
    {
        let policy = self.projection_policy();
        let value = self.structured_projection(detail)?;
        let config = policy.porcelain.for_detail(detail);
        Ok(render_json_porcelain(&value, config))
    }
}

impl<T> ToolProjection for T where T: StructuredProjection + SurfacePolicy {}

/// Explicit escape hatch for already-curated JSON projections.
#[derive(Debug, Clone)]
pub struct FallbackJsonProjection {
    concise: JsonValue,
    full: JsonValue,
    kind: SurfaceKind,
    forbid_opaque_ids: bool,
    reference_only: bool,
}

impl FallbackJsonProjection {
    /// Builds a fallback projection of a read surface that forbids opaque ids.
    pub fn new(concise: JsonValue, full: JsonValue, kind: SurfaceKind) -> (r: Self)
        ensures
            r.spec_concise() == concise@,
            r.spec_full() == full@,
            r.spec_policy() == (kind, true, false),
    {
        Self { concise, full, kind, forbid_opaque_ids: true, reference_only: false }
    }

    /// Builds a fallback projection with explicit doctrine flags.
    pub fn with_policy(
        concise: JsonValue,
        full: JsonValue,
        kind: SurfaceKind,
        forbid_opaque_ids: bool,
        reference_only: bool,
    ) -> (r: Self)
        ensures
            r.spec_concise() == concise@,
            r.spec_full() == full@,
            r.spec_policy() == (kind, forbid_opaque_ids, reference_only),
    {
        Self { concise, full, kind, forbid_opaque_ids, reference_only }
    }

    /// The concise projection.
    pub closed spec fn spec_concise(&self) -> crate::json::JsonView {
        self.concise@
    }

    /// The full projection.
    pub closed spec fn spec_full(&self) -> crate::json::JsonView {
        self.full@
    }

    /// The doctrine: kind, whether opaque ids are forbidden, whether reference-only.
    pub closed spec fn spec_policy(&self) -> (SurfaceKind, bool, bool) {
        (self.kind, self.forbid_opaque_ids, self.reference_only)
    }
}

impl StructuredProjection for FallbackJsonProjection {
    fn concise_projection(&self) -> (r: Result<JsonValue, ProjectionError>)
        ensures
            r matches Ok(v) && v@ == self.spec_concise(),
    {
        Ok(self.concise.duplicate())
    }

    fn full_projection(&self) -> (r: Result<JsonValue, ProjectionError>)
        ensures
            r matches Ok(v) && v@ == self.spec_full(),
    {
        Ok(self.full.duplicate())
    }
}

impl SurfacePolicy for FallbackJsonProjection {
    const KIND: SurfaceKind = SurfaceKind::Read;

    fn projection_policy(&self) -> (r: ProjectionPolicy)
        ensures
            (r.kind, r.forbid_opaque_ids, r.reference_only) == self.spec_policy(),
            bounds_of(r.porcelain, self.spec_policy().0),
    {
        ProjectionPolicy::from_surface(self.kind, self.forbid_opaque_ids, self.reference_only)
    }
}

} // verus!

//! Model-facing rendering helpers.

use vstd::prelude::*;
use crate::text::{char_is_whitespace, chars_of, extend_chars, is_whitespace, owned, string_from_chars};
use crate::types::InvariantViolation;

verus! {

/// Output render mode.
#[derive(Debug, Clone, Copy, PartialEq, Eq, Structural)]
pub enum RenderMode {
    /// Model-optimized text output.
    Porcelain,
    /// Structured JSON output.
    Json,
}

/// Output detail level.
#[derive(Debug, Clone, Copy, PartialEq, Eq, Structural)]
pub enum DetailLevel {
    /// Model-optimized concise output.
    Concise,
    /// Verbose output that retains additional structure and fields.
    Full,
}

/// Path rendering style.
#[derive(Debug, Clone, Copy, PartialEq, Eq, Structural)]
pub enum PathStyle {
    /// Render absolute filesystem paths.
    Absolute,
    /// Render paths relative to the workspace root when possible.
    Relative,
}

impl Default for RenderMode {
    fn default() -> (r: Self)
        ensures
            r == RenderMode::Porcelain,
    {
        RenderMode::Porcelain
    }
}

impl Default for DetailLevel {
    fn default() -> (r: Self)
        ensures
            r == DetailLevel::Concise,
    {
        DetailLevel::Concise
    }
}

impl Default for PathStyle {
    fn default() -> (r: Self)
        ensures
            r == PathStyle::Relative,
    {
        PathStyle::Relative
    }
}

/// Common render configuration.
#[derive(Debug, Clone, Copy, PartialEq, Eq, Structural)]
pub struct RenderConfig {
    /// Chosen render mode.
    pub render: RenderMode,
    /// Chosen detail level.
    pub detail: DetailLevel,
    /// Chosen path rendering style.
    pub path_style: PathStyle,
}

/// The configuration that user input selects: porcelain and concise by
/// default, with relative paths for porcelain and absolute paths for JSON
/// unless a style is given.
pub open spec fn spec_render_config(
    render: Option<RenderMode>,
    path_style: Option<PathStyle>,
    detail: Option<DetailLevel>,
) -> RenderConfig {
    let mode = match render {
        Some(m) => m,
        None => RenderMode::Porcelain,
    };
    RenderConfig {
        render: mode,
        detail: match detail {
            Some(d) => d,
            None => DetailLevel::Concise,
        },
        path_style: match path_style {
            Some(p) => p,
            None => match mode {
                RenderMode::Porcelain => PathStyle::Relative,
                RenderMode::Json => PathStyle::Absolute,
            },
        },
    }
}

impl RenderConfig {
    /// Builds a render configuration from user input, applying the default
    /// path style implied by the render mode.
    pub fn from_user_input(
        render: Option<RenderMode>,
        path_style: Option<PathStyle>,
        detail: Option<DetailLevel>,
    ) -> (r: Self)
        ensures
            r == spec_render_config(render, path_style, detail),
    {
        let render = match render {
            Some(m) => m,
            None => RenderMode::Porcelain,
        };
        let default_path_style = match render {
            RenderMode::Porcelain => PathStyle::Relative,
            RenderMode::Json => PathStyle::Absolute,
        };
        Self {
            render,
            detail: match detail {
                Some(d) => d,
                None => DetailLevel::Concise,
            },
            path_style: match path_style {
                Some(p) => p,
                None => default_path_style,
            },
        }
    }
}

/// Result of text truncation.
#[derive(Debug, Clone, PartialEq, Eq)]
pub struct TruncatedText {
    /// Visible text after truncation.
    pub text: String,
    /// Whether text was truncated.
    pub truncated: bool,
}

/// Whitespace-collapsed text built so far, and whether a separating space
/// is owed before the next word.
pub open spec fn collapse_state(s: Seq<char>) -> (Seq<char>, bool)
    decreases s.len(),
{
    if s.len() == 0 {
        (Seq::empty(), false)
    } else {
        let (out, pending) = collapse_state(s.drop_last());
        let c = s.last();
        if is_whitespace(c) {
            (out, out.len() > 0)
        } else if pending {
            (out.push(' ').push(c), false)
        } else {
            (out.push(c), false)
        }
    }
}

/// The words of a text joined by single spaces: every whitespace run
/// between words becomes one space, and leading and trailing runs vanish.
pub open spec fn collapse(s: Seq<char>) -> Seq<char> {
    collapse_state(s).0
}

/// Collapses all internal whitespace runs into single spaces.
pub fn collapse_inline_whitespace(raw: &str) -> (r: String)
    ensures
        r@ == collapse(raw@),
{
    let cs = chars_of(raw);
    let mut out: Vec<char> = Vec::new();
    let mut pending = false;
    let mut i: usize = 0;
    while i < cs.len()
        invariant
            i <= cs.len(),
            cs@ == raw@,
            (out@, pending) == collapse_state(cs@.take(i as int)),
        decreases cs.len() - i,
    {
        assert(cs@.take(i + 1).drop_last() =~= cs@.take(i as int));
        let c = cs[i];
        if char_is_whitespace(c) {
            pending = out.len() > 0;
        } else {
            if pending {
                out.push(' ');
            }
            out.push(c);
            pending = false;
        }
        i += 1;
    }
    assert(cs@.take(i as int) =~= cs@);
    string_from_chars(out.as_slice())
}

/// Truncation of a text to at most `limit` characters, when a limit is given.
pub open spec fn spec_truncate(raw: Seq<char>, limit: Option<usize>) -> (Seq<char>, bool) {
    match limit {
        None => (raw, false),
        Some(l) => if raw.len() > l {
            (raw.take(l as int), true)
        } else {
            (raw, false)
        },
    }
}

/// Truncates a string by Unicode scalar count.
pub fn truncate_chars(raw: &str, limit: Option<usize>) -> (r: TruncatedText)
    ensures
        (r.text@, r.truncated) == spec_truncate(raw@, limit),
{
    match limit {
        None => TruncatedText { text: owned(raw), truncated: false },
        Some(l) => {
            let cs = chars_of(raw);
            if cs.len() > l {
                let kept = vstd::slice::slice_subrange(cs.as_slice(), 0, l);
                assert(kept@ =~= raw@.take(l as int));
                TruncatedText { text: string_from_chars(kept), truncated: true }
            } else {
                TruncatedText { text: owned(raw), truncated: false }
            }
        },
    }
}

/// The path that, joined onto `base`, yields `path`, when `base` is a prefix
/// of `path` by whole components, as `std::path::Path::strip_prefix` gives it.
pub uninterp spec fn spec_strip_prefix(path: Seq<char>, base: Seq<char>) -> Option<Seq<char>>;

/// Strips a base path from a path with `std::path::Path::strip_prefix`.
///
/// Trusted: the outcome is the one named by `spec_strip_prefix`, the
/// remainder displayed as text.
#[verifier::external_body]
fn strip_path_prefix(path: &str, base: &str) -> (r: Option<String>)
    ensures
        match r {
            Some(rel) => spec_strip_prefix(path@, base@) == Some(rel@),
            None => spec_strip_prefix(path@, base@) is None,
        },
{
    std::path::Path::new(path).strip_prefix(base).ok().map(|rel| rel.display().to_string())
}

/// How a path renders in a style: absolute paths as given, relative paths
/// stripped of the workspace root when the root is a prefix of the path.
pub open spec fn spec_render_path(path: Seq<char>, style: PathStyle, root: Option<Seq<char>>) -> Seq<char> {
    match style {
        PathStyle::Absolute => path,
        PathStyle::Relative => match root {
            Some(r) => match spec_strip_prefix(path, r) {
                Some(rel) => rel,
                None => path,
            },
            None => path,
        },
    }
}

/// Renders a path according to the requested style.
pub fn render_path(path: &str, style: PathStyle, workspace_root: Option<&str>) -> (r: String)
    ensures
        r@ == spec_render_path(
            path@,
            style,
            match workspace_root {
                Some(root) => Some(root@),
                None => None,
            },
        ),
{
    match style {
        PathStyle::Absolute => owned(path),
        PathStyle::Relative => match workspace_root {
            Some(root) => match strip_path_prefix(path, root) {
                Some(rel) => rel,
                None => owned(path),
            },
            None => owned(path),
        },
    }
}

/// Generic JSON-to-porcelain rendering configuration: at least one output
/// line, and room for at least a quoted ellipsis in each inline preview.
#[derive(Debug, Clone, Copy, PartialEq, Eq, Structural)]
pub struct JsonPorcelainConfig {
    max_lines: usize,
    max_inline_chars: usize,
}

impl JsonPorcelainConfig {
    #[verifier::type_invariant]
    spec fn bounded(self) -> bool {
        self.max_lines >= 1 && self.max_inline_chars >= 3
    }

    pub closed spec fn spec_max_lines(self) -> usize {
        self.max_lines
    }

    pub closed spec fn spec_max_inline_chars(self) -> usize {
        self.max_inline_chars
    }

    /// Constructs rendering bounds; zero lines, or inline room below three
    /// characters, are rejected.
    pub fn try_new(max_lines: usize, max_inline_chars: usize) -> (r: Result<Self, InvariantViolation>)
        ensures
            (max_lines >= 1 && max_inline_chars >= 3) <==> r is Ok,
            r matches Ok(c) ==> c.spec_max_lines() == max_lines && c.spec_max_inline_chars()
                == max_inline_chars,
    {
        if max_lines == 0 || max_inline_chars < 3 {
            return Err(InvariantViolation::new("porcelain bounds must allow one line and three inline characters"));
        }
        Ok(Self { max_lines, max_inline_chars })
    }

    /// Rendering bounds known to satisfy the invariant.
    pub(crate) fn within(max_lines: usize, max_inline_chars: usize) -> (r: Self)
        requires
            max_lines >= 1,
            max_inline_chars >= 3,
        ensures
            r.spec_max_lines() == max_lines,
            r.spec_max_inline_chars() == max_inline_chars,
    {
        Self { max_lines, max_inline_chars }
    }

    /// Maximum output lines.
    pub fn max_lines(&self) -> (r: usize)
        ensures
            r == self.spec_max_lines(),
            r >= 1,
    {
        proof {
            use_type_invariant(self);
        }
        self.max_lines
    }

    /// Maximum inline characters for one preview fragment.
    pub fn max_inline_chars(&self) -> (r: usize)
        ensures
            r == self.spec_max_inline_chars(),
            r >= 3,
    {
        proof {
            use_type_invariant(self);
        }
        self.max_inline_chars
    }
}

impl Default for JsonPorcelainConfig {
    fn default() -> (r: Self)
        ensures
            r.spec_max_lines() == 24,
            r.spec_max_inline_chars() == 120,
    {
        Self { max_lines: 24, max_inline_chars: 120 }
    }
}

} // verus!

verus! {

use crate::json::{
    JsonValue, JsonView, items_view, lemma_items_view, lemma_members_view, members_view, number_text,
    sorted_indices, sorted_member_indices,
};
use crate::text::{decimal, u64_decimal};

/// A lowercase hexadecimal digit.
pub open spec fn hex_digit(d: int) -> char {
    if d < 10 {
        ((d + 48) as u32) as char
    } else {
        ((d + 87) as u32) as char
    }
}

/// The JSON string escape of one character.
pub open spec fn escape_char(c: char) -> Seq<char> {
    if c == '"' {
        seq!['\\', '"']
    } else if c == '\\' {
        seq!['\\', '\\']
    } else if c == '\n' {
        seq!['\\', 'n']
    } else if c == '\r' {
        seq!['\\', 'r']
    } else if c == '\t' {
        seq!['\\', 't']
    } else if (c as int) == 8 {
        seq!['\\', 'b']
    } else if (c as int) == 12 {
        seq!['\\', 'f']
    } else if (c as int) < 32 {
        seq!['\\', 'u', '0', '0', hex_digit((c as int) / 16), hex_digit((c as int) % 16)]
    } else {
        seq![c]
    }
}

/// The JSON string escape of a text.
pub open spec fn escape(s: Seq<char>) -> Seq<char>
    decreases s.len(),
{
    if s.len() == 0 {
        Seq::empty()
    } else {
        escape(s.drop_last()) + escape_char(s.last())
    }
}

/// A text as a JSON string literal.
pub open spec fn string_literal(s: Seq<char>) -> Seq<char> {
    seq!['"'] + escape(s) + seq!['"']
}

/// How many leading characters of a text escape within `budget` characters.
pub open spec fn fitting_prefix(s: Seq<char>, budget: int) -> nat
    decreases s.len(),
{
    if s.len() == 0 || escape_char(s[0]).len() > budget {
        0
    } else {
        1 + fitting_prefix(s.drop_first(), budget - escape_char(s[0]).len())
    }
}

/// A string literal within `max` characters: whole when it fits, otherwise
/// the longest escaped prefix that fits followed by an ellipsis, still quoted.
pub open spec fn bounded_literal(s: Seq<char>, max: int) -> Seq<char> {
    if string_literal(s).len() <= max {
        string_literal(s)
    } else {
        seq!['"'] + escape(s.take(fitting_prefix(s, max - 3) as int)) + seq!['…', '"']
    }
}

/// A text within `max` characters, ending in an ellipsis when cut.
pub open spec fn bound_text(raw: Seq<char>, max: int) -> Seq<char> {
    if raw.len() <= max {
        raw
    } else {
        raw.take(max - 1).push('…')
    }
}

/// The inline preview of a value within `max` characters.
pub open spec fn preview(v: JsonView, max: int) -> Seq<char>
    decreases v, 0int,
{
    match v {
        JsonView::Str(t) => bounded_literal(collapse(t), max),
        JsonView::Null => bound_text("null"@, max),
        JsonView::Bool(b) => bound_text(if b { "true"@ } else { "false"@ }, max),
        JsonView::Number(n) => bound_text(number_text(n), max),
        JsonView::Array(items) => bound_text(array_preview(items, max), max),
        JsonView::Object(m) => bound_text(object_preview(m, max), max),
    }
}

/// Previews of the first `n` items, joined by commas.
pub open spec fn joined_items(items: Seq<JsonView>, n: int, max: int) -> Seq<char>
    decreases items, n,
{
    if n <= 0 || n > items.len() {
        Seq::empty()
    } else if n == 1 {
        preview(items[0], max)
    } else {
        joined_items(items, n - 1, max) + ", "@ + preview(items[n - 1], max)
    }
}

/// `key=preview` parts of the members listed first by `order`, joined by commas.
pub open spec fn joined_members(m: Seq<(Seq<char>, JsonView)>, order: Seq<int>, n: int, max: int) -> Seq<char>
    decreases m, n,
{
    if n <= 0 || n > order.len() {
        Seq::empty()
    } else {
        let i = order[n - 1];
        let part = if 0 <= i < m.len() {
            m[i].0 + "="@ + preview(m[i].1, max)
        } else {
            Seq::empty()
        };
        if n == 1 {
            part
        } else {
            joined_members(m, order, n - 1, max) + ", "@ + part
        }
    }
}

/// The preview of an array: its first three items and a count of the rest.
pub open spec fn array_preview(items: Seq<JsonView>, max: int) -> Seq<char>
    decreases items, 4int,
{
    if items.len() == 0 {
        "[]"@
    } else {
        let shown = if items.len() > 3 {
            3
        } else {
            items.len() as int
        };
        let more = if items.len() > 3 {
            ", +"@ + decimal((items.len() - 3) as nat) + " more"@
        } else {
            Seq::empty()
        };
        "["@ + joined_items(items, shown, max) + more + "]"@
    }
}

/// The preview of an object: its first four members by name and a count of the rest.
pub open spec fn object_preview(m: Seq<(Seq<char>, JsonView)>, max: int) -> Seq<char>
    decreases m, 5int,
{
    if m.len() == 0 {
        "{}"@
    } else {
        let shown = if m.len() > 4 {
            4
        } else {
            m.len() as int
        };
        let more = if m.len() > 4 {
            ", +"@ + decimal((m.len() - 4) as nat) + " more"@
        } else {
            Seq::empty()
        };
        "{"@ + joined_members(m, sorted_indices(m), shown, max) + more + "}"@
    }
}

/// The porcelain lines of a value before the line bound applies.
pub open spec fn top_lines(v: JsonView, max: int) -> Seq<Seq<char>> {
    match v {
        JsonView::Object(m) => if m.len() == 0 {
            seq!["empty object"@]
        } else {
            Seq::new(
                m.len(),
                |p: int|
                    {
                        let i = sorted_indices(m)[p];
                        m[i].0 + ": "@ + preview(m[i].1, max)
                    },
            )
        },
        JsonView::Array(items) => seq![decimal(items.len()) + " item(s)"@] + Seq::new(
            items.len(),
            |i: int| "["@ + decimal((i + 1) as nat) + "] "@ + preview(items[i], max),
        ),
        _ => seq![preview(v, max)],
    }
}

/// Lines within the bound: when there are too many, the last kept line is
/// replaced by a note counting the omitted lines.
pub open spec fn bound_lines(lines: Seq<Seq<char>>, max_lines: int) -> Seq<Seq<char>> {
    if lines.len() <= max_lines {
        lines
    } else {
        lines.take(max_lines - 1).push(
            "… "@ + decimal((lines.len() - (max_lines - 1)) as nat) + " more line(s) omitted"@,
        )
    }
}

/// Lines joined by newlines.
pub open spec fn join_lines(lines: Seq<Seq<char>>) -> Seq<char>
    decreases lines.len(),
{
    if lines.len() == 0 {
        Seq::empty()
    } else if lines.len() == 1 {
        lines[0]
    } else {
        join_lines(lines.drop_last()) + "\n"@ + lines.last()
    }
}

/// Bounded porcelain text of a value.
pub open spec fn spec_render_json_porcelain(v: JsonView, max_lines: int, max_inline: int) -> Seq<char> {
    join_lines(bound_lines(top_lines(v, max_inline), max_lines))
}

} // verus!

verus! {

fn hex_digit_char(d: u32) -> (c: char)
    requires
        d < 16,
    ensures
        c == hex_digit(d as int),
{
    if d < 10 {
        crate::text::char_from_ascii(d + 48)
    } else {
        crate::text::char_from_ascii(d + 87)
    }
}

/// Appends the JSON string escape of one character.
fn push_escaped(out: &mut Vec<char>, c: char)
    ensures
        final(out)@ == old(out)@ + escape_char(c),
{
    let ghost before = out@;
    if c == '"' {
        out.push('\\');
        out.push('"');
    } else if c == '\\' {
        out.push('\\');
        out.push('\\');
    } else if c == '\n' {
        out.push('\\');
        out.push('n');
    } else if c == '\r' {
        out.push('\\');
        out.push('r');
    } else if c == '\t' {
        out.push('\\');
        out.push('t');
    } else if c as u32 == 8 {
        out.push('\\');
        out.push('b');
    } else if c as u32 == 12 {
        out.push('\\');
        out.push('f');
    } else if (c as u32) < 32 {
        let u = c as u32;
        out.push('\\');
        out.push('u');
        out.push('0');
        out.push('0');
        out.push(hex_digit_char(u / 16));
        out.push(hex_digit_char(u % 16));
    } else {
        out.push(c);
    }
    assert(out@ =~= before + escape_char(c));
}

/// The JSON string escape of the first `n` characters.
fn escape_prefix(s: &[char], n: usize) -> (r: Vec<char>)
    requires
        n <= s@.len(),
    ensures
        r@ == escape(s@.take(n as int)),
{
    let mut out: Vec<char> = Vec::new();
    let mut i: usize = 0;
    assert(s@.take(0) =~= Seq::<char>::empty());
    while i < n
        invariant
            i <= n <= s@.len(),
            out@ == escape(s@.take(i as int)),
        decreases n - i,
    {
        assert(s@.take(i + 1).drop_last() =~= s@.take(i as int));
        push_escaped(&mut out, s[i]);
        i += 1;
    }
    out
}

/// How many leading characters escape within `budget` characters.
fn fitting_prefix_len(s: &[char], budget: usize) -> (r: usize)
    ensures
        r == fitting_prefix(s@, budget as int),
        r <= s@.len(),
{
    let mut i: usize = 0;
    let mut used: usize = 0;
    assert(s@.skip(0) =~= s@);
    while i < s.len()
        invariant
            i <= s@.len(),
            used <= budget,
            i + fitting_prefix(s@.skip(i as int), budget - used) == fitting_prefix(s@, budget as int),
        decreases s@.len() - i,
    {
        let mut one: Vec<char> = Vec::new();
        push_escaped(&mut one, s[i]);
        assert(one@ =~= escape_char(s@[i as int]));
        let ghost rest = s@.skip(i as int);
        assert(rest[0] == s@[i as int]);
        assert(rest.drop_first() =~= s@.skip(i + 1));
        if one.len() > budget - used {
            return i;
        }
        used = used + one.len();
        i += 1;
    }
    assert(s@.skip(i as int).len() == 0);
    i
}

/// A string literal bounded to `max` characters.
fn bounded_literal_of(s: &[char], max: usize) -> (r: Vec<char>)
    requires
        max >= 3,
    ensures
        r@ == bounded_literal(s@, max as int),
{
    let full = escape_prefix(s, s.len());
    assert(s@.take(s@.len() as int) =~= s@);
    let mut out: Vec<char> = Vec::new();
    out.push('"');
    if full.len() <= max - 2 {
        extend_chars(&mut out, full.as_slice());
        out.push('"');
        assert(out@ =~= string_literal(s@));
        return out;
    }
    let k = fitting_prefix_len(s, max - 3);
    let part = escape_prefix(s, k);
    extend_chars(&mut out, part.as_slice());
    out.push('…');
    out.push('"');
    assert(out@ =~= seq!['"'] + escape(s@.take(k as int)) + seq!['…', '"']);
    out
}

/// A text bounded to `max` characters, ending in an ellipsis when cut.
fn bound_text_of(raw: Vec<char>, max: usize) -> (r: Vec<char>)
    requires
        max >= 1,
    ensures
        r@ == bound_text(raw@, max as int),
{
    if raw.len() <= max {
        return raw;
    }
    let mut out: Vec<char> = Vec::new();
    extend_chars(&mut out, vstd::slice::slice_subrange(raw.as_slice(), 0, max - 1));
    out.push('…');
    assert(out@ =~= raw@.take(max - 1).push('…'));
    out
}

fn text_chars(s: &str) -> (r: Vec<char>)
    ensures
        r@ == s@,
{
    chars_of(s)
}

/// The inline preview of a value.
fn preview_of(v: &JsonValue, max: usize) -> (r: Vec<char>)
    requires
        max >= 3,
    ensures
        r@ == preview(v@, max as int),
    decreases v,
{
    match v {
        JsonValue::String(t) => {
            let collapsed = collapse_inline_whitespace(t.as_str());
            let cs = chars_of(collapsed.as_str());
            bounded_literal_of(cs.as_slice(), max)
        },
        JsonValue::Null => {
            proof {
                reveal_strlit("null");
            }
            bound_text_of(text_chars("null"), max)
        },
        JsonValue::Bool(b) => {
            if *b {
                bound_text_of(text_chars("true"), max)
            } else {
                bound_text_of(text_chars("false"), max)
            }
        },
        JsonValue::Number(n) => bound_text_of(n.text(), max),
        JsonValue::Array(items) => {
            proof {
                lemma_items_view(items@);
            }
            let ghost iv = items_view(items@);
            let mut out = text_chars("[");
            if items.len() == 0 {
                out.push(']');
                proof {
                    reveal_strlit("[");
                    reveal_strlit("[]");
                    assert(out@ =~= "[]"@);
                }
                return bound_text_of(out, max);
            }
            let shown: usize = if items.len() > 3 {
                3
            } else {
                items.len()
            };
            let mut i: usize = 0;
            while i < shown
                invariant
                    *v == JsonValue::Array(*items),
                    max >= 3,
                    iv == items_view(items@),
                    iv.len() == items@.len(),
                    forall|k: int| 0 <= k < items@.len() ==> #[trigger] iv[k] == items@[k]@,
                    shown <= items@.len(),
                    i <= shown,
                    out@ == "["@ + joined_items(iv, i as int, max as int),
                decreases shown - i,
            {
                proof {
                    assert(decreases_to!(*v => (*v)->Array_0));
                    assert(decreases_to!(*items => items@));
                    assert(decreases_to!(items@ => items@[i as int]));
                }
                let p = preview_of(&items[i], max);
                let ghost before = out@;
                if i > 0 {
                    extend_chars(&mut out, text_chars(", ").as_slice());
                }
                extend_chars(&mut out, p.as_slice());
                proof {
                    if i > 0 {
                        assert(out@ =~= "["@ + (joined_items(iv, i as int, max as int) + ", "@ + preview(iv[i as int], max as int)));
                    } else {
                        assert(out@ =~= "["@ + preview(iv[0], max as int));
                    }
                }
                i += 1;
            }
            if items.len() > 3 {
                extend_chars(&mut out, text_chars(", +").as_slice());
                extend_chars(&mut out, u64_decimal((items.len() - 3) as u64).as_slice());
                extend_chars(&mut out, text_chars(" more").as_slice());
            }
            extend_chars(&mut out, text_chars("]").as_slice());
            proof {
                let more = if iv.len() > 3 {
                    ", +"@ + decimal((iv.len() - 3) as nat) + " more"@
                } else {
                    Seq::<char>::empty()
                };
                assert(out@ =~= "["@ + joined_items(iv, shown as int, max as int) + more + "]"@);
            }
            bound_text_of(out, max)
        },
        JsonValue::Object(m) => {
            proof {
                lemma_members_view(m@);
            }
            let ghost mv = members_view(m@);
            let mut out = text_chars("{");
            if m.len() == 0 {
                out.push('}');
                proof {
                    reveal_strlit("{");
                    reveal_strlit("{}");
                    assert(out@ =~= "{}"@);
                }
                return bound_text_of(out, max);
            }
            let order = sorted_member_indices(m);
            let ghost oi = order@.map_values(|x: usize| x as int);
            let shown: usize = if m.len() > 4 {
                4
            } else {
                m.len()
            };
            let mut i: usize = 0;
            while i < shown
                invariant
                    *v == JsonValue::Object(*m),
                    max >= 3,
                    mv == members_view(m@),
                    mv.len() == m@.len(),
                    forall|k: int| 0 <= k < m@.len() ==> #[trigger] mv[k] == (m@[k].0@, m@[k].1@),
                    oi == order@.map_values(|x: usize| x as int),
                    oi == sorted_indices(mv),
                    order@.len() == m@.len(),
                    forall|k: int| 0 <= k < order@.len() ==> #[trigger] order@[k] < m@.len(),
                    shown <= m@.len(),
                    i <= shown,
                    out@ == "{"@ + joined_members(mv, oi, i as int, max as int),
                decreases shown - i,
            {
                let idx = order[i];
                proof {
                    assert(decreases_to!(*v => (*v)->Object_0));
                    assert(decreases_to!(*m => m@));
                    assert(decreases_to!(m@ => m@[idx as int]));
                    assert(decreases_to!(m@[idx as int] => m@[idx as int].1));
                }
                let p = preview_of(&m[idx].1, max);
                if i > 0 {
                    extend_chars(&mut out, text_chars(", ").as_slice());
                }
                extend_chars(&mut out, text_chars(m[idx].0.as_str()).as_slice());
                extend_chars(&mut out, text_chars("=").as_slice());
                extend_chars(&mut out, p.as_slice());
                proof {
                    assert(oi[i as int] == idx as int);
                    let part = mv[idx as int].0 + "="@ + preview(mv[idx as int].1, max as int);
                    if i > 0 {
                        assert(out@ =~= "{"@ + (joined_members(mv, oi, i as int, max as int) + ", "@ + part));
                    } else {
                        assert(out@ =~= "{"@ + part);
                    }
                }
                i += 1;
            }
            if m.len() > 4 {
                extend_chars(&mut out, text_chars(", +").as_slice());
                extend_chars(&mut out, u64_decimal((m.len() - 4) as u64).as_slice());
                extend_chars(&mut out, text_chars(" more").as_slice());
            }
            extend_chars(&mut out, text_chars("}").as_slice());
            proof {
                let more = if mv.len() > 4 {
                    ", +"@ + decimal((mv.len() - 4) as nat) + " more"@
                } else {
                    Seq::<char>::empty()
                };
                assert(out@ =~= "{"@ + joined_members(mv, sorted_indices(mv), shown as int, max as int) + more + "}"@);
            }
            bound_text_of(out, max)
        },
    }
}

} // verus!

verus! {

/// The porcelain lines of a value before the line bound applies.
fn top_lines_of(v: &JsonValue, max: usize) -> (r: Vec<Vec<char>>)
    requires
        max >= 3,
    ensures
        r@.map_values(|l: Vec<char>| l@) == top_lines(v@, max as int),
{
    let mut lines: Vec<Vec<char>> = Vec::new();
    match v {
        JsonValue::Object(m) => {
            proof {
                lemma_members_view(m@);
            }
            let ghost mv = members_view(m@);
            if m.len() == 0 {
                lines.push(text_chars("empty object"));
                assert(lines@.map_values(|l: Vec<char>| l@) =~= seq!["empty object"@]);
                return lines;
            }
            let order = sorted_member_indices(m);
            let ghost oi = order@.map_values(|x: usize| x as int);
            let mut p: usize = 0;
            while p < m.len()
                invariant
                    mv == members_view(m@),
                    mv.len() == m@.len(),
                    forall|k: int| 0 <= k < m@.len() ==> #[trigger] mv[k] == (m@[k].0@, m@[k].1@),
                    oi == order@.map_values(|x: usize| x as int),
                    oi == sorted_indices(mv),
                    order@.len() == m@.len(),
                    forall|k: int| 0 <= k < order@.len() ==> #[trigger] order@[k] < m@.len(),
                    max >= 3,
                    p <= m@.len(),
                    lines@.len() == p,
                    forall|q: int|
                        0 <= q < p ==> (#[trigger] lines@[q])@ == mv[sorted_indices(mv)[q]].0 + ": "@
                            + preview(mv[sorted_indices(mv)[q]].1, max as int),
                decreases m@.len() - p,
            {
                let idx = order[p];
                assert(oi[p as int] == idx as int);
                let mut line = text_chars(m[idx].0.as_str());
                extend_chars(&mut line, text_chars(": ").as_slice());
                extend_chars(&mut line, preview_of(&m[idx].1, max).as_slice());
                lines.push(line);
                p += 1;
            }
            assert(lines@.map_values(|l: Vec<char>| l@) =~= top_lines(v@, max as int));
        },
        JsonValue::Array(items) => {
            proof {
                lemma_items_view(items@);
            }
            let ghost iv = items_view(items@);
            let mut head = u64_decimal(items.len() as u64);
            extend_chars(&mut head, text_chars(" item(s)").as_slice());
            lines.push(head);
            let mut i: usize = 0;
            while i < items.len()
                invariant
                    iv == items_view(items@),
                    iv.len() == items@.len(),
                    forall|k: int| 0 <= k < items@.len() ==> #[trigger] iv[k] == items@[k]@,
                    max >= 3,
                    i <= items@.len(),
                    lines@.len() == i + 1,
                    lines@[0]@ == decimal(iv.len()) + " item(s)"@,
                    forall|q: int|
                        0 < q <= i ==> (#[trigger] lines@[q])@ == "["@ + decimal(q as nat) + "] "@ + preview(
                            iv[q - 1],
                            max as int,
                        ),
                decreases items@.len() - i,
            {
                let mut line = text_chars("[");
                extend_chars(&mut line, u64_decimal((i + 1) as u64).as_slice());
                extend_chars(&mut line, text_chars("] ").as_slice());
                extend_chars(&mut line, preview_of(&items[i], max).as_slice());
                lines.push(line);
                i += 1;
            }
            assert(lines@.map_values(|l: Vec<char>| l@) =~= top_lines(v@, max as int));
        },
        _ => {
            lines.push(preview_of(v, max));
            assert(lines@.map_values(|l: Vec<char>| l@) =~= top_lines(v@, max as int));
        },
    }
    lines
}

/// Renders arbitrary JSON into bounded, deterministic porcelain text.
///
/// Strings are collapsed and written as escaped JSON string literals; an
/// inline preview that exceeds its bound ends in `…`, and lines beyond the
/// bound are replaced by a note counting the omitted lines.
pub fn render_json_porcelain(value: &JsonValue, config: JsonPorcelainConfig) -> (r: String)
    ensures
        r@ == spec_render_json_porcelain(
            value@,
            config.spec_max_lines() as int,
            config.spec_max_inline_chars() as int,
        ),
{
    let max_lines = config.max_lines();
    let max_inline = config.max_inline_chars();
    let all = top_lines_of(value, max_inline);
    let ghost lv = all@.map_values(|l: Vec<char>| l@);
    let ghost bounded = bound_lines(lv, max_lines as int);
    let kept: usize = if all.len() > max_lines {
        max_lines - 1
    } else {
        all.len()
    };
    let mut out: Vec<char> = Vec::new();
    let mut i: usize = 0;
    while i < kept
        invariant
            kept <= all@.len(),
            lv == all@.map_values(|l: Vec<char>| l@),
            bounded == bound_lines(lv, max_lines as int),
            max_lines >= 1,
            kept == (if all@.len() > max_lines {
                max_lines - 1
            } else {
                all@.len() as int
            }),
            i <= kept,
            out@ == join_lines(bounded.take(i as int)),
        decreases kept - i,
    {
        assert(bounded[i as int] == lv[i as int]);
        assert(bounded.take(i + 1).drop_last() =~= bounded.take(i as int));
        if i > 0 {
            out.push('\n');
        }
        extend_chars(&mut out, all[i].as_slice());
        proof {
            reveal_strlit("\n");
            if i > 0 {
                assert(out@ =~= join_lines(bounded.take(i as int)) + "\n"@ + bounded[i as int]);
            } else {
                assert(out@ =~= bounded[0]);
            }
        }
        i += 1;
    }
    if all.len() > max_lines {
        let ghost before = out@;
        let mut note = text_chars("… ");
        extend_chars(&mut note, u64_decimal((all.len() - (max_lines - 1)) as u64).as_slice());
        extend_chars(&mut note, text_chars(" more line(s) omitted").as_slice());
        if kept > 0 {
            out.push('\n');
        }
        extend_chars(&mut out, note.as_slice());
        proof {
            reveal_strlit("\n");
            assert(bounded.len() == kept + 1);
            assert(bounded.take(kept + 1) =~= bounded);
            assert(bounded.take(kept + 1).drop_last() =~= bounded.take(kept as int));
            if kept > 0 {
                assert(out@ =~= join_lines(bounded.take(kept as int)) + "\n"@ + bounded[kept as int]);
            } else {
                assert(out@ =~= bounded[0]);
            }
        }
    } else {
        assert(bounded.take(kept as int) =~= bounded);
    }
    string_from_chars(out.as_slice())
}

} // verus!

verus! {

use crate::json::{has_member, member};

/// An object's members with the first member named `key` set to `v`, or
/// with `key` appended when absent.
pub open spec fn set_member(m: Seq<(Seq<char>, JsonView)>, key: Seq<char>, v: JsonView) -> Seq<(Seq<char>, JsonView)>
    decreases m.len(),
{
    if m.len() == 0 {
        seq![(key, v)]
    } else if m[0].0 == key {
        seq![(key, v)] + m.drop_first()
    } else {
        seq![m[0]] + set_member(m.drop_first(), key, v)
    }
}

/// The schema of the `render` presentation property.
pub open spec fn render_property_schema() -> JsonView {
    JsonView::Object(
        seq![
            ("description"@, JsonView::Str("Output rendering. Defaults to porcelain for model-friendly summaries."@)),
            ("enum"@, JsonView::Array(seq![JsonView::Str("porcelain"@), JsonView::Str("json"@)])),
            ("type"@, JsonView::Str("string"@)),
        ],
    )
}

/// The schema of the `detail` presentation property.
pub open spec fn detail_property_schema() -> JsonView {
    JsonView::Object(
        seq![
            (
                "description"@,
                JsonView::Str(
                    "Output detail level. Concise is the default model-facing summary; full retains more structure."@,
                ),
            ),
            ("enum"@, JsonView::Array(seq![JsonView::Str("concise"@), JsonView::Str("full"@)])),
            ("type"@, JsonView::Str("string"@)),
        ],
    )
}

/// An object input schema with the presentation controls added: a
/// `properties` object holding `render` and `detail`, and closed additional
/// properties unless the schema already says otherwise. Other values are
/// returned unchanged.
pub open spec fn spec_with_presentation_properties(schema: JsonView) -> JsonView {
    match schema {
        JsonView::Object(m) => {
            let m1 = if has_member(m, "properties"@) {
                m
            } else {
                m.push(("properties"@, JsonView::Object(Seq::empty())))
            };
            let m2 = match member(m1, "properties"@) {
                Some(JsonView::Object(props)) => set_member(
                    m1,
                    "properties"@,
                    JsonView::Object(
                        set_member(
                            set_member(props, "render"@, render_property_schema()),
                            "detail"@,
                            detail_property_schema(),
                        ),
                    ),
                ),
                _ => m1,
            };
            let m3 = if has_member(m2, "additionalProperties"@) {
                m2
            } else {
                m2.push(("additionalProperties"@, JsonView::Bool(false)))
            };
            JsonView::Object(m3)
        },
        _ => schema,
    }
}

/// Setting the first member named `key` replaces it in place.
pub(crate) proof fn lemma_set_member_at(m: Seq<(Seq<char>, JsonView)>, key: Seq<char>, v: JsonView, i: int)
    requires
        0 <= i <= m.len(),
        forall|k: int| 0 <= k < i ==> (#[trigger] m[k]).0 != key,
        i < m.len() ==> m[i].0 == key,
    ensures
        i < m.len() ==> set_member(m, key, v) == m.update(i, (key, v)),
        i == m.len() ==> set_member(m, key, v) == m.push((key, v)),
    decreases m.len(),
{
    if m.len() == 0 {
        assert(m.push((key, v)) =~= seq![(key, v)]);
    } else if i == 0 {
        assert(seq![(key, v)] + m.drop_first() =~= m.update(0, (key, v)));
    } else {
        assert forall|k: int| 0 <= k < i - 1 implies (#[trigger] m.drop_first()[k]).0 != key by {
            assert(m.drop_first()[k] == m[k + 1]);
        }
        assert(m[0].0 != key);
        lemma_set_member_at(m.drop_first(), key, v, i - 1);
        if i < m.len() {
            assert(seq![m[0]] + m.drop_first().update(i - 1, (key, v)) =~= m.update(i, (key, v)));
        } else {
            assert(seq![m[0]] + m.drop_first().push((key, v)) =~= m.push((key, v)));
        }
    }
}

/// The position of the first member named `key`.
pub(crate) fn member_position(m: &Vec<(String, JsonValue)>, key: &str) -> (r: Option<usize>)
    ensures
        match r {
            Some(i) => i < m@.len() && m@[i as int].0@ == key@ && forall|k: int|
                0 <= k < i ==> (#[trigger] m@[k]).0@ != key@,
            None => forall|k: int| 0 <= k < m@.len() ==> (#[trigger] m@[k]).0@ != key@,
        },
{
    let mut i: usize = 0;
    while i < m.len()
        invariant
            i <= m.len(),
            forall|k: int| 0 <= k < i ==> (#[trigger] m@[k]).0@ != key@,
        decreases m.len() - i,
    {
        if crate::text::str_eq(m[i].0.as_str(), key) {
            return Some(i);
        }
        i += 1;
    }
    None
}

/// Sets the first member named `key` to `v`, appending it when absent.
pub(crate) fn set_member_exec(m: &mut Vec<(String, JsonValue)>, key: &str, v: JsonValue)
    ensures
        members_view(final(m)@) == set_member(members_view(old(m)@), key@, v@),
{
    proof {
        lemma_members_view(m@);
    }
    let ghost before = members_view(m@);
    let pos = member_position(m, key);
    proof {
        match pos {
            Some(i) => {
                assert forall|k: int| 0 <= k < i implies (#[trigger] before[k]).0 != key@ by {
                    assert(before[k].0 == m@[k].0@);
                }
                lemma_set_member_at(before, key@, v@, i as int);
            },
            None => {
                assert forall|k: int| 0 <= k < before.len() implies (#[trigger] before[k]).0 != key@ by {
                    assert(before[k].0 == m@[k].0@);
                }
                lemma_set_member_at(before, key@, v@, before.len() as int);
            },
        }
    }
    let ghost entry_view = (key@, v@);
    match pos {
        Some(i) => {
            let _old = m.remove(i);
            m.insert(i, (owned(key), v));
            proof {
                lemma_members_view(m@);
                assert(members_view(m@) =~= before.update(i as int, entry_view));
            }
        },
        None => {
            m.push((owned(key), v));
            proof {
                lemma_members_view(m@);
                assert(members_view(m@) =~= before.push(entry_view));
            }
        },
    }
}

fn text_value(s: &str) -> (r: JsonValue)
    ensures
        r@ == JsonView::Str(s@),
{
    JsonValue::String(owned(s))
}

fn property_schema(description: &str, first: &str, second: &str) -> (r: JsonValue)
    ensures
        r@ == JsonView::Object(
            seq![
                ("description"@, JsonView::Str(description@)),
                ("enum"@, JsonView::Array(seq![JsonView::Str(first@), JsonView::Str(second@)])),
                ("type"@, JsonView::Str("string"@)),
            ],
        ),
{
    let mut choices: Vec<JsonValue> = Vec::new();
    choices.push(text_value(first));
    choices.push(text_value(second));
    proof {
        lemma_items_view(choices@);
        assert(items_view(choices@) =~= seq![JsonView::Str(first@), JsonView::Str(second@)]);
    }
    let mut members: Vec<(String, JsonValue)> = Vec::new();
    members.push((owned("description"), text_value(description)));
    members.push((owned("enum"), JsonValue::Array(choices)));
    members.push((owned("type"), text_value("string")));
    proof {
        lemma_members_view(members@);
        assert(members_view(members@) =~= seq![
            ("description"@, JsonView::Str(description@)),
            ("enum"@, JsonView::Array(seq![JsonView::Str(first@), JsonView::Str(second@)])),
            ("type"@, JsonView::Str("string"@)),
        ]);
    }
    JsonValue::Object(members)
}

/// Injects the common presentation controls into an object input schema.
pub fn with_presentation_properties(schema: JsonValue) -> (r: JsonValue)
    ensures
        r@ == spec_with_presentation_properties(schema@),
{
    let mut m = match schema {
        JsonValue::Object(m) => m,
        other => return other,
    };
    proof {
        lemma_members_view(m@);
    }
    let ghost m0 = members_view(m@);
    if crate::json::get_member(&m, "properties").is_none() {
        m.push((owned("properties"), JsonValue::Object(Vec::new())));
        proof {
            lemma_members_view(m@);
            assert(members_view(Seq::<(String, JsonValue)>::empty()) =~= Seq::<(Seq<char>, JsonView)>::empty());
            assert(members_view(m@) =~= m0.push(("properties"@, JsonView::Object(Seq::empty()))));
        }
    }
    let ghost m1 = members_view(m@);
    let props = match crate::json::get_member(&m, "properties") {
        Some(p) => match p.duplicate() {
            JsonValue::Object(props) => Some(props),
            _ => None,
        },
        None => None,
    };
    if let Some(mut props) = props {
        set_member_exec(
            &mut props,
            "render",
            property_schema(
                "Output rendering. Defaults to porcelain for model-friendly summaries.",
                "porcelain",
                "json",
            ),
        );
        set_member_exec(
            &mut props,
            "detail",
            property_schema(
                "Output detail level. Concise is the default model-facing summary; full retains more structure.",
                "concise",
                "full",
            ),
        );
        set_member_exec(&mut m, "properties", JsonValue::Object(props));
    }
    let ghost m2 = members_view(m@);
    if crate::json::get_member(&m, "additionalProperties").is_none() {
        let ghost before = m@;
        m.push((owned("additionalProperties"), JsonValue::Bool(false)));
        proof {
            lemma_members_view(m@);
            lemma_members_view(before);
            assert(members_view(m@) =~= m2.push(("additionalProperties"@, JsonView::Bool(false))));
        }
    }
    JsonValue::Object(m)
}

} // verus!

verus! {

/// Escaping distributes over concatenation.
proof fn lemma_escape_concat(a: Seq<char>, b: Seq<char>)
    ensures
        escape(a + b) == escape(a) + escape(b),
    decreases b.len(),
{
    if b.len() == 0 {
        assert(a + b =~= a);
        assert(escape(a) + escape(b) =~= escape(a));
    } else {
        assert((a + b).drop_last() =~= a + b.drop_last());
        assert((a + b).last() == b.last());
        lemma_escape_concat(a, b.drop_last());
        assert(escape(a) + escape(b.drop_last()) + escape_char(b.last()) =~= escape(a) + (escape(b.drop_last())
            + escape_char(b.last())));
    }
}

/// The longest prefix that fits a budget escapes within it.
proof fn lemma_fitting_prefix_fits(s: Seq<char>, budget: int)
    requires
        budget >= 0,
    ensures
        fitting_prefix(s, budget) <= s.len(),
        escape(s.take(fitting_prefix(s, budget) as int)).len() <= budget,
    decreases s.len(),
{
    if s.len() == 0 || escape_char(s[0]).len() > budget {
        assert(s.take(0) =~= Seq::<char>::empty());
    } else {
        let rest = s.drop_first();
        let b = budget - escape_char(s[0]).len();
        lemma_fitting_prefix_fits(rest, b);
        let n = fitting_prefix(rest, b) as int;
        assert(s.take(n + 1) =~= seq![s[0]] + rest.take(n));
        lemma_escape_concat(seq![s[0]], rest.take(n));
        assert(seq![s[0]].drop_last() =~= Seq::<char>::empty());
        assert(seq![s[0]].last() == s[0]);
        assert(escape(Seq::<char>::empty()) == Seq::<char>::empty());
        assert(Seq::<char>::empty() + escape_char(s[0]) =~= escape_char(s[0]));
        assert(escape(seq![s[0]]) == escape_char(s[0]));
    }
}

/// Every inline preview stays within its bound of at least three characters: a cut string
/// keeps its quotes and ends in an ellipsis, any other cut text ends in an ellipsis.
pub proof fn lemma_previews_are_bounded(v: JsonView, max: int)
    requires
        max >= 3,
    ensures
        preview(v, max).len() <= max,
{
    match v {
        JsonView::Str(t) => {
            let c = collapse(t);
            if string_literal(c).len() > max {
                lemma_fitting_prefix_fits(c, max - 3);
            }
        },
        _ => {},
    }
}

/// Porcelain keeps its line bound and marks what it cuts: at most `max_lines` lines, and when
/// lines were cut, the last one says how many were omitted.
pub proof fn lemma_porcelain_lines_are_bounded(v: JsonView, max_lines: int, max_inline: int)
    requires
        max_lines >= 1,
    ensures
        bound_lines(top_lines(v, max_inline), max_lines).len() <= max_lines,
        top_lines(v, max_inline).len() > max_lines ==> bound_lines(top_lines(v, max_inline), max_lines).last()
            == "… "@ + decimal((top_lines(v, max_inline).len() - (max_lines - 1)) as nat) + " more line(s) omitted"@,
        top_lines(v, max_inline).len() <= max_lines ==> bound_lines(top_lines(v, max_inline), max_lines) == top_lines(
            v,
            max_inline,
        ),
{
}

} // verus!

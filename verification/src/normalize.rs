//! Normalization helpers for model-facing input.

use vstd::prelude::*;
use crate::text::{
    all_whitespace, chars_of, chars_start_with, char_is_ascii_digit, is_ascii_digit, owned,
    string_from_chars, trim, trim_chars, is_whitespace, leading_ws, trailing_ws,
};

verus! {

/// A numeric input could not be normalized.
#[derive(Debug, Clone, Copy, PartialEq, Eq, Structural)]
pub enum NumericParseError {
    /// The input was empty.
    Empty,
    /// The input could not be represented as a non-negative integer.
    Invalid,
    /// The integer does not fit the requested machine type.
    OutOfRange,
}

/// A path-like value could not be normalized.
#[derive(Debug, Clone, Copy, PartialEq, Eq, Structural)]
pub enum PathNormalizeError {
    /// The input was empty.
    Empty,
    /// Surrounding whitespace would make the path identity ambiguous.
    SurroundingWhitespace,
    /// The `file://` URI was malformed.
    InvalidFileUri,
    /// The URI does not reference a local path.
    NonLocalFileUri,
}

/// Why a `file://` URI names no local path.
#[derive(Debug, Clone, Copy, PartialEq, Eq, Structural)]
pub enum FileUriError {
    /// The text is not a URL.
    Invalid,
    /// The URL does not denote a local file path.
    NonLocal,
}

/// The local path that `url::Url::parse` followed by `Url::to_file_path`
/// yields for a URI text, displayed as text.
pub uninterp spec fn spec_file_uri_to_path(text: Seq<char>) -> Result<Seq<char>, FileUriError>;

/// A path result taken by the view of its text.
pub open spec fn path_result_view(r: Result<String, FileUriError>) -> Result<Seq<char>, FileUriError> {
    match r {
        Ok(p) => Ok(p@),
        Err(e) => Err(e),
    }
}

/// Resolves a URI text to a local path with `url::Url::parse` and
/// `Url::to_file_path`.
///
/// Trusted: the outcome is the one named by `spec_file_uri_to_path`; a text
/// that `Url::parse` rejects gives `Invalid`, a URL that `to_file_path`
/// rejects gives `NonLocal`.
#[verifier::external_body]
pub(crate) fn file_uri_to_path(text: &str) -> (r: Result<String, FileUriError>)
    ensures
        path_result_view(r) == spec_file_uri_to_path(text@),
{
    match url::Url::parse(text) {
        Err(_) => Err(FileUriError::Invalid),
        Ok(parsed) => match parsed.to_file_path() {
            Ok(path) => Ok(path.display().to_string()),
            Err(()) => Err(FileUriError::NonLocal),
        },
    }
}

pub open spec fn all_digits(s: Seq<char>) -> bool {
    forall|i: int| 0 <= i < s.len() ==> is_ascii_digit(#[trigger] s[i])
}

/// The value of a decimal digit string.
pub open spec fn digits_value(s: Seq<char>) -> nat
    decreases s.len(),
{
    if s.len() == 0 {
        0
    } else {
        digits_value(s.drop_last()) * 10 + ((s.last() as u32) - 48) as nat
    }
}

/// `u64::from_str`: an optional `+` and at least one decimal digit whose value fits.
pub open spec fn spec_parse_u64(s: Seq<char>) -> Option<u64> {
    let d = if s.len() > 0 && s[0] == '+' {
        s.drop_first()
    } else {
        s
    };
    if d.len() > 0 && all_digits(d) && digits_value(d) <= u64::MAX {
        Some(digits_value(d) as u64)
    } else {
        None
    }
}

/// Position of the first `.` in a text, if any.
pub open spec fn first_dot(s: Seq<char>) -> Option<int> {
    if s.contains('.') {
        Some(choose|i: int| 0 <= i < s.len() && s[i] == '.' && forall|k: int| 0 <= k < i ==> s[k] != '.')
    } else {
        None
    }
}

/// The outcome of parsing a human-facing unsigned integer: integers,
/// integer-like decimal spellings such as `42.0`, surrounded by whitespace or not.
pub open spec fn spec_parse_human_unsigned(raw: Seq<char>) -> Result<u64, NumericParseError> {
    let t = trim(raw);
    if t.len() == 0 {
        Err(NumericParseError::Empty)
    } else if spec_parse_u64(t) is Some {
        Ok(spec_parse_u64(t).unwrap())
    } else if !t.contains('.') {
        if all_digits(t) {
            Err(NumericParseError::OutOfRange)
        } else {
            Err(NumericParseError::Invalid)
        }
    } else {
        let dot = first_dot(t).unwrap();
        let integer = t.take(dot);
        let fraction = t.skip(dot + 1);
        if integer.len() == 0 || fraction.len() == 0 || !(forall|i: int|
            0 <= i < fraction.len() ==> #[trigger] fraction[i] == '0') {
            Err(NumericParseError::Invalid)
        } else if spec_parse_u64(integer) is Some {
            Ok(spec_parse_u64(integer).unwrap())
        } else {
            Err(NumericParseError::OutOfRange)
        }
    }
}

proof fn lemma_digits_value_monotone(s: Seq<char>, j: int, k: int)
    requires
        0 <= j <= k <= s.len(),
        all_digits(s),
    ensures
        digits_value(s.take(j)) <= digits_value(s.take(k)),
    decreases k - j,
{
    if j < k {
        lemma_digits_value_monotone(s, j, k - 1);
        assert(s.take(k).drop_last() =~= s.take(k - 1));
        assert(is_ascii_digit(s[k - 1]));
    }
}

fn parse_u64_digits(d: &[char]) -> (r: Option<u64>)
    ensures
        r == (if d@.len() > 0 && all_digits(d@) && digits_value(d@) <= u64::MAX {
            Some(digits_value(d@) as u64)
        } else {
            None::<u64>
        }),
{
    if d.len() == 0 {
        return None;
    }
    let mut value: u64 = 0;
    let mut i: usize = 0;
    while i < d.len()
        invariant
            0 < d.len(),
            i <= d.len(),
            all_digits(d@.take(i as int)),
            value as nat == digits_value(d@.take(i as int)),
        decreases d.len() - i,
    {
        let c = d[i];
        assert(d@.take(i + 1).drop_last() =~= d@.take(i as int));
        if !char_is_ascii_digit(c) {
            return None;
        }
        let digit = (c as u32 - 48) as u64;
        let next = match value.checked_mul(10) {
            Some(v) => v.checked_add(digit),
            None => None,
        };
        match next {
            Some(v) => {
                value = v;
            },
            None => {
                proof {
                    assert(digits_value(d@.take(i + 1)) > u64::MAX);
                    if all_digits(d@) {
                        lemma_digits_value_monotone(d@, i + 1, d@.len() as int);
                        assert(d@.take(d@.len() as int) =~= d@);
                    }
                }
                return None;
            },
        }
        i += 1;
    }
    assert(d@.take(i as int) =~= d@);
    Some(value)
}

fn parse_u64_text(s: &[char]) -> (r: Option<u64>)
    ensures
        r == spec_parse_u64(s@),
{
    if s.len() > 0 && s[0] == '+' {
        let mut rest: Vec<char> = Vec::new();
        let mut i: usize = 1;
        while i < s.len()
            invariant
                1 <= i <= s.len(),
                rest@ == s@.subrange(1, i as int),
            decreases s.len() - i,
        {
            rest.push(s[i]);
            assert(s@.subrange(1, i + 1) =~= s@.subrange(1, i as int).push(s@[i as int]));
            i += 1;
        }
        assert(rest@ =~= s@.drop_first());
        parse_u64_digits(rest.as_slice())
    } else {
        parse_u64_digits(s)
    }
}

fn chars_all_digits(s: &[char]) -> (r: bool)
    ensures
        r == all_digits(s@),
{
    let mut i: usize = 0;
    while i < s.len()
        invariant
            i <= s.len(),
            forall|k: int| 0 <= k < i ==> is_ascii_digit(#[trigger] s@[k]),
        decreases s.len() - i,
    {
        if !char_is_ascii_digit(s[i]) {
            return false;
        }
        i += 1;
    }
    true
}

/// Parses a human-facing unsigned integer.
///
/// This accepts integer numbers, integer-like floating-point spellings such
/// as `42.0`, and numeric strings with surrounding whitespace.
pub fn parse_human_unsigned_u64(raw: &str) -> (r: Result<u64, NumericParseError>)
    ensures
        r == spec_parse_human_unsigned(raw@),
{
    let cs = chars_of(raw);
    let t = trim_chars(cs.as_slice());
    if t.len() == 0 {
        return Err(NumericParseError::Empty);
    }
    if let Some(value) = parse_u64_text(t.as_slice()) {
        return Ok(value);
    }
    let mut dot: usize = 0;
    while dot < t.len() && t[dot] != '.'
        invariant
            dot <= t.len(),
            forall|k: int| 0 <= k < dot ==> t@[k] != '.',
        decreases t.len() - dot,
    {
        dot += 1;
    }
    if dot == t.len() {
        proof {
            assert(!t@.contains('.'));
        }
        return Err(
            if chars_all_digits(t.as_slice()) {
                NumericParseError::OutOfRange
            } else {
                NumericParseError::Invalid
            },
        );
    }
    proof {
        assert(t@.contains('.')) by {
            assert(t@[dot as int] == '.');
        }
        let c = first_dot(t@).unwrap();
        assert(c == dot as int) by {
            if c < dot {
                assert(t@[c] != '.');
            } else if c > dot {
                assert(t@[dot as int] == '.');
            }
        }
    }
    let mut integer: Vec<char> = Vec::new();
    let mut i: usize = 0;
    while i < dot
        invariant
            i <= dot < t.len(),
            integer@ == t@.take(i as int),
        decreases dot - i,
    {
        integer.push(t[i]);
        assert(t@.take(i + 1) =~= t@.take(i as int).push(t@[i as int]));
        i += 1;
    }
    let mut fraction_zeros = true;
    let mut j: usize = dot + 1;
    while j < t.len()
        invariant
            dot < j <= t.len(),
            fraction_zeros == (forall|k: int| dot + 1 <= k < j ==> t@[k] == '0'),
        decreases t.len() - j,
    {
        if t[j] != '0' {
            fraction_zeros = false;
        }
        j += 1;
    }
    let fraction_len = t.len() - dot - 1;
    proof {
        let fraction = t@.skip(dot + 1);
        assert(fraction.len() == fraction_len);
        assert((forall|k: int| 0 <= k < fraction.len() ==> #[trigger] fraction[k] == '0') == fraction_zeros) by {
            if fraction_zeros {
                assert forall|k: int| 0 <= k < fraction.len() implies #[trigger] fraction[k] == '0' by {
                    assert(fraction[k] == t@[dot + 1 + k]);
                }
            } else {
                let k = choose|k: int| dot + 1 <= k < t@.len() && t@[k] != '0';
                assert(fraction[k - dot - 1] == t@[k]);
            }
        }
    }
    if integer.len() == 0 || fraction_len == 0 || !fraction_zeros {
        return Err(NumericParseError::Invalid);
    }
    match parse_u64_text(integer.as_slice()) {
        Some(value) => Ok(value),
        None => Err(NumericParseError::OutOfRange),
    }
}

/// Converts `u64` to the platform index width without saturation.
pub fn checked_u64_to_usize(value: u64) -> (r: Result<usize, NumericParseError>)
    ensures
        value <= usize::MAX ==> r == Ok::<usize, NumericParseError>(value as usize),
        value > usize::MAX ==> r == Err::<usize, NumericParseError>(NumericParseError::OutOfRange),
{
    if value <= usize::MAX as u64 {
        Ok(value as usize)
    } else {
        Err(NumericParseError::OutOfRange)
    }
}

/// `Path::is_absolute` on Unix: the path begins at the root.
pub open spec fn is_absolute_path(p: Seq<char>) -> bool {
    p.len() > 0 && p[0] == '/'
}

/// `Path::join` of a relative path onto a base: a separator is placed
/// between them unless the base is empty or already ends in one.
pub open spec fn join_path(base: Seq<char>, rel: Seq<char>) -> Seq<char> {
    if is_absolute_path(rel) {
        rel
    } else if base.len() == 0 || base.last() == '/' {
        base + rel
    } else {
        base + seq!['/'] + rel
    }
}

/// The outcome of resolving a local path or `file://` URI.
pub open spec fn spec_normalize_local_path(raw: Seq<char>, root: Option<Seq<char>>) -> Result<
    Seq<char>,
    PathNormalizeError,
> {
    if raw.len() == 0 {
        Err(PathNormalizeError::Empty)
    } else if trim(raw) != raw {
        Err(PathNormalizeError::SurroundingWhitespace)
    } else {
        let parsed = if raw.len() >= 7 && raw.take(7) == "file://"@ {
            match spec_file_uri_to_path(raw) {
                Ok(p) => Ok(p),
                Err(FileUriError::Invalid) => Err(PathNormalizeError::InvalidFileUri),
                Err(FileUriError::NonLocal) => Err(PathNormalizeError::NonLocalFileUri),
            }
        } else {
            Ok(raw)
        };
        match parsed {
            Err(e) => Err(e),
            Ok(p) => if is_absolute_path(p) {
                Ok(p)
            } else {
                match root {
                    Some(r) => Ok(join_path(r, p)),
                    None => Ok(p),
                }
            },
        }
    }
}

/// An optional root directory taken by its text.
pub open spec fn root_view(root: Option<&str>) -> Option<Seq<char>> {
    match root {
        Some(r) => Some(r@),
        None => None,
    }
}

/// A normalized path result taken by the view of its text.
pub open spec fn normalized_view(r: Result<String, PathNormalizeError>) -> Result<Seq<char>, PathNormalizeError> {
    match r {
        Ok(p) => Ok(p@),
        Err(e) => Err(e),
    }
}

/// Joins a relative path onto a base directory.
pub fn join_path_text(base: &str, rel: &str) -> (r: String)
    ensures
        r@ == join_path(base@, rel@),
{
    let rc = chars_of(rel);
    if rc.len() > 0 && rc[0] == '/' {
        return owned(rel);
    }
    let bc = chars_of(base);
    let mut out = owned(base);
    if bc.len() > 0 && bc[bc.len() - 1] != '/' {
        out.append("/");
        proof {
            reveal_strlit("/");
        }
    }
    out.append(rel);
    out
}

/// Resolves a local path or `file://` URI to an absolute path, joining a
/// relative path onto the workspace root when one is given.
pub fn normalize_local_path(raw: &str, workspace_root: Option<&str>) -> (r: Result<String, PathNormalizeError>)
    ensures
        normalized_view(r) == spec_normalize_local_path(raw@, root_view(workspace_root)),
{
    let cs = chars_of(raw);
    if cs.len() == 0 {
        return Err(PathNormalizeError::Empty);
    }
    let trimmed = trim_chars(cs.as_slice());
    if !crate::text::chars_eq(trimmed.as_slice(), cs.as_slice()) {
        return Err(PathNormalizeError::SurroundingWhitespace);
    }
    let scheme = chars_of("file://");
    proof {
        reveal_strlit("file://");
    }
    let parsed = if chars_start_with(cs.as_slice(), scheme.as_slice()) {
        match file_uri_to_path(raw) {
            Ok(p) => p,
            Err(FileUriError::Invalid) => return Err(PathNormalizeError::InvalidFileUri),
            Err(FileUriError::NonLocal) => return Err(PathNormalizeError::NonLocalFileUri),
        }
    } else {
        owned(raw)
    };
    let pc = chars_of(parsed.as_str());
    if pc.len() > 0 && pc[0] == '/' {
        return Ok(parsed);
    }
    match workspace_root {
        Some(root) => Ok(join_path_text(root, parsed.as_str())),
        None => Ok(parsed),
    }
}

/// A text with a dot has a first one, at or before any dot.
proof fn lemma_first_dot_at_most(t: Seq<char>, d: int)
    requires
        0 <= d < t.len(),
        t[d] == '.',
    ensures
        exists|i: int| 0 <= i <= d && t[i] == '.' && forall|k: int| 0 <= k < i ==> t[k] != '.',
    decreases d,
{
    if exists|k: int| 0 <= k < d && t[k] == '.' {
        let k = choose|k: int| 0 <= k < d && t[k] == '.';
        lemma_first_dot_at_most(t, k);
    } else {
        assert(0 <= d <= d && t[d] == '.' && forall|k: int| 0 <= k < d ==> t[k] != '.');
    }
}

/// A decimal spelling is integer-like only when every digit after its dot is `0`: once the
/// trimmed text has a dot followed, anywhere later, by a digit from `1` to `9`, it is invalid.
#[verifier::rlimit(60)]
pub proof fn lemma_nonzero_fraction_is_invalid(raw: Seq<char>, d: int, j: int)
    requires
        0 <= d < j < trim(raw).len(),
        trim(raw)[d] == '.',
        '1' <= trim(raw)[j] <= '9',
    ensures
        spec_parse_human_unsigned(raw) == Err::<u64, NumericParseError>(NumericParseError::Invalid),
{
    let t = trim(raw);
    assert(t.contains('.')) by {
        assert(t[d] == '.');
    }
    assert(spec_parse_u64(t) is None) by {
        let e = if t.len() > 0 && t[0] == '+' { t.drop_first() } else { t };
        if t[0] == '+' {
            assert(d >= 1);
            assert(e[d - 1] == t[d]);
            assert(!is_ascii_digit(e[d - 1]));
        } else {
            assert(!is_ascii_digit(e[d]));
        }
    }
    lemma_first_dot_at_most(t, d);
    let dot = first_dot(t).unwrap();
    assert(0 <= dot < t.len() && t[dot] == '.' && forall|k: int| 0 <= k < dot ==> t[k] != '.');
    assert(dot <= d) by {
        if dot > d {
            assert(t[d] != '.');
        }
    }
    let fraction = t.skip(dot + 1);
    assert(fraction[j - dot - 1] == t[j]);
    assert(fraction[j - dot - 1] != '0');
    assert(!(forall|k: int| 0 <= k < fraction.len() ==> #[trigger] fraction[k] == '0'));
}

/// Whether every character of a text is a decimal digit, read character by character.
pub open spec fn decimal_text(s: Seq<char>) -> bool {
    s.len() > 0 && forall|k: int| 0 <= k < s.len() ==> '0' <= #[trigger] s[k] <= '9'
}

/// A plain decimal number parses to its value when it fits in `u64` and is out of range
/// otherwise, whatever whitespace surrounds it.
pub proof fn lemma_decimal_numbers_parse_to_their_value(raw: Seq<char>)
    requires
        decimal_text(trim(raw)),
    ensures
        digits_value(trim(raw)) <= u64::MAX ==> spec_parse_human_unsigned(raw) == Ok::<u64, NumericParseError>(
            digits_value(trim(raw)) as u64,
        ),
        digits_value(trim(raw)) > u64::MAX ==> spec_parse_human_unsigned(raw) == Err::<u64, NumericParseError>(
            NumericParseError::OutOfRange,
        ),
{
    let t = trim(raw);
    assert(t[0] != '+');
    assert(all_digits(t));
    assert(!t.contains('.')) by {
        if t.contains('.') {
            let k = choose|k: int| 0 <= k < t.len() && t[k] == '.';
            assert('0' <= t[k] <= '9');
        }
    }
}

/// An integer-like decimal spelling, digits, a dot and only zeros, parses as its integer part.
pub proof fn lemma_zero_fractions_parse_as_integers(raw: Seq<char>, integer: Seq<char>, zeros: Seq<char>)
    requires
        trim(raw) == integer + seq!['.'] + zeros,
        decimal_text(integer),
        zeros.len() > 0,
        forall|k: int| 0 <= k < zeros.len() ==> #[trigger] zeros[k] == '0',
    ensures
        digits_value(integer) <= u64::MAX ==> spec_parse_human_unsigned(raw) == Ok::<u64, NumericParseError>(
            digits_value(integer) as u64,
        ),
        digits_value(integer) > u64::MAX ==> spec_parse_human_unsigned(raw) == Err::<u64, NumericParseError>(
            NumericParseError::OutOfRange,
        ),
{
    let t = trim(raw);
    let n = integer.len() as int;
    assert(t[n] == '.');
    assert(forall|k: int| 0 <= k < n ==> #[trigger] t[k] == integer[k]);
    assert(t.contains('.'));
    assert(t[0] == integer[0]);
    assert(spec_parse_u64(t) is None) by {
        assert(!is_ascii_digit(t[n]));
    }
    lemma_first_dot_at_most(t, n);
    let dot = first_dot(t).unwrap();
    assert(0 <= dot < t.len() && t[dot] == '.' && forall|k: int| 0 <= k < dot ==> t[k] != '.');
    assert(dot == n) by {
        if dot < n {
            assert(t[dot] == integer[dot]);
        } else if dot > n {
            assert(t[n] != '.');
        }
    }
    assert(t.take(dot) =~= integer);
    assert(t.skip(dot + 1) =~= zeros);
    assert(integer[0] != '+');
    assert(all_digits(integer));
}

/// A text without a dot that holds a character other than a digit, a leading `+` aside, is
/// invalid.
pub proof fn lemma_foreign_characters_are_invalid(raw: Seq<char>, j: int)
    requires
        0 <= j < trim(raw).len(),
        !('0' <= trim(raw)[j] <= '9'),
        trim(raw)[j] != '.',
        !(j == 0 && trim(raw)[j] == '+'),
        forall|k: int| 0 <= k < trim(raw).len() ==> #[trigger] trim(raw)[k] != '.',
    ensures
        spec_parse_human_unsigned(raw) == Err::<u64, NumericParseError>(NumericParseError::Invalid),
{
    let t = trim(raw);
    assert(!t.contains('.'));
    assert(!all_digits(t)) by {
        assert(!is_ascii_digit(t[j]));
    }
    assert(spec_parse_u64(t) is None) by {
        if t[0] == '+' {
            assert(j >= 1);
            assert(t.drop_first()[j - 1] == t[j]);
            assert(!is_ascii_digit(t.drop_first()[j - 1]));
        } else {
            assert(!is_ascii_digit(t[j]));
        }
    }
}

/// Trimming never lengthens a text, and a text that starts or ends with whitespace is changed
/// by it.
proof fn lemma_trim_shortens(s: Seq<char>)
    requires
        s.len() > 0,
        is_whitespace(s[0]) || is_whitespace(s.last()),
    ensures
        trim(s).len() < s.len(),
{
    let lw = leading_ws(s);
    let front = s.skip(lw as int);
    assert(lw <= s.len()) by {
        lemma_leading_ws_bound(s);
    }
    lemma_trailing_ws_bound(front);
    if is_whitespace(s[0]) {
        assert(lw >= 1);
    } else {
        assert(lw == 0);
        assert(front =~= s);
        assert(trailing_ws(front) >= 1);
    }
}

proof fn lemma_leading_ws_bound(s: Seq<char>)
    ensures
        leading_ws(s) <= s.len(),
    decreases s.len(),
{
    if s.len() > 0 && is_whitespace(s[0]) {
        lemma_leading_ws_bound(s.drop_first());
    }
}

proof fn lemma_trailing_ws_bound(s: Seq<char>)
    ensures
        trailing_ws(s) <= s.len(),
    decreases s.len(),
{
    if s.len() > 0 && is_whitespace(s.last()) {
        lemma_trailing_ws_bound(s.drop_last());
    }
}

/// Path normalization refuses an empty path and a path with surrounding whitespace, keeps an
/// absolute path as it is, and resolves a relative path under the workspace root: the result
/// then begins with the root and ends with the path, at most one separator between them.
pub proof fn lemma_local_paths_resolve_under_the_root(raw: Seq<char>, root: Option<Seq<char>>)
    ensures
        raw.len() == 0 ==> spec_normalize_local_path(raw, root) == Err::<Seq<char>, PathNormalizeError>(
            PathNormalizeError::Empty,
        ),
        raw.len() > 0 && (is_whitespace(raw[0]) || is_whitespace(raw.last())) ==> spec_normalize_local_path(raw, root)
            == Err::<Seq<char>, PathNormalizeError>(PathNormalizeError::SurroundingWhitespace),
        raw.len() > 0 && trim(raw) == raw && raw[0] == '/' ==> spec_normalize_local_path(raw, root) == Ok::<
            Seq<char>,
            PathNormalizeError,
        >(raw),
        raw.len() > 0 && trim(raw) == raw && raw[0] != '/' && raw[0] != 'f' ==> match root {
            None => spec_normalize_local_path(raw, root) == Ok::<Seq<char>, PathNormalizeError>(raw),
            Some(r) => spec_normalize_local_path(raw, root) matches Ok(p) && p.len() <= r.len() + 1 + raw.len()
                && p.take(r.len() as int) == r && p.skip(p.len() - raw.len()) == raw,
        },
{
    reveal_strlit("file://");
    if raw.len() > 0 && (is_whitespace(raw[0]) || is_whitespace(raw.last())) {
        lemma_trim_shortens(raw);
    }
    if raw.len() > 0 && trim(raw) == raw && raw[0] == '/' {
        if raw.len() >= 7 {
            assert(raw.take(7)[0] == '/');
        }
    }
    if raw.len() > 0 && trim(raw) == raw && raw[0] != '/' && raw[0] != 'f' {
        if raw.len() >= 7 {
            assert(raw.take(7)[0] != 'f');
        }
        if let Some(r) = root {
            let p = spec_normalize_local_path(raw, root)->Ok_0;
            if r.len() == 0 || r.last() == '/' {
                assert(p =~= r + raw);
                assert(p.take(r.len() as int) =~= r);
                assert(p.skip(p.len() - raw.len()) =~= raw);
            } else {
                assert(p =~= r + seq!['/'] + raw);
                assert(p.take(r.len() as int) =~= r);
                assert(p.skip(p.len() - raw.len()) =~= raw);
            }
        }
    }
}

} // verus!

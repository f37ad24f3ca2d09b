//! JSON Pointer lookup (RFC 6901) over decoded documents.

use vstd::prelude::*;
use crate::json::{JsonValue, JsonView, get_member, lemma_items_view, member, members_view};
use crate::text::chars_of;

verus! {

/// A pointer text split at every `/`, keeping empty pieces.
pub open spec fn split_slash(s: Seq<char>) -> Seq<Seq<char>>
    decreases s.len(),
{
    if s.len() == 0 {
        seq![Seq::empty()]
    } else {
        let rest = split_slash(s.drop_first());
        if s[0] == '/' {
            seq![Seq::<char>::empty()] + rest
        } else {
            rest.update(0, seq![s[0]] + rest[0])
        }
    }
}

/// Replaces every `~` followed by `c` with `r`, scanning left to right.
pub open spec fn replace_escape(s: Seq<char>, c: char, r: char) -> Seq<char>
    decreases s.len(),
{
    if s.len() == 0 {
        s
    } else if s.len() >= 2 && s[0] == '~' && s[1] == c {
        seq![r] + replace_escape(s.skip(2), c, r)
    } else {
        seq![s[0]] + replace_escape(s.drop_first(), c, r)
    }
}

/// A reference token with `~1` decoded to `/` and then `~0` decoded to `~`.
pub open spec fn unescape_token(t: Seq<char>) -> Seq<char> {
    replace_escape(replace_escape(t, '1', '/'), '0', '~')
}

/// The value of a run of decimal digits.
pub open spec fn digits_value(t: Seq<char>) -> nat
    decreases t.len(),
{
    if t.len() == 0 {
        0
    } else {
        digits_value(t.drop_last()) * 10 + ((t.last() as int) - 48) as nat
    }
}

/// The array index a token denotes: decimal digits without a sign or a leading zero.
pub open spec fn token_index(t: Seq<char>) -> Option<nat> {
    if t.len() > 0 && (forall|i: int| 0 <= i < t.len() ==> '0' <= #[trigger] t[i] <= '9') && (t[0] != '0'
        || t.len() == 1) {
        Some(digits_value(t))
    } else {
        None
    }
}

/// The value reached by following reference tokens.
pub open spec fn follow_tokens(v: JsonView, tokens: Seq<Seq<char>>) -> Option<JsonView>
    decreases tokens.len(),
{
    if tokens.len() == 0 {
        Some(v)
    } else {
        let next = match v {
            JsonView::Object(m) => member(m, tokens[0]),
            JsonView::Array(items) => match token_index(tokens[0]) {
                Some(i) => if i < items.len() {
                    Some(items[i as int])
                } else {
                    None
                },
                None => None,
            },
            _ => None,
        };
        match next {
            Some(n) => follow_tokens(n, tokens.drop_first()),
            None => None,
        }
    }
}

/// The value a JSON Pointer addresses: the whole document for the empty pointer, nothing for a
/// pointer that does not begin with `/`.
pub open spec fn json_pointer(v: JsonView, p: Seq<char>) -> Option<JsonView> {
    if p.len() == 0 {
        Some(v)
    } else if p[0] != '/' {
        None
    } else {
        follow_tokens(v, split_slash(p.drop_first()).map_values(|t: Seq<char>| unescape_token(t)))
    }
}

/// The texts of a list of character vectors.
pub open spec fn char_texts(v: Seq<Vec<char>>) -> Seq<Seq<char>> {
    v.map_values(|t: Vec<char>| t@)
}

/// Splits characters at every `/`, keeping empty pieces.
fn split_slash_chars(cs: &[char]) -> (r: Vec<Vec<char>>)
    ensures
        char_texts(r@) == split_slash(cs@),
{
    let mut pieces: Vec<Vec<char>> = Vec::new();
    pieces.push(Vec::new());
    let mut i: usize = cs.len();
    assert(cs@.skip(i as int) =~= Seq::<char>::empty());
    assert(char_texts(pieces@) =~= seq![Seq::<char>::empty()]);
    while i > 0
        invariant
            i <= cs.len(),
            char_texts(pieces@) == split_slash(cs@.skip(i as int)),
        decreases i,
    {
        i -= 1;
        let c = cs[i];
        let ghost tail = cs@.skip(i + 1);
        assert(cs@.skip(i as int).drop_first() =~= tail);
        assert(cs@.skip(i as int)[0] == c);
        proof {
            assert(split_slash(tail).len() > 0) by {
                lemma_split_nonempty(tail);
            }
        }
        if c == '/' {
            let ghost before = pieces@;
            pieces.insert(0, Vec::new());
            assert(char_texts(pieces@) =~= seq![Seq::<char>::empty()] + char_texts(before));
        } else {
            let ghost before = pieces@;
            assert(before.len() > 0);
            let mut first = pieces[0].clone();
            first.insert(0, c);
            pieces.set(0, first);
            assert(pieces@[0]@ == seq![c] + before[0]@);
            assert forall|j: int| 0 <= j < pieces@.len() implies #[trigger] char_texts(pieces@)[j] == char_texts(
                before,
            ).update(0, seq![c] + char_texts(before)[0])[j] by {
                if j > 0 {
                    assert(pieces@[j] == before[j]);
                }
            }
            assert(char_texts(pieces@) =~= char_texts(before).update(0, seq![c] + char_texts(before)[0]));
        }
    }
    assert(cs@.skip(0) =~= cs@);
    pieces
}

/// Splitting always yields at least one piece.
proof fn lemma_split_nonempty(s: Seq<char>)
    ensures
        split_slash(s).len() > 0,
    decreases s.len(),
{
    if s.len() > 0 {
        lemma_split_nonempty(s.drop_first());
    }
}

/// Replaces every `~` followed by `c` with `r`.
fn replace_escape_chars(s: &Vec<char>, c: char, r: char) -> (out: Vec<char>)
    ensures
        out@ == replace_escape(s@, c, r),
{
    let mut out: Vec<char> = Vec::new();
    let mut i: usize = 0;
    assert(s@.skip(0) =~= s@);
    assert(out@ + replace_escape(s@, c, r) =~= replace_escape(s@, c, r));
    while i < s.len()
        invariant
            i <= s.len(),
            out@ + replace_escape(s@.skip(i as int), c, r) == replace_escape(s@, c, r),
        decreases s.len() - i,
    {
        let ghost rest = s@.skip(i as int);
        if i + 1 < s.len() && s[i] == '~' && s[i + 1] == c {
            assert(rest.skip(2) =~= s@.skip(i + 2));
            out.push(r);
            assert(out@ + replace_escape(s@.skip(i + 2), c, r) =~= out@.drop_last() + replace_escape(rest, c, r));
            i += 2;
        } else {
            assert(rest.drop_first() =~= s@.skip(i + 1));
            out.push(s[i]);
            assert(out@ + replace_escape(s@.skip(i + 1), c, r) =~= out@.drop_last() + replace_escape(rest, c, r));
            i += 1;
        }
    }
    assert(s@.skip(i as int) =~= Seq::<char>::empty());
    assert(out@ + Seq::<char>::empty() =~= out@);
    out
}

/// Prefixes of a digit run never exceed its value.
proof fn lemma_digits_prefix(t: Seq<char>, k: int)
    requires
        0 <= k <= t.len(),
    ensures
        digits_value(t.take(k)) <= digits_value(t),
    decreases t.len() - k,
{
    if k < t.len() {
        lemma_digits_prefix(t, k + 1);
        assert(t.take(k + 1).drop_last() =~= t.take(k));
        assert(digits_value(t.take(k + 1)) == digits_value(t.take(k)) * 10 + ((t.take(k + 1).last() as int) - 48) as nat);
    } else {
        assert(t.take(k) =~= t);
    }
}

/// The array position a token denotes within an array of `len` items.
fn token_position(t: &Vec<char>, len: usize) -> (r: Option<usize>)
    ensures
        match token_index(t@) {
            Some(i) => if i < len {
                r == Some(i as usize)
            } else {
                r is None
            },
            None => r is None,
        },
{
    if len == 0 || t.len() == 0 || (t[0] == '0' && t.len() != 1) {
        return None;
    }
    let mut value: usize = 0;
    let mut i: usize = 0;
    while i < t.len()
        invariant
            i <= t.len(),
            t@.len() > 0,
            len > 0,
            forall|k: int| 0 <= k < i ==> '0' <= #[trigger] t@[k] <= '9',
            value == digits_value(t@.take(i as int)),
            value < len || i == 0,
        decreases t.len() - i,
    {
        let c = t[i];
        if !('0' <= c && c <= '9') {
            return None;
        }
        let digit = (c as u32 - 48) as usize;
        assert(t@.take(i + 1).drop_last() =~= t@.take(i as int));
        let out_of_range = if value > (len - 1) / 10 {
            true
        } else {
            assert(value * 10 <= len) by (nonlinear_arith)
                requires
                    value <= (len - 1) / 10,
                    len > 0,
            {
            }
            digit >= len - value * 10
        };
        if out_of_range {
            proof {
                assert(digits_value(t@.take(i + 1)) >= len) by (nonlinear_arith)
                    requires
                        value > (len - 1) / 10 || value * 10 + digit >= len,
                        digits_value(t@.take(i + 1)) == value * 10 + digit,
                        len > 0,
                {
                }
                lemma_digits_prefix(t@, i + 1);
            }
            return None;
        }
        value = value * 10 + digit;
        i += 1;
    }
    assert(t@.take(i as int) =~= t@);
    Some(value)
}

/// Looks up the value a JSON Pointer addresses.
pub fn pointer_get<'a>(value: &'a JsonValue, pointer: &str) -> (r: Option<&'a JsonValue>)
    ensures
        match r {
            Some(v) => json_pointer(value@, pointer@) == Some(v@),
            None => json_pointer(value@, pointer@) is None,
        },
{
    let cs = chars_of(pointer);
    if cs.len() == 0 {
        return Some(value);
    }
    if cs[0] != '/' {
        return None;
    }
    let mut rest: Vec<char> = Vec::new();
    let mut i: usize = 1;
    while i < cs.len()
        invariant
            1 <= i <= cs.len(),
            rest@ == cs@.subrange(1, i as int),
        decreases cs.len() - i,
    {
        rest.push(cs[i]);
        assert(rest@ =~= cs@.subrange(1, i + 1));
        i += 1;
    }
    assert(rest@ =~= pointer@.drop_first());
    let pieces = split_slash_chars(rest.as_slice());
    let ghost tokens = split_slash(pointer@.drop_first()).map_values(|t: Seq<char>| unescape_token(t));
    let mut current: &JsonValue = value;
    let mut k: usize = 0;
    assert(tokens.skip(0) =~= tokens);
    while k < pieces.len()
        invariant
            k <= pieces.len(),
            char_texts(pieces@) == split_slash(pointer@.drop_first()),
            tokens == split_slash(pointer@.drop_first()).map_values(|t: Seq<char>| unescape_token(t)),
            tokens.len() == pieces@.len(),
            json_pointer(value@, pointer@) == follow_tokens(current@, tokens.skip(k as int)),
        decreases pieces.len() - k,
    {
        let once = replace_escape_chars(&pieces[k], '1', '/');
        let token = replace_escape_chars(&once, '0', '~');
        let ghost rest_tokens = tokens.skip(k as int);
        assert(rest_tokens[0] == token@);
        assert(rest_tokens.drop_first() =~= tokens.skip(k + 1));
        let next: Option<&JsonValue> = match current {
            JsonValue::Object(m) => {
                let text = crate::text::string_from_chars(token.as_slice());
                get_member(m, text.as_str())
            },
            JsonValue::Array(items) => {
                proof {
                    lemma_items_view(items@);
                }
                match token_position(&token, items.len()) {
                    Some(index) => Some(&items[index]),
                    None => None,
                }
            },
            _ => None,
        };
        match next {
            Some(n) => {
                current = n;
            },
            None => {
                return None;
            },
        }
        k += 1;
    }
    assert(tokens.skip(k as int) =~= Seq::<Seq<char>>::empty());
    Some(current)
}

} // verus!

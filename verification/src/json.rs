//! A plain JSON document model: the values that frames, catalogs and
//! projections carry, with member order and repeated members preserved.

use vstd::prelude::*;
use crate::text::{chars_of, decimal, i64_decimal, signed_decimal, str_eq, u64_decimal};

verus! {

/// A JSON number: unsigned and negative integers exactly, other numbers by
/// their canonical decimal text.
#[derive(Debug, Clone, PartialEq, Eq, Hash)]
pub enum JsonNumber {
    /// A non-negative integer.
    Unsigned(u64),
    /// A negative integer.
    Negative(i64),
    /// A number with a fraction or exponent, by its canonical text.
    Float(String),
}

/// A JSON value.  Object members keep document order; a repeated member name
/// is kept as written so that callers can reject it.
#[derive(Debug, PartialEq, Eq)]
pub enum JsonValue {
    Null,
    Bool(bool),
    Number(JsonNumber),
    String(String),
    Array(Vec<JsonValue>),
    Object(Vec<(String, JsonValue)>),
}

/// Mathematical model of a JSON number.
pub enum NumberView {
    Unsigned(u64),
    Negative(i64),
    Float(Seq<char>),
}

/// Mathematical model of a JSON value.
pub enum JsonView {
    Null,
    Bool(bool),
    Number(NumberView),
    Str(Seq<char>),
    Array(Seq<JsonView>),
    Object(Seq<(Seq<char>, JsonView)>),
}

pub open spec fn number_view(n: JsonNumber) -> NumberView {
    match n {
        JsonNumber::Unsigned(u) => NumberView::Unsigned(u),
        JsonNumber::Negative(i) => NumberView::Negative(i),
        JsonNumber::Float(t) => NumberView::Float(t@),
    }
}

pub open spec fn json_view(j: JsonValue) -> JsonView
    decreases j,
{
    match j {
        JsonValue::Null => JsonView::Null,
        JsonValue::Bool(b) => JsonView::Bool(b),
        JsonValue::Number(n) => JsonView::Number(number_view(n)),
        JsonValue::String(s) => JsonView::Str(s@),
        JsonValue::Array(v) => JsonView::Array(items_view(v@)),
        JsonValue::Object(m) => JsonView::Object(members_view(m@)),
    }
}

pub open spec fn items_view(s: Seq<JsonValue>) -> Seq<JsonView>
    decreases s,
{
    if s.len() == 0 {
        Seq::empty()
    } else {
        items_view(s.drop_last()).push(json_view(s.last()))
    }
}

pub open spec fn members_view(s: Seq<(String, JsonValue)>) -> Seq<(Seq<char>, JsonView)>
    decreases s,
{
    if s.len() == 0 {
        Seq::empty()
    } else {
        members_view(s.drop_last()).push((s.last().0@, json_view(s.last().1)))
    }
}

impl View for JsonNumber {
    type V = NumberView;

    open spec fn view(&self) -> NumberView {
        number_view(*self)
    }
}

impl View for JsonValue {
    type V = JsonView;

    open spec fn view(&self) -> JsonView {
        json_view(*self)
    }
}

pub proof fn lemma_items_view(s: Seq<JsonValue>)
    ensures
        items_view(s).len() == s.len(),
        forall|i: int| 0 <= i < s.len() ==> #[trigger] items_view(s)[i] == json_view(s[i]),
    decreases s.len(),
{
    if s.len() > 0 {
        lemma_items_view(s.drop_last());
    }
}

pub proof fn lemma_members_view(s: Seq<(String, JsonValue)>)
    ensures
        members_view(s).len() == s.len(),
        forall|i: int|
            0 <= i < s.len() ==> #[trigger] members_view(s)[i] == (s[i].0@, json_view(s[i].1)),
    decreases s.len(),
{
    if s.len() > 0 {
        lemma_members_view(s.drop_last());
    }
}

/// The first member named `key`, if any.
pub open spec fn member(m: Seq<(Seq<char>, JsonView)>, key: Seq<char>) -> Option<JsonView>
    decreases m.len(),
{
    if m.len() == 0 {
        None
    } else if m[0].0 == key {
        Some(m[0].1)
    } else {
        member(m.drop_first(), key)
    }
}

pub open spec fn has_member(m: Seq<(Seq<char>, JsonView)>, key: Seq<char>) -> bool {
    member(m, key) is Some
}

pub proof fn lemma_member_index(m: Seq<(Seq<char>, JsonView)>, key: Seq<char>)
    ensures
        member(m, key) is Some <==> exists|i: int| 0 <= i < m.len() && #[trigger] m[i].0 == key,
        member(m, key) is Some ==> exists|i: int|
            0 <= i < m.len() && #[trigger] m[i].0 == key && member(m, key) == Some(m[i].1)
                && forall|k: int| 0 <= k < i ==> m[k].0 != key,
    decreases m.len(),
{
    if m.len() > 0 {
        lemma_member_index(m.drop_first(), key);
        if m[0].0 != key {
            if member(m, key) is Some {
                let i = choose|i: int|
                    0 <= i < m.drop_first().len() && #[trigger] m.drop_first()[i].0 == key
                        && member(m.drop_first(), key) == Some(m.drop_first()[i].1) && forall|
                        k: int,
                    |
                        0 <= k < i ==> m.drop_first()[k].0 != key;
                assert(m[i + 1].0 == key);
                assert forall|k: int| 0 <= k < i + 1 implies m[k].0 != key by {
                    if k > 0 {
                        assert(m[k] == m.drop_first()[k - 1]);
                    }
                }
            }
            if exists|i: int| 0 <= i < m.len() && #[trigger] m[i].0 == key {
                let i = choose|i: int| 0 <= i < m.len() && #[trigger] m[i].0 == key;
                assert(m.drop_first()[i - 1].0 == key);
            }
        } else {
            assert(m[0].0 == key);
        }
    }
}

pub open spec fn view_as_str(v: JsonView) -> Option<Seq<char>> {
    match v {
        JsonView::Str(s) => Some(s),
        _ => None,
    }
}

pub open spec fn view_as_object(v: JsonView) -> Option<Seq<(Seq<char>, JsonView)>> {
    match v {
        JsonView::Object(m) => Some(m),
        _ => None,
    }
}

pub open spec fn view_as_bool(v: JsonView) -> Option<bool> {
    match v {
        JsonView::Bool(b) => Some(b),
        _ => None,
    }
}

/// `serde_json::Value::as_i64`.
pub open spec fn view_as_i64(v: JsonView) -> Option<i64> {
    match v {
        JsonView::Number(NumberView::Unsigned(u)) => if u <= i64::MAX {
            Some(u as i64)
        } else {
            None
        },
        JsonView::Number(NumberView::Negative(i)) => Some(i),
        _ => None,
    }
}

/// `serde_json::Value::as_u64`.
pub open spec fn view_as_u64(v: JsonView) -> Option<u64> {
    match v {
        JsonView::Number(NumberView::Unsigned(u)) => Some(u),
        _ => None,
    }
}

/// The first repeated member name at any depth, in document order, as a
/// streaming reader meets it: a repetition inside a member's value is met
/// before the repetition of that member's own name.
pub open spec fn first_duplicate(v: JsonView) -> Option<Seq<char>>
    decreases v,
{
    match v {
        JsonView::Array(items) => items_duplicate(items),
        JsonView::Object(members) => members_duplicate(members),
        _ => None,
    }
}

pub open spec fn items_duplicate(s: Seq<JsonView>) -> Option<Seq<char>>
    decreases s,
{
    if s.len() == 0 {
        None
    } else {
        let prev = items_duplicate(s.drop_last());
        if prev is Some {
            prev
        } else {
            first_duplicate(s.last())
        }
    }
}

pub open spec fn member_names(s: Seq<(Seq<char>, JsonView)>) -> Seq<Seq<char>> {
    s.map_values(|m: (Seq<char>, JsonView)| m.0)
}

pub open spec fn members_duplicate(s: Seq<(Seq<char>, JsonView)>) -> Option<Seq<char>>
    decreases s,
{
    if s.len() == 0 {
        None
    } else {
        let prev = members_duplicate(s.drop_last());
        if prev is Some {
            prev
        } else if first_duplicate(s.last().1) is Some {
            first_duplicate(s.last().1)
        } else if member_names(s.drop_last()).contains(s.last().0) {
            Some(s.last().0)
        } else {
            None
        }
    }
}

impl JsonNumber {
    /// A copy with the same value.
    pub fn duplicate(&self) -> (r: Self)
        ensures
            r@ == self@,
    {
        match self {
            JsonNumber::Unsigned(u) => JsonNumber::Unsigned(*u),
            JsonNumber::Negative(i) => JsonNumber::Negative(*i),
            JsonNumber::Float(t) => JsonNumber::Float(t.clone()),
        }
    }

    /// Whether two numbers are the same JSON number.
    pub fn same_as(&self, other: &Self) -> (r: bool)
        ensures
            r == (self@ == other@),
    {
        match (self, other) {
            (JsonNumber::Unsigned(a), JsonNumber::Unsigned(b)) => *a == *b,
            (JsonNumber::Negative(a), JsonNumber::Negative(b)) => *a == *b,
            (JsonNumber::Float(a), JsonNumber::Float(b)) => str_eq(a.as_str(), b.as_str()),
            _ => false,
        }
    }

    /// `serde_json::Number::as_i64`.
    pub fn as_i64(&self) -> (r: Option<i64>)
        ensures
            r == view_as_i64(JsonView::Number(self@)),
    {
        match self {
            JsonNumber::Unsigned(u) => if *u <= i64::MAX as u64 {
                Some(*u as i64)
            } else {
                None
            },
            JsonNumber::Negative(i) => Some(*i),
            JsonNumber::Float(_) => None,
        }
    }

    /// The canonical decimal text of the number.
    pub fn text(&self) -> (r: Vec<char>)
        ensures
            r@ == number_text(self@),
    {
        match self {
            JsonNumber::Unsigned(u) => u64_decimal(*u),
            JsonNumber::Negative(i) => i64_decimal(*i),
            JsonNumber::Float(t) => chars_of(t.as_str()),
        }
    }
}

/// The canonical decimal text of a number (`serde_json::Number` display).
pub open spec fn number_text(n: NumberView) -> Seq<char> {
    match n {
        NumberView::Unsigned(u) => decimal(u as nat),
        NumberView::Negative(i) => signed_decimal(i as int),
        NumberView::Float(t) => t,
    }
}

/// Looks up the first member named `key`.
pub fn get_member<'a>(members: &'a Vec<(String, JsonValue)>, key: &str) -> (r: Option<&'a JsonValue>)
    ensures
        r matches Some(v) ==> member(members_view(members@), key@) == Some(v@),
        r is None ==> member(members_view(members@), key@) is None,
{
    proof {
        lemma_members_view(members@);
    }
    let mut i: usize = 0;
    while i < members.len()
        invariant
            i <= members.len(),
            members_view(members@).len() == members@.len(),
            forall|k: int| 0 <= k < i ==> (#[trigger] members_view(members@)[k]).0 != key@,
            forall|k: int|
                0 <= k < members@.len() ==> #[trigger] members_view(members@)[k] == (
                    members@[k].0@,
                    json_view(members@[k].1),
                ),
        decreases members.len() - i,
    {
        if str_eq(members[i].0.as_str(), key) {
            proof {
                lemma_member_at(members_view(members@), key@, i as int);
            }
            return Some(&members[i].1);
        }
        i += 1;
    }
    proof {
        lemma_member_at(members_view(members@), key@, members@.len() as int);
    }
    None
}

/// The first member named `key` sits at the first index carrying that name.
pub proof fn lemma_member_at(m: Seq<(Seq<char>, JsonView)>, key: Seq<char>, i: int)
    requires
        0 <= i <= m.len(),
        forall|k: int| 0 <= k < i ==> (#[trigger] m[k]).0 != key,
        i < m.len() ==> m[i].0 == key,
    ensures
        i < m.len() ==> member(m, key) == Some(m[i].1),
        i == m.len() ==> member(m, key) is None,
    decreases m.len(),
{
    if m.len() > 0 && i > 0 {
        assert forall|k: int| 0 <= k < i - 1 implies (#[trigger] m.drop_first()[k]).0 != key by {
            assert(m.drop_first()[k] == m[k + 1]);
        }
        assert(m[0].0 != key);
        lemma_member_at(m.drop_first(), key, i - 1);
    }
}

impl JsonValue {
    /// A deep copy with the same value.
    pub fn duplicate(&self) -> (r: Self)
        ensures
            r@ == self@,
        decreases self,
    {
        match self {
            JsonValue::Null => JsonValue::Null,
            JsonValue::Bool(b) => JsonValue::Bool(*b),
            JsonValue::Number(n) => JsonValue::Number(n.duplicate()),
            JsonValue::String(s) => JsonValue::String(s.clone()),
            JsonValue::Array(v) => {
                let mut out: Vec<JsonValue> = Vec::new();
                let mut i: usize = 0;
                while i < v.len()
                    invariant
                        *self == JsonValue::Array(*v),
                        i <= v.len(),
                        items_view(out@) == items_view(v@.take(i as int)),
                    decreases v.len() - i,
                {
                    proof {
                        assert(decreases_to!(*self => (*self)->Array_0));
                        assert(decreases_to!(*v => v@));
                        assert(decreases_to!(v@ => v@[i as int]));
                    }
                    let e = v[i].duplicate();
                    let ghost old_out = out@;
                    out.push(e);
                    proof {
                        assert(out@.drop_last() =~= old_out);
                        assert(v@.take(i + 1).drop_last() =~= v@.take(i as int));
                    }
                    i += 1;
                }
                assert(v@.take(i as int) =~= v@);
                JsonValue::Array(out)
            },
            JsonValue::Object(m) => {
                let mut out: Vec<(String, JsonValue)> = Vec::new();
                let mut i: usize = 0;
                while i < m.len()
                    invariant
                        *self == JsonValue::Object(*m),
                        i <= m.len(),
                        members_view(out@) == members_view(m@.take(i as int)),
                    decreases m.len() - i,
                {
                    proof {
                        assert(decreases_to!(*self => (*self)->Object_0));
                        assert(decreases_to!(*m => m@));
                        assert(decreases_to!(m@ => m@[i as int]));
                        assert(decreases_to!(m@[i as int] => m@[i as int].1));
                    }
                    let e = (m[i].0.clone(), m[i].1.duplicate());
                    let ghost old_out = out@;
                    out.push(e);
                    proof {
                        assert(out@.drop_last() =~= old_out);
                        assert(m@.take(i + 1).drop_last() =~= m@.take(i as int));
                    }
                    i += 1;
                }
                assert(m@.take(i as int) =~= m@);
                JsonValue::Object(out)
            },
        }
    }

    /// The text of a string value.
    pub fn as_str(&self) -> (r: Option<&String>)
        ensures
            r matches Some(s) ==> view_as_str(self@) == Some(s@),
            r is None ==> view_as_str(self@) is None,
    {
        match self {
            JsonValue::String(s) => Some(s),
            _ => None,
        }
    }

    /// The members of an object value.
    pub fn as_object(&self) -> (r: Option<&Vec<(String, JsonValue)>>)
        ensures
            r matches Some(m) ==> view_as_object(self@) == Some(members_view(m@)),
            r is None ==> view_as_object(self@) is None,
    {
        match self {
            JsonValue::Object(m) => Some(m),
            _ => None,
        }
    }

    /// The items of an array value.
    pub fn as_array(&self) -> (r: Option<&Vec<JsonValue>>)
        ensures
            r matches Some(v) ==> self@ == JsonView::Array(items_view(v@)),
            r is None ==> !(self@ is Array),
    {
        match self {
            JsonValue::Array(v) => Some(v),
            _ => None,
        }
    }

    /// The value of a boolean.
    pub fn as_bool(&self) -> (r: Option<bool>)
        ensures
            r == view_as_bool(self@),
    {
        match self {
            JsonValue::Bool(b) => Some(*b),
            _ => None,
        }
    }

    /// `serde_json::Value::as_i64`.
    pub fn as_i64(&self) -> (r: Option<i64>)
        ensures
            r == view_as_i64(self@),
    {
        match self {
            JsonValue::Number(n) => n.as_i64(),
            _ => None,
        }
    }

    /// `serde_json::Value::as_u64`.
    pub fn as_u64(&self) -> (r: Option<u64>)
        ensures
            r == view_as_u64(self@),
    {
        match self {
            JsonValue::Number(JsonNumber::Unsigned(u)) => Some(*u),
            _ => None,
        }
    }

    pub fn is_object(&self) -> (r: bool)
        ensures
            r == (self@ is Object),
    {
        matches!(self, JsonValue::Object(_))
    }

    pub fn is_array(&self) -> (r: bool)
        ensures
            r == (self@ is Array),
    {
        matches!(self, JsonValue::Array(_))
    }

    /// The first repeated member name at any depth, as a streaming reader
    /// meets it.
    pub fn first_duplicate_member(&self) -> (r: Option<String>)
        ensures
            r matches Some(s) ==> first_duplicate(self@) == Some(s@),
            r is None ==> first_duplicate(self@) is None,
        decreases self,
    {
        match self {
            JsonValue::Array(v) => {
                proof {
                    lemma_items_view(v@);
                }
                let mut i: usize = 0;
                while i < v.len()
                    invariant
                        *self == JsonValue::Array(*v),
                        i <= v.len(),
                        items_view(v@).len() == v@.len(),
                        forall|k: int| 0 <= k < v@.len() ==> #[trigger] items_view(v@)[k] == json_view(v@[k]),
                        items_duplicate(items_view(v@).take(i as int)) is None,
                    decreases v.len() - i,
                {
                    proof {
                        assert(decreases_to!(*self => (*self)->Array_0));
                        assert(decreases_to!(*v => v@));
                        assert(decreases_to!(v@ => v@[i as int]));
                        assert(items_view(v@).take(i + 1).drop_last() =~= items_view(v@).take(i as int));
                    }
                    let d = v[i].first_duplicate_member();
                    if d.is_some() {
                        proof {
                            lemma_items_duplicate_prefix(items_view(v@), (i + 1) as int);
                        }
                        return d;
                    }
                    i += 1;
                }
                proof {
                    assert(items_view(v@).take(i as int) =~= items_view(v@));
                }
                None
            },
            JsonValue::Object(m) => {
                proof {
                    lemma_members_view(m@);
                }
                let mut i: usize = 0;
                while i < m.len()
                    invariant
                        *self == JsonValue::Object(*m),
                        i <= m.len(),
                        members_view(m@).len() == m@.len(),
                        forall|k: int|
                            0 <= k < m@.len() ==> #[trigger] members_view(m@)[k] == (
                                m@[k].0@,
                                json_view(m@[k].1),
                            ),
                        members_duplicate(members_view(m@).take(i as int)) is None,
                    decreases m.len() - i,
                {
                    proof {
                        assert(decreases_to!(*self => (*self)->Object_0));
                        assert(decreases_to!(*m => m@));
                        assert(decreases_to!(m@ => m@[i as int]));
                        assert(decreases_to!(m@[i as int] => m@[i as int].1));
                        assert(members_view(m@).take(i + 1).drop_last() =~= members_view(m@).take(i as int));
                    }
                    let d = m[i].1.first_duplicate_member();
                    if d.is_some() {
                        proof {
                            assert(members_view(m@).take(i + 1).last() == members_view(m@)[i as int]);
                            lemma_members_duplicate_prefix(members_view(m@), (i + 1) as int);
                        }
                        return d;
                    }
                    let mut j: usize = 0;
                    while j < i
                        invariant
                            *self == JsonValue::Object(*m),
                            j <= i < m.len(),
                            members_duplicate(members_view(m@).take(i as int)) is None,
                            first_duplicate(json_view(m@[i as int].1)) is None,
                            members_view(m@).take(i + 1).drop_last() =~= members_view(m@).take(i as int),
                            members_view(m@).len() == m@.len(),
                            forall|k: int|
                                0 <= k < m@.len() ==> #[trigger] members_view(m@)[k] == (
                                    m@[k].0@,
                                    json_view(m@[k].1),
                                ),
                            forall|k: int| 0 <= k < j ==> m@[k].0@ != m@[i as int].0@,
                        decreases i - j,
                    {
                        if str_eq(m[j].0.as_str(), m[i].0.as_str()) {
                            proof {
                                let pre = members_view(m@).take(i as int);
                                assert(member_names(pre)[j as int] == m@[i as int].0@);
                                assert(members_view(m@).take(i + 1).last() == members_view(m@)[i as int]);
                                assert(member_names(members_view(m@).take(i + 1).drop_last()).contains(m@[i as int].0@));
                                assert(members_view(m@).take(i + 1).last().1 == json_view(m@[i as int].1));
                                assert(members_duplicate(members_view(m@).take(i + 1)) == Some(m@[i as int].0@));
                                assert(self@ == JsonView::Object(members_view(m@)));
                                lemma_members_duplicate_prefix(members_view(m@), (i + 1) as int);
                            }
                            return Some(m[i].0.clone());
                        }
                        j += 1;
                    }
                    proof {
                        let pre = members_view(m@).take(i as int);
                        assert(!member_names(pre).contains(m@[i as int].0@)) by {
                            if member_names(pre).contains(m@[i as int].0@) {
                                let k = choose|k: int| 0 <= k < member_names(pre).len() && member_names(pre)[k] == m@[i as int].0@;
                                assert(m@[k].0@ == m@[i as int].0@);
                            }
                        }
                    }
                    i += 1;
                }
                proof {
                    assert(members_view(m@).take(i as int) =~= members_view(m@));
                }
                None
            },
            _ => None,
        }
    }
}

impl Clone for JsonValue {
    fn clone(&self) -> (r: Self)
        ensures
            r@ == self@,
    {
        self.duplicate()
    }
}

proof fn lemma_items_duplicate_prefix(s: Seq<JsonView>, n: int)
    requires
        0 < n <= s.len(),
        items_duplicate(s.take(n - 1)) is None,
        first_duplicate(s[n - 1]) is Some,
    ensures
        items_duplicate(s) == first_duplicate(s[n - 1]),
    decreases s.len(),
{
    if n == s.len() {
        assert(s.drop_last() =~= s.take(n - 1));
    } else {
        assert(s.drop_last().take(n - 1) =~= s.take(n - 1));
        lemma_items_duplicate_prefix(s.drop_last(), n);
    }
}

proof fn lemma_members_duplicate_prefix(s: Seq<(Seq<char>, JsonView)>, n: int)
    requires
        0 < n <= s.len(),
        members_duplicate(s.take(n - 1)) is None,
        members_duplicate(s.take(n)) is Some,
    ensures
        members_duplicate(s) == members_duplicate(s.take(n)),
    decreases s.len(),
{
    if n == s.len() {
        assert(s.take(n) =~= s);
    } else {
        assert(s.drop_last().take(n - 1) =~= s.take(n - 1));
        assert(s.drop_last().take(n) =~= s.take(n));
        lemma_members_duplicate_prefix(s.drop_last(), n);
    }
}

} // verus!

verus! {

/// Inserts member index `i` into an order sorted by member name, after any
/// names that do not sort after it.
pub open spec fn insert_by_name(order: Seq<int>, m: Seq<(Seq<char>, JsonView)>, i: int) -> Seq<int>
    decreases order.len(),
{
    if order.len() == 0 {
        seq![i]
    } else if crate::text::seq_lt(m[i].0, m[order[0]].0) {
        seq![i] + order
    } else {
        seq![order[0]] + insert_by_name(order.drop_first(), m, i)
    }
}

/// The first `n` member indices in ascending name order: the order in which
/// a sorted map (such as `serde_json::Map`) walks an object's members.
pub open spec fn name_order(m: Seq<(Seq<char>, JsonView)>, n: int) -> Seq<int>
    decreases n,
{
    if n <= 0 {
        Seq::empty()
    } else {
        insert_by_name(name_order(m, n - 1), m, n - 1)
    }
}

/// Member indices of an object in ascending name order.
pub open spec fn sorted_indices(m: Seq<(Seq<char>, JsonView)>) -> Seq<int> {
    name_order(m, m.len() as int)
}

proof fn lemma_insert_by_name_split(order: Seq<int>, m: Seq<(Seq<char>, JsonView)>, i: int, p: int)
    requires
        0 <= p <= order.len(),
        forall|k: int| 0 <= k < p ==> !crate::text::seq_lt(m[i].0, m[#[trigger] order[k]].0),
        p < order.len() ==> crate::text::seq_lt(m[i].0, m[order[p]].0),
    ensures
        insert_by_name(order, m, i) == order.take(p) + seq![i] + order.skip(p),
    decreases order.len(),
{
    if order.len() == 0 {
        assert(order.take(p) + seq![i] + order.skip(p) =~= seq![i]);
    } else if p == 0 {
        assert(order.take(p) + seq![i] + order.skip(p) =~= seq![i] + order);
    } else {
        assert forall|k: int| 0 <= k < p - 1 implies !crate::text::seq_lt(
            m[i].0,
            m[#[trigger] order.drop_first()[k]].0,
        ) by {
            assert(order.drop_first()[k] == order[k + 1]);
        }
        assert(!crate::text::seq_lt(m[i].0, m[order[0]].0));
        lemma_insert_by_name_split(order.drop_first(), m, i, p - 1);
        assert(seq![order[0]] + (order.drop_first().take(p - 1) + seq![i] + order.drop_first().skip(p - 1))
            =~= order.take(p) + seq![i] + order.skip(p));
    }
}

/// Member indices of an object, sorted by member name.
pub fn sorted_member_indices(m: &Vec<(String, JsonValue)>) -> (r: Vec<usize>)
    ensures
        r@.len() == m@.len(),
        forall|k: int| 0 <= k < r@.len() ==> #[trigger] r@[k] < m@.len(),
        r@.map_values(|x: usize| x as int) == sorted_indices(members_view(m@)),
{
    proof {
        lemma_members_view(m@);
    }
    let ghost mv = members_view(m@);
    let mut order: Vec<usize> = Vec::new();
    let mut i: usize = 0;
    while i < m.len()
        invariant
            i <= m.len(),
            mv == members_view(m@),
            mv.len() == m@.len(),
            forall|k: int| 0 <= k < m@.len() ==> #[trigger] mv[k] == (m@[k].0@, json_view(m@[k].1)),
            order@.len() == i,
            forall|k: int| 0 <= k < order@.len() ==> #[trigger] order@[k] < i,
            order@.map_values(|x: usize| x as int) == name_order(mv, i as int),
        decreases m.len() - i,
    {
        let key_i = crate::text::chars_of(m[i].0.as_str());
        let mut p: usize = 0;
        let mut placed = false;
        while p < order.len() && !placed
            invariant
                i < m.len(),
                p <= order@.len(),
                mv == members_view(m@),
                forall|k: int| 0 <= k < m@.len() ==> #[trigger] mv[k] == (m@[k].0@, json_view(m@[k].1)),
                forall|k: int| 0 <= k < order@.len() ==> #[trigger] order@[k] < i,
                key_i@ == m@[i as int].0@,
                forall|k: int| 0 <= k < p ==> !crate::text::seq_lt(mv[i as int].0, mv[#[trigger] order@[k] as int].0),
                placed ==> p < order@.len() && crate::text::seq_lt(mv[i as int].0, mv[order@[p as int] as int].0),
            decreases order.len() - p + (if placed { 0int } else { 1int }),
        {
            let key_p = crate::text::chars_of(m[order[p]].0.as_str());
            if crate::text::chars_lt(key_i.as_slice(), key_p.as_slice()) {
                placed = true;
            } else {
                p += 1;
            }
        }
        let ghost old_order = order@;
        proof {
            let oi = old_order.map_values(|x: usize| x as int);
            assert forall|k: int| 0 <= k < p implies !crate::text::seq_lt(mv[i as int].0, mv[#[trigger] oi[k]].0) by {
                assert(oi[k] == old_order[k] as int);
            }
            if p < oi.len() {
                assert(oi[p as int] == old_order[p as int] as int);
            }
            lemma_insert_by_name_split(oi, mv, i as int, p as int);
        }
        order.insert(p, i);
        proof {
            let oi = old_order.map_values(|x: usize| x as int);
            assert(order@.map_values(|x: usize| x as int) =~= oi.take(p as int) + seq![i as int] + oi.skip(p as int));
        }
        i += 1;
    }
    order
}

} // verus!

verus! {

#[verifier::external_type_specification]
#[verifier::external_body]
pub struct ExSerdeJsonValue(serde_json::Value);

#[verifier::external_type_specification]
#[verifier::external_body]
pub struct ExSerdeJsonNumber(serde_json::Number);

/// The JSON document that a text decodes to under `serde_json::from_str`,
/// if the text is a JSON document.
pub uninterp spec fn spec_decode_json_text(text: Seq<char>) -> Option<JsonView>;

/// Decodes JSON text with `serde_json::from_str` into a plain JSON value.
///
/// Trusted: the result is the document `serde_json` decodes, named by
/// `spec_decode_json_text`; objects arrive in `serde_json::Map` order with
/// repeated names already merged.
#[verifier::external_body]
pub(crate) fn decode_json_text(text: &str) -> (r: Option<JsonValue>)
    ensures
        r matches Some(v) ==> spec_decode_json_text(text@) == Some(v@),
        r is None ==> spec_decode_json_text(text@) is None,
{
    serde_json::from_str::<serde_json::Value>(text).ok().map(|value| convert_serde_value(&value))
}

/// Converts a decoded `serde_json::Value` into the library's value, variant
/// for variant (used only by `decode_json_text`).
#[verifier::external_body]
fn convert_serde_value(value: &serde_json::Value) -> JsonValue {
    match value {
        serde_json::Value::Null => JsonValue::Null,
        serde_json::Value::Bool(b) => JsonValue::Bool(*b),
        serde_json::Value::Number(n) => JsonValue::Number(convert_serde_number(n)),
        serde_json::Value::String(s) => JsonValue::String(s.clone()),
        serde_json::Value::Array(items) => JsonValue::Array(items.iter().map(convert_serde_value).collect()),
        serde_json::Value::Object(map) => JsonValue::Object(
            map.iter().map(|(k, v)| (k.clone(), convert_serde_value(v))).collect(),
        ),
    }
}

/// Converts a `serde_json::Number` into the library's number: unsigned when
/// `as_u64` gives one, negative when `as_i64` does, otherwise its text.
#[verifier::external_body]
fn convert_serde_number(n: &serde_json::Number) -> JsonNumber {
    match (n.as_u64(), n.as_i64()) {
        (Some(u), _) => JsonNumber::Unsigned(u),
        (None, Some(i)) => JsonNumber::Negative(i),
        (None, None) => JsonNumber::Float(n.to_string()),
    }
}

} // verus!

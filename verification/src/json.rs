use vstd::prelude::*;

use crate::text::{owned, str_eq};
use serde_json::Value;

verus! {

broadcast use vstd::std_specs::vec::group_vec_axioms;

pub enum JsonNumber {
    PosInt(u64),
    NegInt(i64),
    Float(String),
}

pub enum Json {
    Null,
    Bool(bool),
    Number(JsonNumber),
    Str(String),
    Array(Vec<Json>),
    Object(Vec<(String, Json)>),
}

pub enum NumberView {
    PosInt(u64),
    NegInt(i64),
    Float(Seq<char>),
}

pub enum JsonView {
    Null,
    Bool(bool),
    Number(NumberView),
    Str(Seq<char>),
    Array(Seq<JsonView>),
    Object(Seq<(Seq<char>, JsonView)>),
}

#[verifier::external_type_specification]
#[verifier::external_body]
pub struct ExJsonValue(Value);

/// The value `serde_json` parses a text into (`from_str::<Value>`), read
/// member for member, or `None` where the text is no JSON.
pub uninterp spec fn json_of_text(text: Seq<char>) -> Option<JsonView>;

/// The value `serde_json` parses bytes into (`from_slice::<Value>`), read
/// member for member, or `None` where the bytes are no JSON.
pub uninterp spec fn json_of_bytes(bytes: Seq<u8>) -> Option<JsonView>;

/// A `serde_json::Value` as a `Json`, variant for variant: a number as the
/// `u64`, else the `i64`, else the text `serde_json` gives it; object
/// members in the order the value holds them. This is the conversion half
/// of `parse_json_text` and `parse_json_bytes`.
#[verifier::external_body]
fn json_from_value(v: Value) -> Json {
    match v {
        Value::Null => Json::Null,
        Value::Bool(b) => Json::Bool(b),
        Value::Number(n) => Json::Number(match (n.as_u64(), n.as_i64()) {
            (Some(u), _) => JsonNumber::PosInt(u),
            (None, Some(i)) => JsonNumber::NegInt(i),
            (None, None) => JsonNumber::Float(n.to_string()),
        }),
        Value::String(s) => Json::Str(s),
        Value::Array(items) => Json::Array(items.into_iter().map(json_from_value).collect()),
        Value::Object(m) => Json::Object(m.into_iter().map(|(k, x)| (k, json_from_value(x))).collect()),
    }
}

/// `serde_json::from_str::<Value>(text)`, as a `Json`: the result is the
/// named parse of `text`; the error is `serde_json`'s message, whose text
/// is not stated.
#[verifier::external_body]
pub(crate) fn parse_json_text(text: &str) -> (r: Result<Json, String>)
    ensures
        match r {
            Ok(j) => json_of_text(text@) == Some(j.view()),
            Err(_) => json_of_text(text@) is None,
        },
{
    serde_json::from_str::<Value>(text).map(json_from_value).map_err(|e| e.to_string())
}

/// `serde_json::from_slice::<Value>(raw)`, as a `Json`: the result is the
/// named parse of `raw`; the error is `serde_json`'s message, whose text is
/// not stated.
#[verifier::external_body]
pub(crate) fn parse_json_bytes(raw: &[u8]) -> (r: Result<Json, String>)
    ensures
        match r {
            Ok(j) => json_of_bytes(raw@) == Some(j.view()),
            Err(_) => json_of_bytes(raw@) is None,
        },
{
    serde_json::from_slice::<Value>(raw).map(json_from_value).map_err(|e| e.to_string())
}

/// The views of a sequence of values.
pub open spec fn items_view(items: Seq<Json>) -> Seq<JsonView>
    decreases items, 0int,
{
    Seq::new(items.len(), |i: int| if 0 <= i < items.len() { items[i].view() } else { JsonView::Null })
}

/// The views of an object's entries.
pub open spec fn entries_view(entries: Seq<(String, Json)>) -> Seq<(Seq<char>, JsonView)>
    decreases entries, 0int,
{
    Seq::new(
        entries.len(),
        |i: int|
            if 0 <= i < entries.len() {
                (entries[i].0@, entries[i].1.view())
            } else {
                (Seq::empty(), JsonView::Null)
            },
    )
}

impl JsonNumber {
    pub open spec fn view(&self) -> NumberView {
        match self {
            JsonNumber::PosInt(n) => NumberView::PosInt(*n),
            JsonNumber::NegInt(n) => NumberView::NegInt(*n),
            JsonNumber::Float(t) => NumberView::Float(t@),
        }
    }
}

impl Json {
    pub open spec fn view(&self) -> JsonView
        decreases self, 1int,
    {
        match self {
            Json::Null => JsonView::Null,
            Json::Bool(b) => JsonView::Bool(*b),
            Json::Number(n) => JsonView::Number(n.view()),
            Json::Str(s) => JsonView::Str(s@),
            Json::Array(items) => JsonView::Array(items_view(items@)),
            Json::Object(entries) => JsonView::Object(entries_view(entries@)),
        }
    }

    pub fn deep_clone(&self) -> (r: Json)
        ensures r.view() == self.view(),
        decreases self,
    {
        match self {
            Json::Null => Json::Null,
            Json::Bool(b) => Json::Bool(*b),
            Json::Number(JsonNumber::PosInt(n)) => Json::Number(JsonNumber::PosInt(*n)),
            Json::Number(JsonNumber::NegInt(n)) => Json::Number(JsonNumber::NegInt(*n)),
            Json::Number(JsonNumber::Float(t)) => Json::Number(JsonNumber::Float(t.clone())),
            Json::Str(s) => Json::Str(s.clone()),
            Json::Array(items) => {
                let mut out: Vec<Json> = Vec::new();
                let mut i: usize = 0;
                while i < items.len()
                    invariant
                        i <= items@.len(),
                        out@.len() == i,
                        *self == Json::Array(*items),
                        forall|j: int| 0 <= j < i ==> out@[j].view() == items@[j].view(),
                    decreases items@.len() - i,
                {
                    proof {
                        assert(self->Array_0 == *items);
                        assert(decreases_to!(*self => self->Array_0));
                        vstd::std_specs::vec::axiom_vec_index_decreases(*items, i as int);
                    }
                    let c = items[i].deep_clone();
                    out.push(c);
                    i = i + 1;
                }
                let r = Json::Array(out);
                proof {
                    assert(r.view()->Array_0 =~= self.view()->Array_0);
                }
                r
            },
            Json::Object(entries) => {
                let mut out: Vec<(String, Json)> = Vec::new();
                let mut i: usize = 0;
                while i < entries.len()
                    invariant
                        i <= entries@.len(),
                        out@.len() == i,
                        *self == Json::Object(*entries),
                        forall|j: int| 0 <= j < i ==> out@[j].0@ == entries@[j].0@ && out@[j].1.view() == entries@[j].1.view(),
                    decreases entries@.len() - i,
                {
                    let k = entries[i].0.clone();
                    proof {
                        assert(self->Object_0 == *entries);
                        assert(decreases_to!(*self => self->Object_0));
                        vstd::std_specs::vec::axiom_vec_index_decreases(*entries, i as int);
                        assert(decreases_to!((*entries)[i as int] => (*entries)[i as int].1));
                    }
                    let c = entries[i].1.deep_clone();
                    out.push((k, c));
                    i = i + 1;
                }
                let r = Json::Object(out);
                proof {
                    assert(r.view()->Object_0 =~= self.view()->Object_0);
                }
                r
            },
        }
    }
}


/// The value stored under `key` in an object's entries: the first entry
/// with that key.
pub open spec fn entries_get(es: Seq<(Seq<char>, JsonView)>, key: Seq<char>) -> Option<JsonView>
    decreases es.len(),
{
    if es.len() == 0 {
        None
    } else if es[0].0 == key {
        Some(es[0].1)
    } else {
        entries_get(es.drop_first(), key)
    }
}

/// Position of the first entry with `key`.
pub open spec fn entries_index(es: Seq<(Seq<char>, JsonView)>, key: Seq<char>) -> Option<int>
    decreases es.len(),
{
    if es.len() == 0 {
        None
    } else if es[0].0 == key {
        Some(0)
    } else {
        match entries_index(es.drop_first(), key) {
            Some(i) => Some(i + 1),
            None => None,
        }
    }
}

/// Entries after `key` is set to `v`: the first entry with `key` is
/// replaced, or a new entry is appended.
pub open spec fn entries_set(es: Seq<(Seq<char>, JsonView)>, key: Seq<char>, v: JsonView) -> Seq<
    (Seq<char>, JsonView),
> {
    match entries_index(es, key) {
        Some(i) => es.update(i, (key, v)),
        None => es.push((key, v)),
    }
}

/// Entries after the first entry with `key` is removed.
pub open spec fn entries_remove(es: Seq<(Seq<char>, JsonView)>, key: Seq<char>) -> Seq<
    (Seq<char>, JsonView),
> {
    match entries_index(es, key) {
        Some(i) => es.remove(i),
        None => es,
    }
}

/// `value.get(key)`: the member of an object, or `None`.
pub open spec fn jget(v: JsonView, key: Seq<char>) -> Option<JsonView> {
    match v {
        JsonView::Object(es) => entries_get(es, key),
        _ => None,
    }
}

/// `Value::as_str`.
pub open spec fn as_str(v: Option<JsonView>) -> Option<Seq<char>> {
    match v {
        Some(JsonView::Str(s)) => Some(s),
        _ => None,
    }
}

/// `Value::as_u64`.
pub open spec fn as_u64(v: Option<JsonView>) -> Option<u64> {
    match v {
        Some(JsonView::Number(NumberView::PosInt(n))) => Some(n),
        _ => None,
    }
}

/// `Value::as_i64`.
pub open spec fn as_i64(v: Option<JsonView>) -> Option<i64> {
    match v {
        Some(JsonView::Number(NumberView::PosInt(n))) => if n <= i64::MAX {
            Some(n as i64)
        } else {
            None
        },
        Some(JsonView::Number(NumberView::NegInt(n))) => Some(n),
        _ => None,
    }
}

/// `Value::as_bool`.
pub open spec fn as_bool(v: Option<JsonView>) -> Option<bool> {
    match v {
        Some(JsonView::Bool(b)) => Some(b),
        _ => None,
    }
}

/// `Value::as_array`.
pub open spec fn as_array(v: Option<JsonView>) -> Option<Seq<JsonView>> {
    match v {
        Some(JsonView::Array(items)) => Some(items),
        _ => None,
    }
}

/// `value.get(key).and_then(Value::as_str)`.
pub open spec fn str_field(v: JsonView, key: Seq<char>) -> Option<Seq<char>> {
    as_str(jget(v, key))
}

pub open spec fn jstr(s: Seq<char>) -> JsonView {
    JsonView::Str(s)
}

impl Json {
    pub open spec fn entries_view(&self) -> Seq<(Seq<char>, JsonView)> {
        match self.view() {
            JsonView::Object(es) => es,
            _ => Seq::empty(),
        }
    }

    /// An empty object.
    pub fn object() -> (r: Json)
        ensures
            r.view() == JsonView::Object(Seq::empty()),
    {
        let r = Json::Object(Vec::new());
        assert(r.view()->Object_0 =~= Seq::<(Seq<char>, JsonView)>::empty());
        r
    }

    /// A string value holding a copy of `s`.
    pub fn string(s: &str) -> (r: Json)
        ensures
            r.view() == JsonView::Str(s@),
    {
        Json::Str(owned(s))
    }

    /// An array of the given items.
    pub fn array(items: Vec<Json>) -> (r: Json)
        ensures
            r.view() == JsonView::Array(Seq::new(items@.len(), |i: int| items@[i].view())),
    {
        let ghost v = items@;
        let r = Json::Array(items);
        assert(r.view()->Array_0 =~= Seq::new(v.len(), |i: int| v[i].view()));
        r
    }

    pub fn is_null(&self) -> (r: bool)
        ensures
            r == (self.view() == JsonView::Null),
    {
        match self {
            Json::Null => true,
            _ => false,
        }
    }

    pub fn is_object(&self) -> (r: bool)
        ensures
            r == (self.view() is Object),
    {
        match self {
            Json::Object(_) => true,
            _ => false,
        }
    }

    pub fn as_str(&self) -> (r: Option<&String>)
        ensures
            match r {
                Some(s) => as_str(Some(self.view())) == Some(s@),
                None => as_str(Some(self.view())) is None,
            },
    {
        match self {
            Json::Str(s) => Some(s),
            _ => None,
        }
    }

    pub fn as_u64(&self) -> (r: Option<u64>)
        ensures
            r == as_u64(Some(self.view())),
    {
        match self {
            Json::Number(JsonNumber::PosInt(n)) => Some(*n),
            _ => None,
        }
    }

    pub fn as_i64(&self) -> (r: Option<i64>)
        ensures
            r == as_i64(Some(self.view())),
    {
        match self {
            Json::Number(JsonNumber::PosInt(n)) => if *n <= 9223372036854775807u64 {
                Some(*n as i64)
            } else {
                None
            },
            Json::Number(JsonNumber::NegInt(n)) => Some(*n),
            _ => None,
        }
    }

    pub fn as_bool(&self) -> (r: Option<bool>)
        ensures
            r == as_bool(Some(self.view())),
    {
        match self {
            Json::Bool(b) => Some(*b),
            _ => None,
        }
    }

    pub fn as_array(&self) -> (r: Option<&Vec<Json>>)
        ensures
            match r {
                Some(items) => as_array(Some(self.view())) == Some(items_view(items@)),
                None => as_array(Some(self.view())) is None,
            },
    {
        match self {
            Json::Array(items) => Some(items),
            _ => None,
        }
    }

    /// `value.get(key)`.
    pub fn get(&self, key: &str) -> (r: Option<&Json>)
        ensures
            match r {
                Some(v) => jget(self.view(), key@) == Some(v.view()),
                None => jget(self.view(), key@) is None,
            },
    {
        match self {
            Json::Object(entries) => {
                let ghost es = entries_view(entries@);
                assert(es.subrange(0, es.len() as int) =~= es);
                let mut i: usize = 0;
                while i < entries.len()
                    invariant
                        i <= entries@.len(),
                        es == entries_view(entries@),
                        self.view() == JsonView::Object(es),
                        entries_get(es, key@) == entries_get(es.subrange(i as int, es.len() as int), key@),
                    decreases entries@.len() - i,
                {
                    let ghost rest = es.subrange(i as int, es.len() as int);
                    assert(rest[0] == es[i as int]);
                    if str_eq(entries[i].0.as_str(), key) {
                        return Some(&entries[i].1);
                    }
                    assert(rest.drop_first() =~= es.subrange(i + 1, es.len() as int));
                    i = i + 1;
                }
                None
            },
            _ => None,
        }
    }

    /// `value.get(key).and_then(Value::as_str)`.
    pub fn get_str(&self, key: &str) -> (r: Option<&String>)
        ensures
            match r {
                Some(s) => str_field(self.view(), key@) == Some(s@),
                None => str_field(self.view(), key@) is None,
            },
    {
        match self.get(key) {
            Some(v) => v.as_str(),
            None => None,
        }
    }

    /// `value.get(key).and_then(Value::as_u64)`.
    pub fn get_u64(&self, key: &str) -> (r: Option<u64>)
        ensures
            r == as_u64(jget(self.view(), key@)),
    {
        match self.get(key) {
            Some(v) => v.as_u64(),
            None => None,
        }
    }

    /// `value.get(key).and_then(Value::as_bool)`.
    pub fn get_bool(&self, key: &str) -> (r: Option<bool>)
        ensures
            r == as_bool(jget(self.view(), key@)),
    {
        match self.get(key) {
            Some(v) => v.as_bool(),
            None => None,
        }
    }

    /// `value.get(key).and_then(Value::as_array)`.
    pub fn get_array(&self, key: &str) -> (r: Option<&Vec<Json>>)
        ensures
            match r {
                Some(items) => as_array(jget(self.view(), key@)) == Some(items_view(items@)),
                None => as_array(jget(self.view(), key@)) is None,
            },
    {
        match self.get(key) {
            Some(v) => v.as_array(),
            None => None,
        }
    }

    /// Sets `key` to `value` in an object (`object[key] = value`).
    pub fn set(&mut self, key: &str, value: Json)
        requires
            old(self).view() is Object,
        ensures
            final(self).view() == JsonView::Object(
                entries_set(old(self).view()->Object_0, key@, value.view()),
            ),
    {
        match self {
            Json::Object(entries) => {
                set_entry(entries, key, value);
            },
            _ => {},
        }
    }
}

/// Sets `key` to `value` in a list of object entries.
pub fn set_entry(entries: &mut Vec<(String, Json)>, key: &str, value: Json)
    ensures
        entries_view(final(entries)@) == entries_set(entries_view(old(entries)@), key@, value.view()),
{
    let ghost es = entries_view(entries@);
    let ghost vv = value.view();
    let mut i: usize = 0;
    while i < entries.len()
        invariant
            i <= entries@.len(),
            es == entries_view(entries@),
            entries@ == old(entries)@,
            vv == value.view(),
            forall|j: int| 0 <= j < i ==> es[j].0 != key@,
        decreases entries@.len() - i,
    {
        if str_eq(entries[i].0.as_str(), key) {
            proof {
                lemma_entries_index_first(es, key@, i as int);
            }
            let k = owned(key);
            entries.set(i, (k, value));
            assert(entries@[i as int].0@ == key@);
            assert(entries@[i as int].1.view() == vv);
            assert(entries_view(entries@) =~= es.update(i as int, (key@, vv)));
            return;
        }
        i = i + 1;
    }
    proof {
        lemma_entries_index_none(es, key@);
    }
    let k = owned(key);
    entries.push((k, value));
    assert(entries_view(entries@) =~= es.push((key@, vv)));
}

proof fn lemma_entries_index_first(es: Seq<(Seq<char>, JsonView)>, key: Seq<char>, i: int)
    requires
        0 <= i < es.len(),
        es[i].0 == key,
        forall|j: int| 0 <= j < i ==> es[j].0 != key,
    ensures
        entries_index(es, key) == Some(i),
        entries_get(es, key) == Some(es[i].1),
    decreases i,
{
    if i > 0 {
        lemma_entries_index_first(es.drop_first(), key, i - 1);
    }
}

proof fn lemma_entries_index_none(es: Seq<(Seq<char>, JsonView)>, key: Seq<char>)
    requires
        forall|j: int| 0 <= j < es.len() ==> es[j].0 != key,
    ensures
        entries_index(es, key) is None,
        entries_get(es, key) is None,
    decreases es.len(),
{
    if es.len() > 0 {
        lemma_entries_index_none(es.drop_first(), key);
    }
}

/// `object[key] = value` on an object's view.
pub open spec fn jset(v: JsonView, key: Seq<char>, x: JsonView) -> JsonView {
    JsonView::Object(entries_set(v->Object_0, key, x))
}

/// `object.remove(key)` on an object's view.
pub open spec fn jremove(v: JsonView, key: Seq<char>) -> JsonView {
    JsonView::Object(entries_remove(v->Object_0, key))
}

/// `value.pointer("/a/b")` for two object keys.
pub open spec fn jpath(v: JsonView, a: Seq<char>, b: Seq<char>) -> Option<JsonView> {
    match jget(v, a) {
        Some(x) => jget(x, b),
        None => None,
    }
}

/// `a.or(b)`.
pub open spec fn or_else<T>(a: Option<T>, b: Option<T>) -> Option<T> {
    match a {
        Some(x) => Some(x),
        None => b,
    }
}

pub open spec fn obj1(k1: Seq<char>, v1: JsonView) -> JsonView {
    JsonView::Object(seq![(k1, v1)])
}

pub open spec fn obj2(k1: Seq<char>, v1: JsonView, k2: Seq<char>, v2: JsonView) -> JsonView {
    JsonView::Object(seq![(k1, v1), (k2, v2)])
}

pub open spec fn obj3(
    k1: Seq<char>,
    v1: JsonView,
    k2: Seq<char>,
    v2: JsonView,
    k3: Seq<char>,
    v3: JsonView,
) -> JsonView {
    JsonView::Object(seq![(k1, v1), (k2, v2), (k3, v3)])
}

pub open spec fn obj4(
    k1: Seq<char>,
    v1: JsonView,
    k2: Seq<char>,
    v2: JsonView,
    k3: Seq<char>,
    v3: JsonView,
    k4: Seq<char>,
    v4: JsonView,
) -> JsonView {
    JsonView::Object(seq![(k1, v1), (k2, v2), (k3, v3), (k4, v4)])
}

pub open spec fn obj5(
    k1: Seq<char>,
    v1: JsonView,
    k2: Seq<char>,
    v2: JsonView,
    k3: Seq<char>,
    v3: JsonView,
    k4: Seq<char>,
    v4: JsonView,
    k5: Seq<char>,
    v5: JsonView,
) -> JsonView {
    JsonView::Object(seq![(k1, v1), (k2, v2), (k3, v3), (k4, v4), (k5, v5)])
}

pub open spec fn obj6(
    k1: Seq<char>,
    v1: JsonView,
    k2: Seq<char>,
    v2: JsonView,
    k3: Seq<char>,
    v3: JsonView,
    k4: Seq<char>,
    v4: JsonView,
    k5: Seq<char>,
    v5: JsonView,
    k6: Seq<char>,
    v6: JsonView,
) -> JsonView {
    JsonView::Object(seq![(k1, v1), (k2, v2), (k3, v3), (k4, v4), (k5, v5), (k6, v6)])
}

pub open spec fn obj7(
    k1: Seq<char>,
    v1: JsonView,
    k2: Seq<char>,
    v2: JsonView,
    k3: Seq<char>,
    v3: JsonView,
    k4: Seq<char>,
    v4: JsonView,
    k5: Seq<char>,
    v5: JsonView,
    k6: Seq<char>,
    v6: JsonView,
    k7: Seq<char>,
    v7: JsonView,
) -> JsonView {
    JsonView::Object(seq![(k1, v1), (k2, v2), (k3, v3), (k4, v4), (k5, v5), (k6, v6), (k7, v7)])
}

pub open spec fn uint(n: u64) -> JsonView {
    JsonView::Number(NumberView::PosInt(n))
}

impl Json {
    pub fn null() -> (r: Json)
        ensures
            r.view() == JsonView::Null,
    {
        Json::Null
    }

    /// An empty array.
    pub fn empty_array() -> (r: Json)
        ensures
            r.view() == JsonView::Array(Seq::empty()),
    {
        let v: Vec<Json> = Vec::new();
        assert(items_view(v@) =~= Seq::<JsonView>::empty());
        Json::Array(v)
    }

    pub fn boolean(b: bool) -> (r: Json)
        ensures
            r.view() == JsonView::Bool(b),
    {
        Json::Bool(b)
    }

    pub fn uint(n: u64) -> (r: Json)
        ensures
            r.view() == uint(n),
    {
        Json::Number(JsonNumber::PosInt(n))
    }

    /// A string value that takes ownership of `s`.
    pub fn from_string(s: String) -> (r: Json)
        ensures
            r.view() == JsonView::Str(s@),
    {
        Json::Str(s)
    }

    /// An array view made of `items`.
    pub fn from_items(items: Vec<Json>) -> (r: Json)
        ensures
            r.view() == JsonView::Array(items_view(items@)),
    {
        Json::Array(items)
    }

    pub fn obj1(k1: &str, v1: Json) -> (r: Json)
        ensures
            r.view() == obj1(k1@, v1.view()),
    {
        let e = vec![(owned(k1), v1)];
        assert(entries_view(e@) =~= seq![(k1@, e@[0].1.view())]);
        Json::Object(e)
    }

    pub fn obj2(k1: &str, v1: Json, k2: &str, v2: Json) -> (r: Json)
        ensures
            r.view() == obj2(k1@, v1.view(), k2@, v2.view()),
    {
        let e = vec![(owned(k1), v1), (owned(k2), v2)];
        assert(entries_view(e@) =~= seq![(k1@, e@[0].1.view()), (k2@, e@[1].1.view())]);
        Json::Object(e)
    }

    pub fn obj3(k1: &str, v1: Json, k2: &str, v2: Json, k3: &str, v3: Json) -> (r: Json)
        ensures
            r.view() == obj3(k1@, v1.view(), k2@, v2.view(), k3@, v3.view()),
    {
        let e = vec![(owned(k1), v1), (owned(k2), v2), (owned(k3), v3)];
        assert(entries_view(e@) =~= seq![
            (k1@, e@[0].1.view()),
            (k2@, e@[1].1.view()),
            (k3@, e@[2].1.view()),
        ]);
        Json::Object(e)
    }

    pub fn obj4(
        k1: &str,
        v1: Json,
        k2: &str,
        v2: Json,
        k3: &str,
        v3: Json,
        k4: &str,
        v4: Json,
    ) -> (r: Json)
        ensures
            r.view() == obj4(k1@, v1.view(), k2@, v2.view(), k3@, v3.view(), k4@, v4.view()),
    {
        let e = vec![(owned(k1), v1), (owned(k2), v2), (owned(k3), v3), (owned(k4), v4)];
        assert(entries_view(e@) =~= seq![
            (k1@, e@[0].1.view()),
            (k2@, e@[1].1.view()),
            (k3@, e@[2].1.view()),
            (k4@, e@[3].1.view()),
        ]);
        Json::Object(e)
    }

    pub fn obj5(
        k1: &str,
        v1: Json,
        k2: &str,
        v2: Json,
        k3: &str,
        v3: Json,
        k4: &str,
        v4: Json,
        k5: &str,
        v5: Json,
    ) -> (r: Json)
        ensures
            r.view() == obj5(
                k1@,
                v1.view(),
                k2@,
                v2.view(),
                k3@,
                v3.view(),
                k4@,
                v4.view(),
                k5@,
                v5.view(),
            ),
    {
        let e = vec![
            (owned(k1), v1),
            (owned(k2), v2),
            (owned(k3), v3),
            (owned(k4), v4),
            (owned(k5), v5),
        ];
        assert(entries_view(e@) =~= seq![
            (k1@, e@[0].1.view()),
            (k2@, e@[1].1.view()),
            (k3@, e@[2].1.view()),
            (k4@, e@[3].1.view()),
            (k5@, e@[4].1.view()),
        ]);
        Json::Object(e)
    }

    pub fn obj6(
        k1: &str,
        v1: Json,
        k2: &str,
        v2: Json,
        k3: &str,
        v3: Json,
        k4: &str,
        v4: Json,
        k5: &str,
        v5: Json,
        k6: &str,
        v6: Json,
    ) -> (r: Json)
        ensures
            r.view() == obj6(
                k1@,
                v1.view(),
                k2@,
                v2.view(),
                k3@,
                v3.view(),
                k4@,
                v4.view(),
                k5@,
                v5.view(),
                k6@,
                v6.view(),
            ),
    {
        let e = vec![
            (owned(k1), v1),
            (owned(k2), v2),
            (owned(k3), v3),
            (owned(k4), v4),
            (owned(k5), v5),
            (owned(k6), v6),
        ];
        assert(entries_view(e@) =~= seq![
            (k1@, e@[0].1.view()),
            (k2@, e@[1].1.view()),
            (k3@, e@[2].1.view()),
            (k4@, e@[3].1.view()),
            (k5@, e@[4].1.view()),
            (k6@, e@[5].1.view()),
        ]);
        Json::Object(e)
    }

    pub fn obj7(
        k1: &str,
        v1: Json,
        k2: &str,
        v2: Json,
        k3: &str,
        v3: Json,
        k4: &str,
        v4: Json,
        k5: &str,
        v5: Json,
        k6: &str,
        v6: Json,
        k7: &str,
        v7: Json,
    ) -> (r: Json)
        ensures
            r.view() == obj7(
                k1@,
                v1.view(),
                k2@,
                v2.view(),
                k3@,
                v3.view(),
                k4@,
                v4.view(),
                k5@,
                v5.view(),
                k6@,
                v6.view(),
                k7@,
                v7.view(),
            ),
    {
        let e = vec![
            (owned(k1), v1),
            (owned(k2), v2),
            (owned(k3), v3),
            (owned(k4), v4),
            (owned(k5), v5),
            (owned(k6), v6),
            (owned(k7), v7),
        ];
        assert(entries_view(e@) =~= seq![
            (k1@, e@[0].1.view()),
            (k2@, e@[1].1.view()),
            (k3@, e@[2].1.view()),
            (k4@, e@[3].1.view()),
            (k5@, e@[4].1.view()),
            (k6@, e@[5].1.view()),
            (k7@, e@[6].1.view()),
        ]);
        Json::Object(e)
    }

    /// `value.pointer("/a/b")` for two object keys.
    pub fn get_path(&self, a: &str, b: &str) -> (r: Option<&Json>)
        ensures
            match r {
                Some(v) => jpath(self.view(), a@, b@) == Some(v.view()),
                None => jpath(self.view(), a@, b@) is None,
            },
    {
        match self.get(a) {
            Some(x) => x.get(b),
            None => None,
        }
    }

    /// Removes `key` from an object (`object.remove(key)`).
    pub fn remove(&mut self, key: &str)
        requires
            old(self).view() is Object,
        ensures
            final(self).view() == jremove(old(self).view(), key@),
    {
        match self {
            Json::Object(entries) => {
                remove_entry(entries, key);
            },
            _ => {},
        }
    }
}

/// Removes the first entry with `key` from a list of object entries.
pub fn remove_entry(entries: &mut Vec<(String, Json)>, key: &str)
    ensures
        entries_view(final(entries)@) == entries_remove(entries_view(old(entries)@), key@),
{
    let ghost es = entries_view(entries@);
    let mut i: usize = 0;
    while i < entries.len()
        invariant
            i <= entries@.len(),
            es == entries_view(entries@),
            entries@ == old(entries)@,
            forall|j: int| 0 <= j < i ==> es[j].0 != key@,
        decreases entries@.len() - i,
    {
        if str_eq(entries[i].0.as_str(), key) {
            proof {
                lemma_entries_index_first(es, key@, i as int);
            }
            entries.remove(i);
            assert(entries_view(entries@) =~= es.remove(i as int));
            return;
        }
        i = i + 1;
    }
    proof {
        lemma_entries_index_none(es, key@);
    }
}

/// The compact text `serde_json::to_string` writes for a value (object
/// members in key order, as its `Value` holds them).
pub uninterp spec fn json_text(v: JsonView) -> Seq<char>;

/// A `Json` as a `serde_json::Value`, variant for variant: a number from
/// the `u64`, the `i64`, or the text it was read from. This is the
/// conversion half of `to_json_text`.
#[verifier::external_body]
fn value_from_json(v: &Json) -> Value {
    match v {
        Json::Null => Value::Null,
        Json::Bool(b) => Value::Bool(*b),
        Json::Number(JsonNumber::PosInt(u)) => Value::from(*u),
        Json::Number(JsonNumber::NegInt(i)) => Value::from(*i),
        Json::Number(JsonNumber::Float(t)) => t.parse().map_or(Value::Null, Value::Number),
        Json::Str(s) => Value::String(s.clone()),
        Json::Array(items) => Value::Array(items.iter().map(value_from_json).collect()),
        Json::Object(es) => Value::Object(es.iter().map(|(k, x)| (k.clone(), value_from_json(x))).collect()),
    }
}

/// `serde_json::to_string` of the value: the result is the named text of
/// `v`. Writing a `Value` does not fail.
#[verifier::external_body]
pub(crate) fn to_json_text(v: &Json) -> (r: String)
    ensures
        r@ == json_text(v.view()),
{
    serde_json::to_string(&value_from_json(v)).unwrap_or_default()
}

proof fn lemma_entries_index_range(es: Seq<(Seq<char>, JsonView)>, key: Seq<char>)
    ensures
        entries_index(es, key) matches Some(i) ==> 0 <= i < es.len() && es[i].0 == key,
    decreases es.len(),
{
    if es.len() > 0 && es[0].0 != key {
        lemma_entries_index_range(es.drop_first(), key);
    }
}

proof fn lemma_get_after_set(es: Seq<(Seq<char>, JsonView)>, key: Seq<char>, v: JsonView, k2: Seq<char>)
    ensures
        entries_get(entries_set(es, key, v), k2) == if k2 == key {
            Some(v)
        } else {
            entries_get(es, k2)
        },
    decreases es.len(),
{
    let set = entries_set(es, key, v);
    if es.len() == 0 {
        assert(entries_index(es, key) is None);
        assert(set == es.push((key, v)));
        assert(set.drop_first() =~= Seq::<(Seq<char>, JsonView)>::empty());
        assert(entries_get(set.drop_first(), k2) is None);
        assert(set[0] == (key, v));
        assert(entries_get(set, k2) == if k2 == key { Some(v) } else { entries_get(es, k2) });
    } else if es[0].0 == key {
        assert(set.drop_first() =~= es.drop_first());
        assert(set[0] == (key, v));
        assert(entries_get(set, k2) == if k2 == key { Some(v) } else { entries_get(es, k2) });
    } else {
        lemma_get_after_set(es.drop_first(), key, v, k2);
        lemma_entries_index_range(es.drop_first(), key);
        let rest = entries_set(es.drop_first(), key, v);
        match entries_index(es.drop_first(), key) {
            Some(i) => {
                assert(set.drop_first() =~= rest);
            },
            None => {
                assert(set.drop_first() =~= rest);
            },
        }
        assert(set[0] == es[0]);
        assert(set.len() > 0);
        assert(entries_get(set, k2) == if k2 == key { Some(v) } else { entries_get(es, k2) });
    }
}

/// Setting a member of an object and then reading it gives the value set;
/// other members read as before.
pub proof fn law_set_then_get(v: JsonView, key: Seq<char>, x: JsonView, k2: Seq<char>)
    requires
        v is Object,
    ensures
        jget(jset(v, key, x), k2) == if k2 == key {
            Some(x)
        } else {
            jget(v, k2)
        },
{
    lemma_get_after_set(v->Object_0, key, x, k2);
}

/// Reading a key finds the first member with that key.
pub proof fn lemma_entries_get_at(es: Seq<(Seq<char>, JsonView)>, key: Seq<char>, j: int)
    requires
        0 <= j < es.len(),
        es[j].0 == key,
        forall|k: int| 0 <= k < j ==> es[k].0 != key,
    ensures
        entries_get(es, key) == Some(es[j].1),
    decreases j,
{
    if j > 0 {
        assert(es[0].0 != key);
        lemma_entries_get_at(es.drop_first(), key, j - 1);
    }
}

} // verus!

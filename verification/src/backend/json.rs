//! The JSON values heq exchanges with CamillaDSP, held as plain data. A number is kept as the text
//! it is written as.
use vstd::prelude::*;

use crate::text::{chars_eq, chars_of, push_chars, string_of, text_less, text_lt};

verus! {

pub enum JsonValue {
    Null,
    Bool(bool),
    Number(String),
    String(String),
    Array(Vec<JsonValue>),
    /// entries in order, each key once
    Object(Vec<(String, JsonValue)>),
}

pub enum JsonView {
    Null,
    Bool(bool),
    Number(Seq<char>),
    String(Seq<char>),
    Array(Seq<JsonView>),
    Object(Seq<(Seq<char>, JsonView)>),
}

pub open spec fn jview(v: JsonValue) -> JsonView
    decreases v,
{
    match v {
        JsonValue::Null => JsonView::Null,
        JsonValue::Bool(b) => JsonView::Bool(b),
        JsonValue::Number(n) => JsonView::Number(n@),
        JsonValue::String(s) => JsonView::String(s@),
        JsonValue::Array(a) => JsonView::Array(
            Seq::new(
                a@.len(),
                |i: int|
                    if 0 <= i < a@.len() {
                        jview(a@[i])
                    } else {
                        JsonView::Null
                    },
            ),
        ),
        JsonValue::Object(m) => JsonView::Object(
            Seq::new(
                m@.len(),
                |i: int|
                    if 0 <= i < m@.len() {
                        (m@[i].0@, jview(m@[i].1))
                    } else {
                        (Seq::empty(), JsonView::Null)
                    },
            ),
        ),
    }
}

impl View for JsonValue {
    type V = JsonView;

    open spec fn view(&self) -> JsonView {
        jview(*self)
    }
}

pub open spec fn jviews(v: Seq<JsonValue>) -> Seq<JsonView> {
    v.map_values(|x: JsonValue| x@)
}

pub open spec fn entry_views(v: Seq<(String, JsonValue)>) -> Seq<(Seq<char>, JsonView)> {
    v.map_values(|e: (String, JsonValue)| (e.0@, e.1@))
}

pub proof fn lemma_array_view(a: Vec<JsonValue>)
    ensures
        JsonValue::Array(a)@ == JsonView::Array(jviews(a@)),
{
    assert(jview(JsonValue::Array(a)) is Array);
    assert(jview(JsonValue::Array(a))->Array_0 =~= jviews(a@));
}

pub proof fn lemma_object_view(m: Vec<(String, JsonValue)>)
    ensures
        JsonValue::Object(m)@ == JsonView::Object(entry_views(m@)),
{
    assert(jview(JsonValue::Object(m)) is Object);
    assert(jview(JsonValue::Object(m))->Object_0 =~= entry_views(m@));
}

/// A string value.
pub fn json_str(s: &str) -> (r: JsonValue)
    ensures
        r@ == JsonView::String(s@),
{
    JsonValue::String(string_of(&chars_of(s)))
}

/// A number value with the given text.
pub fn json_num(s: &str) -> (r: JsonValue)
    ensures
        r@ == JsonView::Number(s@),
{
    JsonValue::Number(string_of(&chars_of(s)))
}

fn copy_string(s: &String) -> (r: String)
    ensures
        r@ == s@,
{
    string_of(&chars_of(s.as_str()))
}

/// A copy of a value.
pub fn json_clone(v: &JsonValue) -> (r: JsonValue)
    ensures
        r@ == v@,
    decreases v,
{
    match v {
        JsonValue::Null => JsonValue::Null,
        JsonValue::Bool(b) => JsonValue::Bool(*b),
        JsonValue::Number(n) => JsonValue::Number(copy_string(n)),
        JsonValue::String(s) => JsonValue::String(copy_string(s)),
        JsonValue::Array(a) => {
            let mut out: Vec<JsonValue> = Vec::new();
            let mut i: usize = 0;
            while i < a.len()
                invariant
                    i <= a@.len(),
                    *v == JsonValue::Array(*a),
                    jviews(out@) =~= jviews(a@).take(i as int),
                decreases a@.len() - i,
            {
                proof {
                    assert(decreases_to!(*v => v->Array_0));
                    assert(decreases_to!(v->Array_0 => v->Array_0@));
                    assert(decreases_to!(v->Array_0@ => v->Array_0@[i as int]));
                }
                let c = json_clone(&a[i]);
                let ghost before = jviews(out@);
                out.push(c);
                assert(jviews(out@) =~= before.push(c@));
                i += 1;
            }
            proof {
                lemma_array_view(*a);
                lemma_array_view(out);
                assert(jviews(a@).take(a@.len() as int) =~= jviews(a@));
            }
            JsonValue::Array(out)
        },
        JsonValue::Object(m) => {
            let mut out: Vec<(String, JsonValue)> = Vec::new();
            let mut i: usize = 0;
            while i < m.len()
                invariant
                    i <= m@.len(),
                    *v == JsonValue::Object(*m),
                    entry_views(out@) =~= entry_views(m@).take(i as int),
                decreases m@.len() - i,
            {
                proof {
                    assert(decreases_to!(*v => v->Object_0));
                    assert(decreases_to!(v->Object_0 => v->Object_0@));
                    assert(decreases_to!(v->Object_0@ => v->Object_0@[i as int]));
                    assert(decreases_to!(v->Object_0@[i as int] => v->Object_0@[i as int].1));
                }
                let k = copy_string(&m[i].0);
                let c = json_clone(&m[i].1);
                let ghost before = entry_views(out@);
                let ghost e = (k@, c@);
                out.push((k, c));
                assert(entry_views(out@) =~= before.push(e));
                i += 1;
            }
            proof {
                lemma_object_view(*m);
                lemma_object_view(out);
                assert(entry_views(m@).take(m@.len() as int) =~= entry_views(m@));
            }
            JsonValue::Object(out)
        },
    }
}

/// The value under `key` in an object (`Value::get`); nothing for a missing key or a value
/// that is not an object.
pub open spec fn get_spec(v: JsonView, key: Seq<char>) -> Option<JsonView> {
    match v {
        JsonView::Object(m) => match find_key(m, key) {
            Some(i) => Some(m[i].1),
            None => None,
        },
        _ => None,
    }
}

/// The index of the first entry with the key.
pub open spec fn find_key(m: Seq<(Seq<char>, JsonView)>, key: Seq<char>) -> Option<int>
    decreases m.len(),
{
    if m.len() == 0 {
        None
    } else {
        match find_key(m.drop_last(), key) {
            Some(i) => Some(i),
            None => if m.last().0 == key {
                Some(m.len() - 1)
            } else {
                None
            },
        }
    }
}

proof fn lemma_find_key(m: Seq<(Seq<char>, JsonView)>, key: Seq<char>, i: int)
    requires
        0 <= i <= m.len(),
        forall|j: int| 0 <= j < i ==> (#[trigger] m[j]).0 != key,
    ensures
        find_key(m.take(i), key).is_none(),
        i < m.len() && m[i].0 == key ==> find_key(m, key) == Some(i),
        i == m.len() ==> find_key(m, key).is_none(),
    decreases i,
{
    if i > 0 {
        lemma_find_key(m, key, i - 1);
        assert(m.take(i).drop_last() =~= m.take(i - 1));
    }
    if i < m.len() && m[i].0 == key {
        lemma_find_key_prefix(m, key, i);
    }
    if i == m.len() {
        assert(m.take(i) =~= m);
    }
}

proof fn lemma_find_key_prefix(m: Seq<(Seq<char>, JsonView)>, key: Seq<char>, i: int)
    requires
        0 <= i < m.len(),
        find_key(m.take(i), key).is_none(),
        m[i].0 == key,
    ensures
        find_key(m, key) == Some(i),
    decreases m.len() - i,
{
    if i == m.len() - 1 {
        assert(m.drop_last() =~= m.take(i));
    } else {
        assert(m.drop_last().take(i) =~= m.take(i));
        lemma_find_key_prefix(m.drop_last(), key, i);
    }
}

/// The value under `key` in an object.
pub fn get<'a>(v: &'a JsonValue, key: &str) -> (r: Option<&'a JsonValue>)
    ensures
        match r {
            Some(x) => get_spec(v@, key@) == Some(x@),
            None => get_spec(v@, key@).is_none(),
        },
{
    match v {
        JsonValue::Object(m) => {
            proof {
                lemma_object_view(*m);
            }
            let ghost ev = entry_views(m@);
            let kv = chars_of(key);
            let mut i: usize = 0;
            while i < m.len()
                invariant
                    i <= m@.len(),
                    ev == entry_views(m@),
                    v@ == JsonView::Object(ev),
                    kv@ == key@,
                    forall|j: int| 0 <= j < i ==> (#[trigger] ev[j]).0 != key@,
                decreases m@.len() - i,
            {
                assert(ev[i as int] == (m@[i as int].0@, m@[i as int].1@));
                let mk = chars_of(m[i].0.as_str());
                if chars_eq(&mk, &kv) {
                    proof {
                        lemma_find_key(ev, key@, i as int);
                    }
                    return Some(&m[i].1);
                }
                i += 1;
            }
            proof {
                lemma_find_key(ev, key@, i as int);
            }
            None
        },
        _ => None,
    }
}

/// The text of a string value (`Value::as_str`).
pub open spec fn as_str_spec(v: JsonView) -> Option<Seq<char>> {
    match v {
        JsonView::String(s) => Some(s),
        _ => None,
    }
}

pub fn as_str(v: &JsonValue) -> (r: Option<&String>)
    ensures
        match r {
            Some(s) => as_str_spec(v@) == Some(s@),
            None => as_str_spec(v@).is_none(),
        },
{
    match v {
        JsonValue::String(s) => Some(s),
        _ => None,
    }
}

/// Where a new key goes among an object's entries: before the first entry whose key sorts after
/// it, so that entries kept in key order stay in key order, as serde_json's map keeps them.
pub open spec fn insert_pos(m: Seq<(Seq<char>, JsonView)>, key: Seq<char>) -> int
    decreases m.len(),
{
    if m.len() == 0 {
        0
    } else if text_lt(key, m[0].0) {
        0
    } else {
        1 + insert_pos(m.drop_first(), key)
    }
}

proof fn lemma_insert_pos(m: Seq<(Seq<char>, JsonView)>, key: Seq<char>, p: int)
    requires
        0 <= p <= m.len(),
        forall|j: int| 0 <= j < p ==> !text_lt(key, (#[trigger] m[j]).0),
        p == m.len() || text_lt(key, m[p].0),
    ensures
        insert_pos(m, key) == p,
    decreases p,
{
    if p > 0 {
        assert(!text_lt(key, m[0].0));
        let t = m.drop_first();
        assert forall|j: int| 0 <= j < p - 1 implies !text_lt(key, (#[trigger] t[j]).0) by {
            assert(t[j] == m[j + 1]);
        }
        if p < m.len() {
            assert(t[p - 1] == m[p]);
        }
        lemma_insert_pos(t, key, p - 1);
    }
}

proof fn lemma_insert_pos_bounds(m: Seq<(Seq<char>, JsonView)>, key: Seq<char>)
    ensures
        0 <= insert_pos(m, key) <= m.len(),
    decreases m.len(),
{
    if m.len() > 0 {
        lemma_insert_pos_bounds(m.drop_first(), key);
    }
}

/// Setting a key: the value replaces the one under the same key, in its place; a new key is
/// added where its order puts it (`insert_pos`).
pub open spec fn insert_spec(m: Seq<(Seq<char>, JsonView)>, key: Seq<char>, val: JsonView) -> Seq<
    (Seq<char>, JsonView),
> {
    match find_key(m, key) {
        Some(i) => m.update(i, (key, val)),
        None => m.insert(insert_pos(m, key), (key, val)),
    }
}

pub fn insert(m: &mut Vec<(String, JsonValue)>, key: &str, val: JsonValue)
    ensures
        entry_views(final(m)@) == insert_spec(entry_views(old(m)@), key@, val@),
{
    let ghost ev = entry_views(m@);
    let kv = chars_of(key);
    let mut i: usize = 0;
    while i < m.len()
        invariant
            i <= m@.len(),
            ev == entry_views(m@),
            ev == entry_views(old(m)@),
            *m == *old(m),
            kv@ == key@,
            forall|j: int| 0 <= j < i ==> (#[trigger] ev[j]).0 != key@,
        decreases m@.len() - i,
    {
        assert(ev[i as int] == (m@[i as int].0@, m@[i as int].1@));
        let mk = chars_of(m[i].0.as_str());
        if chars_eq(&mk, &kv) {
            proof {
                lemma_find_key(ev, key@, i as int);
            }
            let ghost e = (key@, val@);
            let k = string_of(&kv);
            m.set(i, (k, val));
            assert(entry_views(m@) =~= ev.update(i as int, e));
            return;
        }
        i += 1;
    }
    proof {
        lemma_find_key(ev, key@, i as int);
    }
    let mut p: usize = 0;
    while p < m.len()
        invariant
            p <= m@.len(),
            ev == entry_views(m@),
            *m == *old(m),
            kv@ == key@,
            forall|j: int| 0 <= j < p ==> !text_lt(key@, (#[trigger] ev[j]).0),
        ensures
            p <= m@.len(),
            forall|j: int| 0 <= j < p ==> !text_lt(key@, (#[trigger] ev[j]).0),
            p == m@.len() || text_lt(key@, ev[p as int].0),
        decreases m@.len() - p,
    {
        assert(ev[p as int] == (m@[p as int].0@, m@[p as int].1@));
        let mk = chars_of(m[p].0.as_str());
        if text_less(&kv, &mk) {
            break;
        }
        p += 1;
    }
    proof {
        lemma_insert_pos(ev, key@, p as int);
    }
    let ghost e = (key@, val@);
    let k = string_of(&kv);
    m.insert(p, (k, val));
    assert(entry_views(m@) =~= ev.insert(p as int, e));
}

/// `find_key` finds the first entry with the key, or says there is none.
proof fn lemma_find_key_first(m: Seq<(Seq<char>, JsonView)>, key: Seq<char>)
    ensures
        match find_key(m, key) {
            Some(i) => 0 <= i < m.len() && m[i].0 == key && forall|j: int|
                0 <= j < i ==> (#[trigger] m[j]).0 != key,
            None => forall|j: int| 0 <= j < m.len() ==> (#[trigger] m[j]).0 != key,
        },
    decreases m.len(),
{
    if m.len() > 0 {
        let p = m.drop_last();
        lemma_find_key_first(p, key);
        match find_key(p, key) {
            Some(i) => {
                assert forall|j: int| 0 <= j < i implies (#[trigger] m[j]).0 != key by {
                    assert(m[j] == p[j]);
                }
                assert(m[i] == p[i]);
            },
            None => {
                assert forall|j: int| 0 <= j < m.len() - 1 implies (#[trigger] m[j]).0 != key by {
                    assert(m[j] == p[j]);
                }
            },
        }
    }
}

/// Two entry lists with the same keys, position by position, find a key at the same place.
proof fn lemma_find_key_same_keys(a: Seq<(Seq<char>, JsonView)>, b: Seq<(Seq<char>, JsonView)>, key: Seq<char>)
    requires
        a.len() == b.len(),
        forall|j: int| 0 <= j < a.len() ==> (#[trigger] a[j]).0 == b[j].0,
    ensures
        find_key(a, key) == find_key(b, key),
    decreases a.len(),
{
    if a.len() > 0 {
        lemma_find_key_same_keys(a.drop_last(), b.drop_last(), key);
        assert(a.last().0 == b.last().0);
    }
}

/// Inserting sets the value under its key and leaves every other key's value as it was.
pub proof fn law_insert_keeps_others(m: Seq<(Seq<char>, JsonView)>, key: Seq<char>, val: JsonView, other: Seq<char>)
    ensures
        get_spec(JsonView::Object(insert_spec(m, key, val)), key) == Some(val),
        other != key ==> get_spec(JsonView::Object(insert_spec(m, key, val)), other) == get_spec(
            JsonView::Object(m),
            other,
        ),
{
    let n = insert_spec(m, key, val);
    lemma_find_key_first(m, key);
    lemma_find_key_first(m, other);
    match find_key(m, key) {
        Some(p) => {
            lemma_find_key_same_keys(n, m, key);
            if other != key {
                lemma_find_key_same_keys(n, m, other);
                if let Some(i) = find_key(m, other) {
                    assert(i != p);
                    assert(n[i] == m[i]);
                }
            }
        },
        None => {
            let p = insert_pos(m, key);
            lemma_insert_pos_bounds(m, key);
            assert forall|j: int| 0 <= j < p implies (#[trigger] n[j]).0 != key by {
                assert(n[j] == m[j]);
            }
            lemma_find_key(n, key, p);
            if other != key {
                match find_key(m, other) {
                    Some(i) => {
                        if i < p {
                            assert forall|j: int| 0 <= j < i implies (#[trigger] n[j]).0 != other by {
                                assert(n[j] == m[j]);
                            }
                            assert(n[i] == m[i]);
                            lemma_find_key(n, other, i);
                        } else {
                            assert forall|j: int| 0 <= j < i + 1 implies (#[trigger] n[j]).0 != other by {
                                if j < p {
                                    assert(n[j] == m[j]);
                                } else if j > p {
                                    assert(n[j] == m[j - 1]);
                                }
                            }
                            assert(n[i + 1] == m[i]);
                            lemma_find_key(n, other, i + 1);
                        }
                    },
                    None => {
                        assert forall|j: int| 0 <= j < n.len() implies (#[trigger] n[j]).0 != other by {
                            if j < p {
                                assert(n[j] == m[j]);
                            } else if j > p {
                                assert(n[j] == m[j - 1]);
                            }
                        }
                        lemma_find_key(n, other, n.len() as int);
                    },
                }
            }
        },
    }
}

// ---------------------------------------------------------------------------------------------
// JSON text
// ---------------------------------------------------------------------------------------------

#[verifier::external_type_specification]
#[verifier::external_body]
pub struct ExJsonDocument(serde_json::Value);

/// What `serde_json::from_str::<Value>` reads a text as, taken over one for one: nothing when
/// the text is not JSON.
pub uninterp spec fn json_parsed(text: Seq<char>) -> Option<JsonView>;

/// What `Value::to_string` prints for a value (objects with their keys sorted, as serde_json's
/// map holds them).
pub uninterp spec fn json_printed(v: JsonView) -> Seq<char>;

/// A serde_json value copied one for one into the library's type (a number keeps the text
/// serde_json prints for it).
#[verifier::external_body]
fn from_document(v: &serde_json::Value) -> JsonValue {
    match v {
        serde_json::Value::Null => JsonValue::Null,
        serde_json::Value::Bool(b) => JsonValue::Bool(*b),
        serde_json::Value::Number(n) => JsonValue::Number(n.to_string()),
        serde_json::Value::String(s) => JsonValue::String(s.clone()),
        serde_json::Value::Array(a) => JsonValue::Array(a.iter().map(from_document).collect()),
        serde_json::Value::Object(m) => JsonValue::Object(
            m.iter().map(|(k, x)| (k.clone(), from_document(x))).collect(),
        ),
    }
}

/// The library's value copied one for one into a serde_json value (a number text serde_json
/// does not read as a number becomes `null`).
#[verifier::external_body]
fn to_document(v: &JsonValue) -> serde_json::Value {
    match v {
        JsonValue::Null => serde_json::Value::Null,
        JsonValue::Bool(b) => serde_json::Value::Bool(*b),
        JsonValue::Number(t) => match t.parse::<serde_json::Number>() {
            Ok(n) => serde_json::Value::Number(n),
            Err(_) => serde_json::Value::Null,
        },
        JsonValue::String(s) => serde_json::Value::String(s.clone()),
        JsonValue::Array(a) => serde_json::Value::Array(a.iter().map(to_document).collect()),
        JsonValue::Object(m) => serde_json::Value::Object(
            m.iter().map(|(k, x)| (k.clone(), to_document(x))).collect(),
        ),
    }
}

/// `serde_json::from_str::<Value>`: the value a JSON text holds, or serde_json's error text.
/// The error's wording is not stated.
#[verifier::external_body]
pub(crate) fn parse_json(text: &str) -> (r: Result<JsonValue, String>)
    ensures
        match r {
            Ok(v) => json_parsed(text@) == Some(v@),
            Err(_) => json_parsed(text@).is_none(),
        },
{
    match serde_json::from_str::<serde_json::Value>(text) {
        Ok(v) => Ok(from_document(&v)),
        Err(e) => Err(e.to_string()),
    }
}

/// `Value::to_string`: the compact JSON text of a value.
#[verifier::external_body]
pub(crate) fn print_json(v: &JsonValue) -> (r: String)
    ensures
        r@ == json_printed(v@),
{
    to_document(v).to_string()
}

} // verus!

//! JSON documents: their values, how they are read and how they are parsed.
use vstd::prelude::*;
use crate::text::{str_eq, text_of, texts};

verus! {

/// The mathematical value of a JSON document. Integers are exact; every other
/// number is kept by its decimal text.
pub enum Json {
    Null,
    Bool(bool),
    Int(int),
    Float(Seq<char>),
    Str(Seq<char>),
    Array(Seq<Json>),
    Object(Seq<(Seq<char>, Json)>),
}

/// A JSON document.
#[derive(Debug)]
pub enum JsonValue {
    Null,
    Bool(bool),
    Int(i128),
    Float(String),
    Str(String),
    Array(Vec<JsonValue>),
    Object(Vec<(String, JsonValue)>),
}

pub open spec fn json_model(v: JsonValue) -> Json
    decreases v, 1int,
{
    match v {
        JsonValue::Null => Json::Null,
        JsonValue::Bool(b) => Json::Bool(b),
        JsonValue::Int(n) => Json::Int(n as int),
        JsonValue::Float(t) => Json::Float(t@),
        JsonValue::Str(s) => Json::Str(s@),
        JsonValue::Array(items) => Json::Array(items_model(items@)),
        JsonValue::Object(entries) => Json::Object(entries_model(entries@)),
    }
}

pub open spec fn items_model(items: Seq<JsonValue>) -> Seq<Json>
    decreases items, 0int,
{
    Seq::new(
        items.len(),
        |i: int|
            if 0 <= i < items.len() {
                json_model(items[i])
            } else {
                Json::Null
            },
    )
}

pub open spec fn entries_model(entries: Seq<(String, JsonValue)>) -> Seq<(Seq<char>, Json)>
    decreases entries, 0int,
{
    Seq::new(
        entries.len(),
        |i: int|
            if 0 <= i < entries.len() {
                (entries[i].0@, json_model(entries[i].1))
            } else {
                (Seq::empty(), Json::Null)
            },
    )
}

pub proof fn lemma_items_model_push(items: Seq<JsonValue>, item: JsonValue)
    ensures
        items_model(items.push(item)) == items_model(items).push(json_model(item)),
{
    assert(items_model(items.push(item)) =~= items_model(items).push(json_model(item)));
}

pub proof fn lemma_entries_model_push(entries: Seq<(String, JsonValue)>, entry: (String, JsonValue))
    ensures
        entries_model(entries.push(entry)) == entries_model(entries).push(
            (entry.0@, json_model(entry.1)),
        ),
{
    assert(entries_model(entries.push(entry)) =~= entries_model(entries).push(
        (entry.0@, json_model(entry.1)),
    ));
}

impl View for JsonValue {
    type V = Json;

    open spec fn view(&self) -> Json {
        json_model(*self)
    }
}

impl JsonValue {
    /// A copy of the document.
    pub fn copy(&self) -> (r: JsonValue)
        ensures
            r@ == self@,
        decreases self,
    {
        match self {
            JsonValue::Null => JsonValue::Null,
            JsonValue::Bool(b) => JsonValue::Bool(*b),
            JsonValue::Int(n) => JsonValue::Int(*n),
            JsonValue::Float(t) => JsonValue::Float(t.clone()),
            JsonValue::Str(s) => JsonValue::Str(s.clone()),
            JsonValue::Array(items) => {
                let mut out: Vec<JsonValue> = Vec::new();
                let mut i: usize = 0;
                while i < items.len()
                    invariant
                        *self == JsonValue::Array(*items),
                        i <= items.len(),
                        items_model(out@) == items_model(items@).take(i as int),
                    decreases items.len() - i,
                {
                    assert(decreases_to!(self => self->Array_0[i as int]));
                    let item = items[i].copy();
                    proof {
                        lemma_items_model_push(out@, item);
                    }
                    out.push(item);
                    assert(items_model(out@) =~= items_model(items@).take(i + 1));
                    i = i + 1;
                }
                assert(items_model(out@) =~= items_model(items@));
                JsonValue::Array(out)
            },
            JsonValue::Object(entries) => {
                let mut out: Vec<(String, JsonValue)> = Vec::new();
                let mut i: usize = 0;
                while i < entries.len()
                    invariant
                        *self == JsonValue::Object(*entries),
                        i <= entries.len(),
                        entries_model(out@) == entries_model(entries@).take(i as int),
                    decreases entries.len() - i,
                {
                    assert(decreases_to!(self => self->Object_0[i as int].1));
                    let value = entries[i].1.copy();
                    let entry = (entries[i].0.clone(), value);
                    proof {
                        lemma_entries_model_push(out@, entry);
                    }
                    out.push(entry);
                    assert(entries_model(out@) =~= entries_model(entries@).take(i + 1));
                    i = i + 1;
                }
                assert(entries_model(out@) =~= entries_model(entries@));
                JsonValue::Object(out)
            },
        }
    }
}

// ---------------------------------------------------------------------------
// Reading
// ---------------------------------------------------------------------------

/// The value of the first entry with the key.
pub open spec fn entry_value(entries: Seq<(Seq<char>, Json)>, key: Seq<char>) -> Option<Json>
    decreases entries.len(),
{
    if entries.len() == 0 {
        None
    } else if entries.first().0 == key {
        Some(entries.first().1)
    } else {
        entry_value(entries.drop_first(), key)
    }
}

/// The member of an object; nothing else has members.
pub open spec fn json_get(j: Json, key: Seq<char>) -> Option<Json> {
    match j {
        Json::Object(entries) => entry_value(entries, key),
        _ => None,
    }
}

pub open spec fn json_str(j: Json) -> Option<Seq<char>> {
    match j {
        Json::Str(s) => Some(s),
        _ => None,
    }
}

pub open spec fn json_bool(j: Json) -> Option<bool> {
    match j {
        Json::Bool(b) => Some(b),
        _ => None,
    }
}

/// The number, where it is an integer that an `i64` can hold.
pub open spec fn json_i64(j: Json) -> Option<i64> {
    match j {
        Json::Int(n) => if i64::MIN <= n <= i64::MAX {
            Some(n as i64)
        } else {
            None
        },
        _ => None,
    }
}

/// The strings among the items, in order.
pub open spec fn item_strings(items: Seq<Json>) -> Seq<Seq<char>>
    decreases items.len(),
{
    if items.len() == 0 {
        Seq::empty()
    } else {
        match items.last() {
            Json::Str(s) => item_strings(items.drop_last()).push(s),
            _ => item_strings(items.drop_last()),
        }
    }
}

/// The strings of an array; nothing else has any.
pub open spec fn json_strings(j: Json) -> Seq<Seq<char>> {
    match j {
        Json::Array(items) => item_strings(items),
        _ => Seq::empty(),
    }
}

/// The view of an optional reference to a document.
pub open spec fn found(v: Option<&JsonValue>) -> Option<Json> {
    match v {
        Some(j) => Some(j@),
        None => None,
    }
}

impl JsonValue {
    /// The member of an object.
    pub fn get(&self, key: &str) -> (r: Option<&JsonValue>)
        ensures
            found(r) == json_get(self@, key@),
    {
        match self {
            JsonValue::Object(entries) => {
                let mut i: usize = 0;
                proof {
                    assert(entries_model(entries@).skip(0) =~= entries_model(entries@));
                }
                while i < entries.len()
                    invariant
                        *self == JsonValue::Object(*entries),
                        i <= entries.len(),
                        entry_value(entries_model(entries@), key@) == entry_value(
                            entries_model(entries@).skip(i as int),
                            key@,
                        ),
                    decreases entries.len() - i,
                {
                    proof {
                        let rest = entries_model(entries@).skip(i as int);
                        assert(rest.drop_first() =~= entries_model(entries@).skip(i + 1));
                        assert(rest.first() == entries_model(entries@)[i as int]);
                    }
                    if str_eq(entries[i].0.as_str(), key) {
                        return Some(&entries[i].1);
                    }
                    i = i + 1;
                }
                None
            },
            _ => None,
        }
    }

    pub fn as_str(&self) -> (r: Option<&str>)
        ensures
            match r {
                Some(s) => json_str(self@) == Some(s@),
                None => json_str(self@) is None,
            },
    {
        match self {
            JsonValue::Str(s) => Some(s.as_str()),
            _ => None,
        }
    }

    pub fn as_bool(&self) -> (r: Option<bool>)
        ensures
            r == json_bool(self@),
    {
        match self {
            JsonValue::Bool(b) => Some(*b),
            _ => None,
        }
    }

    pub fn as_i64(&self) -> (r: Option<i64>)
        ensures
            r == json_i64(self@),
    {
        match self {
            JsonValue::Int(n) => if *n >= i64::MIN as i128 && *n <= i64::MAX as i128 {
                Some(*n as i64)
            } else {
                None
            },
            _ => None,
        }
    }

    /// The strings of an array, in order; items of another type are left out.
    pub fn strings(&self) -> (r: Vec<String>)
        ensures
            texts(r@) == json_strings(self@),
    {
        let mut out: Vec<String> = Vec::new();
        match self {
            JsonValue::Array(items) => {
                let mut i: usize = 0;
                while i < items.len()
                    invariant
                        *self == JsonValue::Array(*items),
                        i <= items.len(),
                        texts(out@) =~= item_strings(items_model(items@).take(i as int)),
                    decreases items.len() - i,
                {
                    proof {
                        let next = items_model(items@).take(i + 1);
                        assert(next.drop_last() =~= items_model(items@).take(i as int));
                        assert(next.last() == items_model(items@)[i as int]);
                    }
                    match &items[i] {
                        JsonValue::Str(s) => {
                            out.push(s.clone());
                        },
                        _ => {},
                    }
                    i = i + 1;
                }
                assert(items_model(items@).take(i as int) =~= items_model(items@));
            },
            _ => {},
        }
        assert(texts(out@) =~= json_strings(self@));
        out
    }
}

// ---------------------------------------------------------------------------
// Building
// ---------------------------------------------------------------------------

/// Adds a member to the entries of an object.
pub fn put(entries: &mut Vec<(String, JsonValue)>, key: &str, value: JsonValue)
    ensures
        entries_model(final(entries)@) == entries_model(old(entries)@).push((key@, value@)),
{
    let entry = (key.to_owned(), value);
    proof {
        lemma_entries_model_push(entries@, entry);
    }
    entries.push(entry);
}

pub open spec fn text_json(s: Option<Seq<char>>) -> Json {
    match s {
        Some(t) => Json::Str(t),
        None => Json::Null,
    }
}

/// A string, or null where there is none.
pub fn text_or_null(s: &Option<String>) -> (r: JsonValue)
    ensures
        r@ == text_json(text_of(*s)),
{
    match s {
        Some(t) => JsonValue::Str(t.clone()),
        None => JsonValue::Null,
    }
}

/// A JSON string.
pub fn text_value(s: &str) -> (r: JsonValue)
    ensures
        r@ == Json::Str(s@),
{
    JsonValue::Str(s.to_owned())
}

/// Adds a string to a list of documents.
pub fn add_text(items: &mut Vec<JsonValue>, s: &str)
    ensures
        items_model(final(items)@) == items_model(old(items)@).push(Json::Str(s@)),
{
    let v = text_value(s);
    proof {
        lemma_items_model_push(items@, v);
    }
    items.push(v);
}

// ---------------------------------------------------------------------------
// Parsing
// ---------------------------------------------------------------------------

/// A parsed document as `serde_json` holds it.
#[verifier::external_type_specification]
#[verifier::external_body]
pub struct ExValue(serde_json::Value);

/// What a parsed document holds.
pub uninterp spec fn json_value(v: serde_json::Value) -> Json;

/// The document that a text in UTF-8 denotes, where it is one.
pub uninterp spec fn json_document(bytes: Seq<u8>) -> Option<Json>;

/// The outermost layer of a parsed document.
pub enum JsonLayer {
    Null,
    Bool(bool),
    Int(i128),
    Float(String),
    Str(String),
    Array(Vec<serde_json::Value>),
    Object(Vec<(String, serde_json::Value)>),
}

pub open spec fn layer_model(l: JsonLayer) -> Json {
    match l {
        JsonLayer::Null => Json::Null,
        JsonLayer::Bool(b) => Json::Bool(b),
        JsonLayer::Int(n) => Json::Int(n as int),
        JsonLayer::Float(t) => Json::Float(t@),
        JsonLayer::Str(s) => Json::Str(s@),
        JsonLayer::Array(items) => Json::Array(
            items@.map_values(|v: serde_json::Value| json_value(v)),
        ),
        JsonLayer::Object(entries) => Json::Object(
            entries@.map_values(|e: (String, serde_json::Value)| (e.0@, json_value(e.1))),
        ),
    }
}

/// `serde_json::from_slice` into a `serde_json::Value`: the document that the
/// bytes denote, and an error where they denote none.
#[verifier::external_body]
fn parse_value(bytes: &[u8]) -> (r: Option<serde_json::Value>)
    ensures
        match r {
            Some(v) => json_document(bytes@) == Some(json_value(v)),
            None => json_document(bytes@) is None,
        },
{
    serde_json::from_slice(bytes).ok()
}

/// The variant of a `serde_json::Value` with its fields. A number is an
/// integer where `as_i64` or `as_u64` gives one, and is kept by its text
/// otherwise.
#[verifier::external_body]
fn layer_of(v: serde_json::Value) -> (r: JsonLayer)
    ensures
        layer_model(r) == json_value(v),
{
    match v {
        serde_json::Value::Null => JsonLayer::Null,
        serde_json::Value::Bool(b) => JsonLayer::Bool(b),
        serde_json::Value::Number(n) => match (n.as_i64(), n.as_u64()) {
            (Some(i), _) => JsonLayer::Int(i as i128),
            (None, Some(u)) => JsonLayer::Int(u as i128),
            (None, None) => JsonLayer::Float(n.to_string()),
        },
        serde_json::Value::String(s) => JsonLayer::Str(s),
        serde_json::Value::Array(a) => JsonLayer::Array(a),
        serde_json::Value::Object(m) => JsonLayer::Object(m.into_iter().collect()),
    }
}

/// Takes a parsed document over.
pub fn from_value(v: serde_json::Value) -> (r: JsonValue)
    ensures
        r@ == json_value(v),
    decreases json_value(v),
{
    match layer_of(v) {
        JsonLayer::Null => JsonValue::Null,
        JsonLayer::Bool(b) => JsonValue::Bool(b),
        JsonLayer::Int(n) => JsonValue::Int(n),
        JsonLayer::Float(t) => JsonValue::Float(t),
        JsonLayer::Str(s) => JsonValue::Str(s),
        JsonLayer::Array(items) => {
            let mut left = items;
            let ghost all = items@;
            let mut out: Vec<JsonValue> = Vec::new();
            while left.len() > 0
                invariant
                    json_value(v) == Json::Array(
                        all.map_values(|v: serde_json::Value| json_value(v)),
                    ),
                    left@.len() <= all.len(),
                    left@ == all.take(left@.len() as int),
                    items_model(out@).len() == all.len() - left@.len(),
                    forall|k: int|
                        0 <= k < out@.len() ==> json_model(#[trigger] out@[k]) == json_value(
                            all[all.len() - 1 - k],
                        ),
                decreases left@.len(),
            {
                let ghost n = left@.len();
                let item = left.pop().unwrap();
                proof {
                    assert(item == all[n - 1]);
                    assert(json_value(v)->Array_0[n - 1] == json_value(item));
                    assert(decreases_to!(json_value(v) => json_value(v)->Array_0[n - 1]));
                }
                out.push(from_value(item));
            }
            let r = reversed(out);
            assert(items_model(r@) =~= json_value(v)->Array_0);
            JsonValue::Array(r)
        },
        JsonLayer::Object(entries) => {
            let mut left = entries;
            let ghost all = entries@;
            let mut out: Vec<(String, JsonValue)> = Vec::new();
            while left.len() > 0
                invariant
                    json_value(v) == Json::Object(
                        all.map_values(
                            |e: (String, serde_json::Value)| (e.0@, json_value(e.1)),
                        ),
                    ),
                    left@.len() <= all.len(),
                    left@ == all.take(left@.len() as int),
                    out@.len() == all.len() - left@.len(),
                    forall|k: int|
                        0 <= k < out@.len() ==> (#[trigger] out@[k]).0@ == all[all.len() - 1 - k].0@
                            && json_model(out@[k].1) == json_value(all[all.len() - 1 - k].1),
                decreases left@.len(),
            {
                let ghost n = left@.len();
                let entry = left.pop().unwrap();
                proof {
                    assert(entry == all[n - 1]);
                    assert(json_value(v)->Object_0[n - 1].1 == json_value(entry.1));
                    assert(decreases_to!(json_value(v) => json_value(v)->Object_0[n - 1].1));
                }
                out.push((entry.0, from_value(entry.1)));
            }
            let r = reversed(out);
            assert(entries_model(r@) =~= json_value(v)->Object_0);
            JsonValue::Object(r)
        },
    }
}

fn reversed<T>(v: Vec<T>) -> (r: Vec<T>)
    ensures
        r@ == v@.reverse(),
{
    let mut left = v;
    let mut out: Vec<T> = Vec::new();
    while left.len() > 0
        invariant
            left@.len() <= v@.len(),
            left@ == v@.take(left@.len() as int),
            out@ =~= v@.skip(left@.len() as int).reverse(),
        decreases left@.len(),
    {
        let item = left.pop().unwrap();
        out.push(item);
    }
    assert(out@ =~= v@.reverse());
    out
}

/// Parses a JSON text.
pub fn parse_json(bytes: &[u8]) -> (r: Option<JsonValue>)
    ensures
        match r {
            Some(v) => json_document(bytes@) == Some(v@),
            None => json_document(bytes@) is None,
        },
{
    match parse_value(bytes) {
        Some(v) => Some(from_value(v)),
        None => None,
    }
}

impl Clone for JsonValue {
    fn clone(&self) -> (r: JsonValue)
        ensures
            r@ == self@,
    {
        self.copy()
    }
}

} // verus!

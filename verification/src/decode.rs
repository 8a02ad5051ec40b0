//! Reading records out of JSON documents.
//!
//! A record is an object with its fields by name, or an array with its fields
//! in order. A field that is missing or null has no value; one of another type
//! than expected makes the record unreadable. A reader gives nothing for a
//! record that it cannot read.
use vstd::prelude::*;
use crate::json::{
    entries_model, entry_value, found, json_i64, items_model, Json, JsonValue,
};
use crate::text::text_of;
use crate::text_map::{texts_map, TextMap};

verus! {

/// The view of a value that may be missing.
pub open spec fn viewed<T: View>(o: Option<T>) -> Option<T::V> {
    match o {
        Some(t) => Some(t@),
        None => None,
    }
}

/// The document is a record of up to `n` fields.
pub open spec fn is_record(j: Json, n: nat) -> bool {
    match j {
        Json::Object(_) => true,
        Json::Array(items) => items.len() <= n,
        _ => false,
    }
}

/// The field of a record, by its name in an object and by its place in an array.
pub open spec fn field_of(j: Json, name: Seq<char>, place: nat) -> Option<Json> {
    match j {
        Json::Object(entries) => entry_value(entries, name),
        Json::Array(items) => if place < items.len() {
            Some(items[place as int])
        } else {
            None
        },
        _ => None,
    }
}

/// A string, where there is one.
pub open spec fn text_field(f: Option<Json>) -> Option<Option<Seq<char>>> {
    match f {
        None | Some(Json::Null) => Some(None),
        Some(Json::Str(s)) => Some(Some(s)),
        _ => None,
    }
}

/// An integer that an `i64` can hold, where there is a number.
pub open spec fn int_field(f: Option<Json>) -> Option<Option<i64>> {
    match f {
        None | Some(Json::Null) => Some(None),
        Some(v) => match json_i64(v) {
            Some(n) => Some(Some(n)),
            None => None,
        },
    }
}

/// A boolean, where there is one.
pub open spec fn bool_field(f: Option<Json>) -> Option<Option<bool>> {
    match f {
        None | Some(Json::Null) => Some(None),
        Some(Json::Bool(b)) => Some(Some(b)),
        _ => None,
    }
}

/// A string that must be there.
pub open spec fn required_text(f: Option<Json>) -> Option<Seq<char>> {
    match f {
        Some(Json::Str(s)) => Some(s),
        _ => None,
    }
}

/// The map of an object whose members are all strings.
pub open spec fn text_entries(entries: Seq<(Seq<char>, Json)>) -> Option<Map<Seq<char>, Seq<char>>>
    decreases entries.len(),
{
    if entries.len() == 0 {
        Some(Map::empty())
    } else {
        match (text_entries(entries.drop_last()), entries.last().1) {
            (Some(m), Json::Str(s)) => Some(m.insert(entries.last().0, s)),
            _ => None,
        }
    }
}

/// A map of strings; an empty one where the field is missing.
pub open spec fn text_map_field(f: Option<Json>) -> Option<Map<Seq<char>, Seq<char>>> {
    match f {
        None => Some(Map::empty()),
        Some(Json::Object(entries)) => text_entries(entries),
        _ => None,
    }
}

impl JsonValue {
    /// Whether the document is a record of up to `n` fields.
    pub fn is_record(&self, n: usize) -> (r: bool)
        ensures
            r == is_record(self@, n as nat),
    {
        match self {
            JsonValue::Object(_) => true,
            JsonValue::Array(items) => items.len() <= n,
            _ => false,
        }
    }

    /// The field of a record.
    pub fn field(&self, name: &str, place: usize) -> (r: Option<&JsonValue>)
        ensures
            found(r) == field_of(self@, name@, place as nat),
    {
        match self {
            JsonValue::Object(_) => self.get(name),
            JsonValue::Array(items) => if place < items.len() {
                assert(items_model(items@)[place as int] == items@[place as int]@);
                Some(&items[place])
            } else {
                None
            },
            _ => None,
        }
    }
}

/// The view of an optional string that was read.
pub open spec fn read_text_view(r: Option<Option<String>>) -> Option<Option<Seq<char>>> {
    match r {
        Some(Some(s)) => Some(Some(s@)),
        Some(None) => Some(None),
        None => None,
    }
}

pub fn read_text(f: Option<&JsonValue>) -> (r: Option<Option<String>>)
    ensures
        read_text_view(r) == text_field(found(f)),
{
    match f {
        None => Some(None),
        Some(v) => match v {
            JsonValue::Null => Some(None),
            JsonValue::Str(s) => Some(Some(s.clone())),
            _ => None,
        },
    }
}

pub fn read_int(f: Option<&JsonValue>) -> (r: Option<Option<i64>>)
    ensures
        r == int_field(found(f)),
{
    match f {
        None => Some(None),
        Some(v) => match v {
            JsonValue::Null => Some(None),
            _ => match v.as_i64() {
                Some(n) => Some(Some(n)),
                None => None,
            },
        },
    }
}

pub fn read_bool(f: Option<&JsonValue>) -> (r: Option<Option<bool>>)
    ensures
        r == bool_field(found(f)),
{
    match f {
        None => Some(None),
        Some(v) => match v {
            JsonValue::Null => Some(None),
            JsonValue::Bool(b) => Some(Some(*b)),
            _ => None,
        },
    }
}

pub fn read_required_text(f: Option<&JsonValue>) -> (r: Option<String>)
    ensures
        text_of(r) == required_text(found(f)),
{
    match f {
        Some(v) => match v {
            JsonValue::Str(s) => Some(s.clone()),
            _ => None,
        },
        None => None,
    }
}

proof fn lemma_text_entries_prefix(entries: Seq<(Seq<char>, Json)>, k: int)
    requires
        0 <= k <= entries.len(),
        text_entries(entries.take(k)) is None,
    ensures
        text_entries(entries) is None,
    decreases entries.len() - k,
{
    if k < entries.len() {
        assert(entries.take(k + 1).drop_last() =~= entries.take(k));
        lemma_text_entries_prefix(entries, k + 1);
    } else {
        assert(entries.take(k) =~= entries);
    }
}

/// The view of a map of strings that was read.
pub open spec fn text_map_view(r: Option<TextMap<String>>) -> Option<Map<Seq<char>, Seq<char>>> {
    match r {
        Some(m) => Some(texts_map(m@)),
        None => None,
    }
}

pub fn read_text_map(f: Option<&JsonValue>) -> (r: Option<TextMap<String>>)
    ensures
        text_map_view(r) == text_map_field(found(f)),
{
    let mut out: TextMap<String> = TextMap::new();
    proof {
        assert(texts_map(out@) =~= Map::empty());
    }
    match f {
        None => Some(out),
        Some(v) => match v {
            JsonValue::Object(entries) => {
                let ghost model = entries_model(entries@);
                let mut i: usize = 0;
                while i < entries.len()
                    invariant
                        found(f) == Some(Json::Object(model)),
                        model == entries_model(entries@),
                        i <= entries.len(),
                        text_entries(model.take(i as int)) == Some(texts_map(out@)),
                    decreases entries.len() - i,
                {
                    let ghost next = model.take(i + 1);
                    proof {
                        assert(next.drop_last() =~= model.take(i as int));
                        assert(next.last() == model[i as int]);
                    }
                    match &entries[i].1 {
                        JsonValue::Str(s) => {
                            let ghost before = out@;
                            let t = s.clone();
                            proof {
                                assert(texts_map(before.insert(entries@[i as int].0@, t))
                                    =~= texts_map(before).insert(entries@[i as int].0@, t@));
                            }
                            out.insert(entries[i].0.as_str(), t);
                        },
                        _ => {
                            proof {
                                lemma_text_entries_prefix(model, i + 1);
                            }
                            return None;
                        },
                    }
                    i = i + 1;
                }
                assert(model.take(i as int) =~= model);
                Some(out)
            },
            _ => None,
        },
    }
}

} // verus!

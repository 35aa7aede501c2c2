//! A JSON document model the library reasons about.
//!
//! Values cross into the library from the database as `JsonValue`s; objects are
//! association lists whose keys are distinct, read as maps from keys to values.

use vstd::prelude::*;
use crate::text::str_eq;

verus! {

/// A JSON number as the database hands it over.
#[derive(Clone, Copy, PartialEq, Eq, Debug)]
pub enum JsonNumber {
    /// A non-negative integer.
    PosInt(u64),
    /// A negative integer.
    NegInt(i64),
    /// A floating-point number, held as the bits of its IEEE-754 double.
    FloatBits(u64),
}

/// A JSON value.
#[derive(Debug)]
pub enum JsonValue {
    Null,
    Bool(bool),
    Number(JsonNumber),
    Str(String),
    Array(Vec<JsonValue>),
    Object(Vec<(String, JsonValue)>),
}

/// An object field list as a sequence of (key, value) pairs.
pub type Fields = Vec<(String, JsonValue)>;

/// Whether `k` is a key of `fields`.
pub open spec fn has_key(fields: Seq<(String, JsonValue)>, k: Seq<char>) -> bool {
    exists|i: int| 0 <= i < fields.len() && fields[i].0@ == k
}

/// Whether the keys of `fields` are pairwise distinct.
pub open spec fn distinct_keys(fields: Seq<(String, JsonValue)>) -> bool {
    forall|i: int, j: int|
        0 <= i < fields.len() && 0 <= j < fields.len() && i != j ==> fields[i].0@ != fields[j].0@
}

/// The position of the first field with key `k` (meaningful when `has_key(fields, k)`).
pub open spec fn key_index(fields: Seq<(String, JsonValue)>, k: Seq<char>) -> int {
    choose|i: int|
        0 <= i < fields.len() && fields[i].0@ == k && forall|j: int|
            0 <= j < i ==> fields[j].0@ != k
}

/// The object `fields` read as a map from keys to values.
pub open spec fn obj_map(fields: Seq<(String, JsonValue)>) -> Map<Seq<char>, JsonValue> {
    Map::new(|k: Seq<char>| has_key(fields, k), |k: Seq<char>| fields[key_index(fields, k)].1)
}

/// What `value.get(key)` gives: the value under `key` when `value` is an object holding it.
pub open spec fn spec_get(v: JsonValue, k: Seq<char>) -> Option<JsonValue> {
    match v {
        JsonValue::Object(fields) => if has_key(fields@, k) {
            Some(fields@[key_index(fields@, k)].1)
        } else {
            None
        },
        _ => None,
    }
}

/// Whether a value is an object whose keys are distinct.
pub open spec fn is_wf_object(v: JsonValue) -> bool {
    match v {
        JsonValue::Object(fields) => distinct_keys(fields@),
        _ => true,
    }
}

/// The position of the first field of `fields` with key `k`.
pub fn find_key(fields: &Fields, k: &str) -> (r: Option<usize>)
    ensures
        match r {
            Some(i) => {
                &&& i < fields@.len()
                &&& has_key(fields@, k@)
                &&& key_index(fields@, k@) == i
            },
            None => !has_key(fields@, k@),
        },
{
    let mut i: usize = 0;
    while i < fields.len()
        invariant
            i <= fields@.len(),
            forall|j: int| 0 <= j < i ==> fields@[j].0@ != k@,
        decreases fields.len() - i,
    {
        if str_eq(fields[i].0.as_str(), k) {
            proof {
                let w = key_index(fields@, k@);
                assert(0 <= i < fields@.len() && fields@[i as int].0@ == k@ && forall|j: int|
                    0 <= j < i ==> fields@[j].0@ != k@);
                if w < i {
                } else if w > i {
                }
            }
            return Some(i);
        }
        i = i + 1;
    }
    None
}

impl JsonValue {
    /// The value under `key` when this is an object that holds it (`Value::get`).
    pub fn get(&self, key: &str) -> (r: Option<&JsonValue>)
        ensures
            r matches Some(v) ==> spec_get(*self, key@) == Some(*v),
            r is None ==> spec_get(*self, key@) is None,
    {
        match self {
            JsonValue::Object(fields) => match find_key(fields, key) {
                Some(i) => Some(&fields[i].1),
                None => None,
            },
            _ => None,
        }
    }

    /// The text of a string value (`Value::as_str`).
    pub fn as_str(&self) -> (r: Option<&str>)
        ensures
            r matches Some(s) ==> (*self matches JsonValue::Str(t) && s@ == t@),
            r is None ==> !(*self is Str),
    {
        match self {
            JsonValue::Str(s) => Some(s.as_str()),
            _ => None,
        }
    }

    /// The truth value of a boolean (`Value::as_bool`).
    pub fn as_bool(&self) -> (r: Option<bool>)
        ensures
            r == (match *self {
                JsonValue::Bool(b) => Some(b),
                _ => None,
            }),
    {
        match self {
            JsonValue::Bool(b) => Some(*b),
            _ => None,
        }
    }

    /// The value of a non-negative integer (`Value::as_u64`).
    pub fn as_u64(&self) -> (r: Option<u64>)
        ensures
            r == (match *self {
                JsonValue::Number(JsonNumber::PosInt(n)) => Some(n),
                _ => None,
            }),
    {
        match self {
            JsonValue::Number(JsonNumber::PosInt(n)) => Some(*n),
            _ => None,
        }
    }

    /// The elements of an array (`Value::as_array`).
    pub fn as_array(&self) -> (r: Option<&Vec<JsonValue>>)
        ensures
            r matches Some(a) ==> *self == JsonValue::Array(*a),
            r is None ==> !(*self is Array),
    {
        match self {
            JsonValue::Array(a) => Some(a),
            _ => None,
        }
    }

    /// Whether this is an array.
    pub fn is_array(&self) -> (r: bool)
        ensures
            r == (*self is Array),
    {
        match self {
            JsonValue::Array(_) => true,
            _ => false,
        }
    }

    /// An object with the single field `key: value`.
    pub fn single_field(key: &str, value: JsonValue) -> (r: JsonValue)
        ensures
            r matches JsonValue::Object(fields) && distinct_keys(fields@) && obj_map(fields@)
                == Map::<Seq<char>, JsonValue>::empty().insert(key@, value),
    {
        let mut fields: Fields = Vec::new();
        fields.push((String::from_str(key), value));
        proof {
            let f = fields@;
            assert(f[0].0@ == key@);
            assert(has_key(f, key@));
            assert(key_index(f, key@) == 0) by {
                let w = key_index(f, key@);
                assert(0 <= w < f.len());
            }
            assert(obj_map(f) =~= Map::<Seq<char>, JsonValue>::empty().insert(key@, value));
        }
        JsonValue::Object(fields)
    }
}

/// Takes the value of the first field of `fields` with key `key` out of the list.
pub fn take_field(fields: &mut Fields, key: &str) -> (r: Option<JsonValue>)
    ensures
        r matches Some(v) ==> has_key(old(fields)@, key@) && old(fields)@[key_index(
            old(fields)@,
            key@,
        )].1 == v,
        r is None ==> !has_key(old(fields)@, key@),
{
    match find_key(fields, key) {
        Some(i) => {
            let (_, v) = fields.remove(i);
            Some(v)
        },
        None => None,
    }
}

/// Sets `key` to `value` in `fields`, replacing an earlier value (`Map::insert`).
pub fn insert_field(fields: &mut Fields, key: String, value: JsonValue)
    requires
        distinct_keys(old(fields)@),
    ensures
        distinct_keys(final(fields)@),
        obj_map(final(fields)@) == obj_map(old(fields)@).insert(key@, value),
{
    let ghost k = key@;
    match find_key(fields, key.as_str()) {
        Some(i) => {
            let ghost before = fields@;
            fields.set(i, (key, value));
            proof {
                let after = fields@;
                assert forall|j: int| 0 <= j < after.len() implies after[j].0@ == before[j].0@ by {}
                assert forall|q: Seq<char>| has_key(after, q) == has_key(before, q) by {
                    if has_key(before, q) {
                        let w = choose|w: int| 0 <= w < before.len() && before[w].0@ == q;
                        assert(after[w].0@ == q);
                    }
                    if has_key(after, q) {
                        let w = choose|w: int| 0 <= w < after.len() && after[w].0@ == q;
                        assert(before[w].0@ == q);
                    }
                }
                assert forall|q: Seq<char>| has_key(after, q) implies key_index(after, q) == key_index(before, q) by {
                    let a = key_index(after, q);
                    let b = key_index(before, q);
                    assert(after[b].0@ == q);
                    assert(before[a].0@ == q);
                    if a < b {
                    } else if b < a {
                    }
                }
                assert(obj_map(after) =~= obj_map(before).insert(k, value));
            }
        },
        None => {
            let ghost before = fields@;
            fields.push((key, value));
            proof {
                let after = fields@;
                let n = before.len() as int;
                assert forall|q: Seq<char>| has_key(after, q) == (has_key(before, q) || q == k) by {
                    if has_key(after, q) {
                        let w = choose|w: int| 0 <= w < after.len() && after[w].0@ == q;
                        if w < n {
                            assert(before[w].0@ == q);
                        }
                    }
                    if has_key(before, q) {
                        let w = choose|w: int| 0 <= w < before.len() && before[w].0@ == q;
                        assert(after[w].0@ == q);
                    }
                    if q == k {
                        assert(after[n].0@ == q);
                    }
                }
                assert forall|q: Seq<char>| has_key(before, q) implies key_index(after, q) == key_index(before, q) by {
                    let a = key_index(after, q);
                    let b = key_index(before, q);
                    assert(after[b].0@ == q);
                    if a < b {
                        assert(before[a].0@ == q);
                    } else if b < a {
                    }
                }
                assert(key_index(after, k) == n) by {
                    let a = key_index(after, k);
                    assert(after[n].0@ == k);
                    if a < n {
                        assert(before[a].0@ == k);
                    }
                }
                assert(obj_map(after) =~= obj_map(before).insert(k, value));
            }
        },
    }
}

/// The texts of the string items of `items`, in order (other items are skipped).
pub open spec fn string_items(items: Seq<JsonValue>) -> Seq<Seq<char>>
    decreases items.len(),
{
    if items.len() == 0 {
        seq![]
    } else {
        let rest = string_items(items.drop_last());
        match items.last() {
            JsonValue::Str(t) => rest.push(t@),
            _ => rest,
        }
    }
}

/// The array under `key` in `v`, or nothing when `v` holds no array there.
pub open spec fn array_field(v: JsonValue, key: Seq<char>) -> Seq<JsonValue> {
    match spec_get(v, key) {
        Some(JsonValue::Array(a)) => a@,
        _ => seq![],
    }
}

/// The texts of the strings in the array under `key` in `v`.
pub open spec fn string_list(v: JsonValue, key: Seq<char>) -> Seq<Seq<char>> {
    string_items(array_field(v, key))
}

/// The non-negative integer under `key` in `v`, if there is one.
pub open spec fn u64_field(v: JsonValue, key: Seq<char>) -> Option<u64> {
    match spec_get(v, key) {
        Some(JsonValue::Number(JsonNumber::PosInt(n))) => Some(n),
        _ => None,
    }
}

/// The texts of the string items of `items` (`filter_map(Value::as_str)`).
pub fn strings_in(items: &Vec<JsonValue>) -> (r: Vec<String>)
    ensures
        r@.map_values(|t: String| t@) == string_items(items@),
{
    let mut out: Vec<String> = Vec::new();
    let mut i: usize = 0;
    while i < items.len()
        invariant
            i <= items@.len(),
            out@.map_values(|t: String| t@) == string_items(items@.take(i as int)),
        decreases items.len() - i,
    {
        assert(items@.take(i + 1).drop_last() =~= items@.take(i as int));
        match items[i].as_str() {
            Some(t) => {
                let ghost before = out@;
                out.push(String::from_str(t));
                assert(out@.map_values(|t: String| t@) =~= before.map_values(|t: String| t@).push(t@));
            },
            None => {},
        }
        i = i + 1;
    }
    assert(items@.take(items@.len() as int) =~= items@);
    out
}

/// The texts of the strings in the array under `key` in `v`.
pub fn string_list_of(v: &JsonValue, key: &str) -> (r: Vec<String>)
    ensures
        r@.map_values(|t: String| t@) == string_list(*v, key@),
{
    match v.get(key) {
        Some(JsonValue::Array(a)) => strings_in(a),
        _ => {
            assert(string_items(seq![]) =~= seq![]);
            assert(Seq::<String>::empty().map_values(|t: String| t@) =~= seq![]);
            Vec::new()
        },
    }
}

/// The non-negative integer under `key` in `v`, if there is one.
pub fn u64_field_of(v: &JsonValue, key: &str) -> (r: Option<u64>)
    ensures
        r == u64_field(*v, key@),
{
    match v.get(key) {
        Some(x) => x.as_u64(),
        None => None,
    }
}

/// Moves the array under `key` out of `v`; nothing when `v` holds no array there.
pub fn take_array(v: JsonValue, key: &str) -> (r: Vec<JsonValue>)
    ensures
        r@ == array_field(v, key@),
{
    match v {
        JsonValue::Object(mut fields) => match take_field(&mut fields, key) {
            Some(JsonValue::Array(a)) => a,
            _ => Vec::new(),
        },
        _ => Vec::new(),
    }
}

} // verus!

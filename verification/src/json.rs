//! A model of JSON documents as the filters read them, and the parser that
//! produces it.

use serde_json::Value;
use vstd::prelude::*;

verus! {

/// A JSON number, as far as the filters read numbers: integers are kept, the
/// value of a fractional or exponent number is not.
#[derive(Debug, Clone, Copy, PartialEq, Eq)]
pub enum JsonNumber {
    /// An integer in the range of `i64`.
    Int(i64),
    /// An integer above `i64::MAX`.
    UInt(u64),
    /// A number written with a fraction or an exponent.
    Float,
}

/// A JSON document.
#[derive(Debug)]
pub enum JsonValue {
    Null,
    Bool(bool),
    Number(JsonNumber),
    Str(String),
    Array(Vec<JsonValue>),
    Object(Vec<JsonEntry>),
}

/// One member of a JSON object.
#[derive(Debug)]
pub struct JsonEntry {
    pub key: String,
    pub value: JsonValue,
}

/// The value stored under `key` among `entries`, the first one if several.
pub open spec fn entry_lookup(entries: Seq<JsonEntry>, key: Seq<char>) -> Option<JsonValue>
    decreases entries.len(),
{
    if entries.len() == 0 {
        None
    } else if entries[0].key@ == key {
        Some(entries[0].value)
    } else {
        entry_lookup(entries.drop_first(), key)
    }
}

/// The member `key` of an object; `None` for a missing member or a value that
/// is not an object.
pub open spec fn member(v: JsonValue, key: Seq<char>) -> Option<JsonValue> {
    match v {
        JsonValue::Object(entries) => entry_lookup(entries@, key),
        _ => None,
    }
}

/// `v[key]` as serde_json reads it: the member, or `null` when there is none.
pub open spec fn field(v: JsonValue, key: Seq<char>) -> JsonValue {
    match member(v, key) {
        Some(m) => m,
        None => JsonValue::Null,
    }
}

/// The text of a JSON string.
pub open spec fn str_of(v: JsonValue) -> Option<Seq<char>> {
    match v {
        JsonValue::Str(s) => Some(s@),
        _ => None,
    }
}

/// The elements of a JSON array.
pub open spec fn array_of(v: JsonValue) -> Option<Seq<JsonValue>> {
    match v {
        JsonValue::Array(items) => Some(items@),
        _ => None,
    }
}

/// A JSON number as an `i64`, where it is an integer in range.
pub open spec fn i64_of(v: JsonValue) -> Option<i64> {
    match v {
        JsonValue::Number(JsonNumber::Int(i)) => Some(i),
        _ => None,
    }
}

/// The text of the string member `key`, or `default`.
pub open spec fn str_or(v: JsonValue, key: Seq<char>, default: Seq<char>) -> Seq<char> {
    match str_of(field(v, key)) {
        Some(s) => s,
        None => default,
    }
}

/// The integer member `key`, or 0.
pub open spec fn i64_or_zero(v: JsonValue, key: Seq<char>) -> i64 {
    match i64_of(field(v, key)) {
        Some(i) => i,
        None => 0,
    }
}

impl JsonValue {
    /// The member `key` of an object.
    pub fn get(&self, key: &str) -> (res: Option<&JsonValue>)
        ensures
            match res {
                Some(m) => member(*self, key@) == Some(*m),
                None => member(*self, key@) is None,
            },
    {
        match self {
            JsonValue::Object(entries) => {
                assert(member(*self, key@) == entry_lookup(entries@, key@));
                let wanted = key.to_owned();
                let mut i: usize = 0;
                assert(entries@.skip(0) =~= entries@);
                while i < entries.len()
                    invariant
                        i <= entries@.len(),
                        wanted@ == key@,
                        member(*self, key@) == entry_lookup(entries@.skip(i as int), key@),
                    decreases entries@.len() - i,
                {
                    assert(entries@.skip(i as int).drop_first() =~= entries@.skip(i + 1));
                    assert(entries@.skip(i as int)[0] == entries@[i as int]);
                    if entries[i].key == wanted {
                        return Some(&entries[i].value);
                    }
                    i = i + 1;
                }
                None
            },
            _ => None,
        }
    }

    /// The text of a JSON string.
    pub fn as_str(&self) -> (res: Option<&str>)
        ensures
            match res {
                Some(s) => str_of(*self) == Some(s@),
                None => str_of(*self) is None,
            },
    {
        match self {
            JsonValue::Str(s) => Some(s.as_str()),
            _ => None,
        }
    }

    /// The elements of a JSON array.
    pub fn as_array(&self) -> (res: Option<&Vec<JsonValue>>)
        ensures
            match res {
                Some(items) => array_of(*self) == Some(items@),
                None => array_of(*self) is None,
            },
    {
        match self {
            JsonValue::Array(items) => Some(items),
            _ => None,
        }
    }

    /// A JSON number as an `i64`, where it is an integer in range.
    pub fn as_i64(&self) -> (res: Option<i64>)
        ensures
            res == i64_of(*self),
    {
        match self {
            JsonValue::Number(JsonNumber::Int(i)) => Some(*i),
            _ => None,
        }
    }

    /// The text of the string member `key`.
    pub fn str_field(&self, key: &str) -> (res: Option<&str>)
        ensures
            match res {
                Some(s) => str_of(field(*self, key@)) == Some(s@),
                None => str_of(field(*self, key@)) is None,
            },
    {
        match self.get(key) {
            Some(v) => v.as_str(),
            None => None,
        }
    }

    /// The elements of the array member `key`.
    pub fn array_field(&self, key: &str) -> (res: Option<&Vec<JsonValue>>)
        ensures
            match res {
                Some(items) => array_of(field(*self, key@)) == Some(items@),
                None => array_of(field(*self, key@)) is None,
            },
    {
        match self.get(key) {
            Some(v) => v.as_array(),
            None => None,
        }
    }

    /// The integer member `key`, or 0 where it is missing or not an `i64`.
    pub fn i64_field_or_zero(&self, key: &str) -> (res: i64)
        ensures
            res == i64_or_zero(*self, key@),
    {
        match self.get(key) {
            Some(v) => match v.as_i64() {
                Some(i) => i,
                None => 0,
            },
            None => 0,
        }
    }
}

#[verifier::external_type_specification]
#[verifier::external_body]
pub struct ExSerdeJsonValue(serde_json::Value);

/// The document that `serde_json::from_str` parses from `text`, in this
/// library's model, or `None` where it reports an error.
pub uninterp spec fn json_parse(text: Seq<char>) -> Option<JsonValue>;

/// Rebuilds a `serde_json::Value` as a `JsonValue`, variant for variant; of a
/// number it keeps what `serde_json::Number::as_i64` and `as_u64` give.
#[verifier::external_body]
fn from_serde(v: Value) -> JsonValue {
    match v {
        Value::Null => JsonValue::Null,
        Value::Bool(b) => JsonValue::Bool(b),
        Value::Number(n) => JsonValue::Number(match (n.as_i64(), n.as_u64()) {
            (Some(i), _) => JsonNumber::Int(i),
            (None, Some(u)) => JsonNumber::UInt(u),
            (None, None) => JsonNumber::Float,
        }),
        Value::String(s) => JsonValue::Str(s),
        Value::Array(a) => JsonValue::Array(a.into_iter().map(from_serde).collect()),
        Value::Object(m) => JsonValue::Object(
            m.into_iter().map(|(key, value)| JsonEntry { key, value: from_serde(value) }).collect(),
        ),
    }
}

/// `serde_json::from_str::<serde_json::Value>`: parses a JSON document.
/// Trusted: the result is `json_parse(text@)`, a function of the text alone;
/// nothing else about it is stated.
#[verifier::external_body]
pub(crate) fn parse_json(text: &str) -> (res: Option<JsonValue>)
    ensures
        res == json_parse(text@),
{
    serde_json::from_str::<Value>(text).ok().map(from_serde)
}

} // verus!

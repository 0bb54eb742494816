//! JSON values as plain data, read the way serde_json's `Value` accessors read them.

use crate::text::same_text;
use vstd::prelude::*;

verus! {

#[verifier::external_type_specification]
#[verifier::external_body]
pub struct ExSerdeJsonValue(serde_json::Value);

#[verifier::external_type_specification]
#[verifier::external_body]
pub struct ExSerdeJsonError(serde_json::Error);

/// A JSON number, classified as serde_json classifies it.
#[derive(Debug, Clone, Copy)]
pub enum JsonNumber {
    /// A non-negative integer.
    PosInt(u64),
    /// A negative integer.
    NegInt(i64),
    /// A number with a fraction or an exponent, or an integer too large for 64 bits.
    Float,
}

/// A JSON value. An object holds its members in the order serde_json's map yields them,
/// each key once.
#[derive(Debug)]
pub enum JsonValue {
    Null,
    Bool(bool),
    Number(JsonNumber),
    String(String),
    Array(Vec<JsonValue>),
    Object(Vec<(String, JsonValue)>),
}

/// The value of the first member with this key.
pub open spec fn member_lookup(members: Seq<(String, JsonValue)>, key: Seq<char>) -> Option<
    JsonValue,
>
    decreases members.len(),
{
    if members.len() == 0 {
        None
    } else if members[0].0@ == key {
        Some(members[0].1)
    } else {
        member_lookup(members.drop_first(), key)
    }
}

impl JsonValue {
    /// What `serde_json::Value::get` with a string key gives: the member of an object.
    pub open spec fn spec_get(self, key: Seq<char>) -> Option<JsonValue> {
        match self {
            JsonValue::Object(members) => member_lookup(members@, key),
            _ => None,
        }
    }

    /// What `serde_json::Value::as_u64` gives.
    pub open spec fn spec_as_u64(self) -> Option<u64> {
        match self {
            JsonValue::Number(JsonNumber::PosInt(n)) => Some(n),
            _ => None,
        }
    }

    /// What `serde_json::Value::as_i64` gives.
    pub open spec fn spec_as_i64(self) -> Option<i64> {
        match self {
            JsonValue::Number(JsonNumber::PosInt(n)) => if n <= i64::MAX {
                Some(n as i64)
            } else {
                None
            },
            JsonValue::Number(JsonNumber::NegInt(n)) => Some(n),
            _ => None,
        }
    }

    /// What `serde_json::Value::as_str` gives, as characters.
    pub open spec fn spec_as_str(self) -> Option<Seq<char>> {
        match self {
            JsonValue::String(s) => Some(s@),
            _ => None,
        }
    }

    /// The member with this key, when `self` is an object that has one.
    pub fn get(&self, key: &str) -> (member: Option<&JsonValue>)
        ensures
            match member {
                Some(v) => self.spec_get(key@) == Some(*v),
                None => self.spec_get(key@) is None,
            },
    {
        match self {
            JsonValue::Object(members) => {
                let n = members.len();
                let mut i: usize = 0;
                assert(members@.subrange(0, n as int) =~= members@);
                while i < n
                    invariant
                        n == members@.len(),
                        i <= n,
                        self.spec_get(key@) == member_lookup(members@, key@),
                        member_lookup(members@, key@) == member_lookup(
                            members@.subrange(i as int, n as int),
                            key@,
                        ),
                    decreases n - i,
                {
                    let ghost rest = members@.subrange(i as int, n as int);
                    assert(rest.drop_first() =~= members@.subrange(i + 1, n as int));
                    assert(rest[0] == members@[i as int]);
                    if same_text(members[i].0.as_str(), key) {
                        return Some(&members[i].1);
                    }
                    i = i + 1;
                }
                None
            },
            _ => None,
        }
    }

    /// The number, when it is a non-negative integer.
    pub fn as_u64(&self) -> (n: Option<u64>)
        ensures
            n == self.spec_as_u64(),
    {
        match self {
            JsonValue::Number(JsonNumber::PosInt(n)) => Some(*n),
            _ => None,
        }
    }

    /// The number, when it is an integer that fits in an `i64`.
    pub fn as_i64(&self) -> (n: Option<i64>)
        ensures
            n == self.spec_as_i64(),
    {
        match self {
            JsonValue::Number(JsonNumber::PosInt(n)) => if *n <= i64::MAX as u64 {
                Some(*n as i64)
            } else {
                None
            },
            JsonValue::Number(JsonNumber::NegInt(n)) => Some(*n),
            _ => None,
        }
    }

    /// The text, when the value is a string.
    pub fn as_str(&self) -> (s: Option<&str>)
        ensures
            match s {
                Some(t) => self.spec_as_str() == Some(t@),
                None => self.spec_as_str() is None,
            },
    {
        match self {
            JsonValue::String(s) => Some(s.as_str()),
            _ => None,
        }
    }
}

/// The value serde_json reads from a JSON text, in the library's form; none when the text
/// is not JSON.
pub uninterp spec fn json_of_text(text: Seq<char>) -> Option<JsonValue>;

/// The value serde_json reads from JSON bytes, in the library's form; none when the bytes
/// are not JSON.
pub uninterp spec fn json_of_bytes(bytes: Seq<u8>) -> Option<JsonValue>;

/// Converts a serde_json value into the library's, variant for variant: numbers by
/// serde_json's own `as_u64` and `as_i64`, object members in its map's order. It is the
/// result conversion of `parse_json` and `parse_json_bytes`, kept apart because it recurses.
#[verifier::external_body]
fn from_serde(value: &serde_json::Value) -> JsonValue {
    match value {
        serde_json::Value::Null => JsonValue::Null,
        serde_json::Value::Bool(b) => JsonValue::Bool(*b),
        serde_json::Value::Number(n) => JsonValue::Number(match (n.as_u64(), n.as_i64()) {
            (Some(u), _) => JsonNumber::PosInt(u),
            (None, Some(i)) => JsonNumber::NegInt(i),
            (None, None) => JsonNumber::Float,
        }),
        serde_json::Value::String(s) => JsonValue::String(s.clone()),
        serde_json::Value::Array(items) => JsonValue::Array(items.iter().map(from_serde).collect()),
        serde_json::Value::Object(map) => JsonValue::Object(map.iter().map(|(k, v)| (k.clone(), from_serde(v))).collect()),
    }
}

/// Reads a JSON text with `serde_json::from_str` into serde_json's `Value`. What it reads
/// is named `json_of_text`; a text it refuses gives serde_json's error.
#[verifier::external_body]
pub(crate) fn parse_json(text: &str) -> (value: Result<JsonValue, serde_json::Error>)
    ensures
        match value {
            Ok(v) => json_of_text(text@) == Some(v),
            Err(_) => json_of_text(text@) is None,
        },
{
    serde_json::from_str::<serde_json::Value>(text).map(|v| from_serde(&v))
}

/// Reads JSON bytes with `serde_json::from_slice` into serde_json's `Value`. What it reads
/// is named `json_of_bytes`; bytes it refuses give serde_json's error.
#[verifier::external_body]
pub(crate) fn parse_json_bytes(bytes: &[u8]) -> (value: Result<JsonValue, serde_json::Error>)
    ensures
        match value {
            Ok(v) => json_of_bytes(bytes@) == Some(v),
            Err(_) => json_of_bytes(bytes@) is None,
        },
{
    serde_json::from_slice::<serde_json::Value>(bytes).map(|v| from_serde(&v))
}

} // verus!

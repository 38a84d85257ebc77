//! A plain JSON value tree and the trusted parse step that produces it.
//!
//! The package manager's metadata arrives as a JSON document. Parsing the
//! bytes is delegated to `serde_json`; everything the crate reads out of the
//! parsed tree is verified code over [`JsonValue`].

use vstd::prelude::*;

verus! {

/// A parsed JSON document as plain values. Numeric payloads are dropped at
/// the parse boundary ([`Num`](JsonValue::Num) keeps only the fact that a
/// number stood there): no caller in this crate reads a number.
pub enum JsonValue {
    Null,
    Bool(bool),
    Num,
    Str(String),
    Arr(Vec<JsonValue>),
    Obj(Vec<(String, JsonValue)>),
}

/// What `serde_json::from_slice` yields on these bytes, mapped into
/// [`JsonValue`]: `None` where the bytes are not a valid JSON document.
pub uninterp spec fn json_parse(bytes: Seq<u8>) -> Option<JsonValue>;

/// Relies on `serde_json::Value`: carries the parsed document between the
/// two trusted functions below.
#[verifier::external_type_specification]
#[verifier::external_body]
pub struct ExSerdeValue(serde_json::Value);

/// Relies on `serde_json::Value`: maps each variant of the parsed document
/// into the crate's own value tree, one arm per variant, moving the payloads;
/// numeric payloads are dropped (no caller reads them).
#[verifier::external_body]
fn value_to_json(v: serde_json::Value) -> JsonValue {
    match v {
        serde_json::Value::Null => JsonValue::Null,
        serde_json::Value::Bool(b) => JsonValue::Bool(b),
        serde_json::Value::Number(_) => JsonValue::Num,
        serde_json::Value::String(s) => JsonValue::Str(s),
        serde_json::Value::Array(a) => JsonValue::Arr(a.into_iter().map(value_to_json).collect()),
        serde_json::Value::Object(m) => JsonValue::Obj(
            m.into_iter().map(|(k, x)| (k, value_to_json(x))).collect(),
        ),
    }
}

/// Relies on `serde_json::from_slice`: decodes one JSON document from the
/// bytes, or fails; the result depends on the bytes alone.
#[verifier::external_body]
pub(crate) fn parse_json_bytes(bytes: &[u8]) -> (r: Option<JsonValue>)
    ensures
        r == json_parse(bytes@),
{
    serde_json::from_slice::<serde_json::Value>(bytes).ok().map(value_to_json)
}

/// The value under the first pair of `pairs` whose key views as `key`.
pub open spec fn obj_get(pairs: Seq<(String, JsonValue)>, key: Seq<char>) -> Option<JsonValue>
    decreases pairs.len(),
{
    if pairs.len() == 0 {
        None
    } else if pairs[0].0@ == key {
        Some(pairs[0].1)
    } else {
        obj_get(pairs.drop_first(), key)
    }
}

/// The member of an object under a key, as [`obj_get`]; `None` on any other
/// kind of value.
pub open spec fn spec_get(v: JsonValue, key: Seq<char>) -> Option<JsonValue> {
    match v {
        JsonValue::Obj(pairs) => obj_get(pairs@, key),
        _ => None,
    }
}

impl JsonValue {
    /// Look up a member of a JSON object; `None` on a non-object or a
    /// missing key.
    pub fn get<'a>(&'a self, key: &String) -> (r: Option<&'a JsonValue>)
        ensures
            match r {
                Some(inner) => spec_get(*self, key@) == Some(*inner),
                None => spec_get(*self, key@) is None,
            },
    {
        match self {
            JsonValue::Obj(pairs) => {
                let mut i: usize = 0;
                proof {
                    assert(spec_get(*self, key@) == obj_get(pairs@, key@));
                    assert(pairs@.skip(0) =~= pairs@);
                }
                while i < pairs.len()
                    invariant
                        i <= pairs@.len(),
                        spec_get(*self, key@) == obj_get(pairs@, key@),
                        obj_get(pairs@, key@) == obj_get(pairs@.skip(i as int), key@),
                    decreases pairs@.len() - i,
                {
                    proof {
                        assert(pairs@.skip(i as int)[0] == pairs@[i as int]);
                        assert(pairs@.skip(i as int).drop_first() =~= pairs@.skip(i + 1));
                    }
                    if pairs[i].0 == *key {
                        proof {
                            assert(obj_get(pairs@.skip(i as int), key@) == Some(
                                pairs@[i as int].1,
                            ));
                        }
                        return Some(&pairs[i].1);
                    }
                    i += 1;
                }
                None
            },
            _ => None,
        }
    }

    /// The payload of a string value.
    pub fn as_str<'a>(&'a self) -> (r: Option<&'a String>)
        ensures
            match r {
                Some(s) => *self is Str && *self == JsonValue::Str(*s),
                None => !(*self is Str),
            },
    {
        match self {
            JsonValue::Str(s) => Some(s),
            _ => None,
        }
    }

    /// The elements of an array value.
    pub fn as_arr<'a>(&'a self) -> (r: Option<&'a Vec<JsonValue>>)
        ensures
            match r {
                Some(a) => *self is Arr && *self == JsonValue::Arr(*a),
                None => !(*self is Arr),
            },
    {
        match self {
            JsonValue::Arr(a) => Some(a),
            _ => None,
        }
    }
}

} // verus!

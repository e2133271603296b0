//! JSON values as plain data, read by serde_json.

use vstd::prelude::*;

use vstd::string::StringSliceAdditionalSpecFns;
use vstd::utf8::valid_utf8;

verus! {

#[verifier::external_type_specification]
#[verifier::external_body]
pub struct ExJsonValue(serde_json::Value);

/// A JSON value held as plain data. A number keeps the text serde_json prints for its `as_f64`
/// value (the shortest decimal that reads back as that float, so an integer beyond 2^53 is
/// rounded as `as_f64` rounds it) and, where it read a non-negative integer, that integer.
#[derive(Debug, PartialEq)]
pub enum Json {
    Null,
    Bool(bool),
    Number { text: String, uint: Option<u64> },
    Str(String),
    Array(Vec<Json>),
    /// The members in the order serde_json keeps them (sorted by key); each key occurs once.
    Object(Vec<(String, Json)>),
}

/// What `serde_json` makes of a JSON document given as UTF-8 bytes: the value, or the text of
/// its error.
pub uninterp spec fn json_of_bytes(bytes: Seq<u8>) -> Result<Json, String>;

/// The value stored under `key` among `members`: the first member with that key.
pub open spec fn member_lookup(members: Seq<(String, Json)>, key: Seq<char>) -> Option<Json>
    decreases members.len(),
{
    if members.len() == 0 {
        None
    } else if members[0].0@ == key {
        Some(members[0].1)
    } else {
        member_lookup(members.drop_first(), key)
    }
}

/// What `serde_json::Value::get` answers for a key: the member of an object, and nothing for
/// anything else.
pub open spec fn json_get(v: Json, key: Seq<char>) -> Option<Json> {
    match v {
        Json::Object(members) => member_lookup(members@, key),
        _ => None,
    }
}

/// Converts serde_json's value into the plain one, variant for variant: a number becomes the text
/// that `Display` prints for `Number::from_f64` of its `as_f64` (both always succeed for the
/// numbers serde_json reads: `as_f64` is `Some` and finite for every one) and its `as_u64`, an
/// object its members in `Map` order. It makes no promise of its own; what the readers below
/// return through it is the name [`json_of_bytes`].
#[verifier::external_body]
fn json_from_value(v: serde_json::Value) -> Json {
    match v {
        serde_json::Value::Null => Json::Null,
        serde_json::Value::Bool(b) => Json::Bool(b),
        serde_json::Value::Number(n) => {
            let f = n.as_f64().and_then(serde_json::Number::from_f64).unwrap_or(n.clone());
            Json::Number { uint: n.as_u64(), text: f.to_string() }
        },
        serde_json::Value::String(s) => Json::Str(s),
        serde_json::Value::Array(a) => Json::Array(a.into_iter().map(json_from_value).collect()),
        serde_json::Value::Object(o) => Json::Object(
            o.into_iter().map(|(k, v)| (k, json_from_value(v))).collect(),
        ),
    }
}

/// `serde_json::from_str`, into a plain value. `from_str` reads through `StrRead`, which hands
/// every byte to the same `SliceRead` that `from_slice` uses (it only skips re-checking UTF-8
/// that a `&str` already guarantees), so the result is the one for the text's UTF-8 bytes. Not
/// stated: which value or which error a given text yields; that is the name [`json_of_bytes`].
#[verifier::external_body]
pub(crate) fn read_json_text(text: &str) -> (r: Result<Json, String>)
    ensures
        r == json_of_bytes(text.spec_bytes()),
{
    match serde_json::from_str::<serde_json::Value>(text) {
        Ok(v) => Ok(json_from_value(v)),
        Err(e) => Err(e.to_string()),
    }
}

/// `serde_json::from_slice`, into a plain value. Bytes that are not UTF-8 are an error: outside
/// strings only ASCII bytes belong to the grammar, and `SliceRead` checks the bytes of every
/// string with `str::from_utf8`. Not stated: which value or which error given bytes yield; that
/// is the name [`json_of_bytes`].
#[verifier::external_body]
pub(crate) fn read_json_bytes(bytes: &[u8]) -> (r: Result<Json, String>)
    ensures
        r == json_of_bytes(bytes@),
        !valid_utf8(bytes@) ==> r is Err,
{
    match serde_json::from_slice::<serde_json::Value>(bytes) {
        Ok(v) => Ok(json_from_value(v)),
        Err(e) => Err(e.to_string()),
    }
}

impl Json {
    /// The member stored under `key`, when this is an object that has one.
    pub fn get(&self, key: &str) -> (r: Option<&Json>)
        ensures
            match r {
                Some(c) => json_get(*self, key@) == Some(*c),
                None => json_get(*self, key@) is None,
            },
    {
        match self {
            Json::Object(members) => {
                assert(json_get(*self, key@) == member_lookup(members@, key@));
                let k = String::from_str(key);
                let mut i: usize = 0;
                assert(members@.skip(0) =~= members@);
                while i < members.len()
                    invariant
                        i <= members@.len(),
                        k@ == key@,
                        json_get(*self, key@) == member_lookup(members@, key@),
                        member_lookup(members@, key@) == member_lookup(members@.skip(i as int), key@),
                    decreases members.len() - i,
                {
                    let ghost rest = members@.skip(i as int);
                    assert(rest[0] == members@[i as int]);
                    if members[i].0 == k {
                        assert(rest.len() > 0 && rest[0].0@ == key@);
                        assert(member_lookup(rest, key@) == Some(rest[0].1));
                        let found = &members[i].1;
                        assert(*found == members@[i as int].1);
                        return Some(found);
                    }
                    assert(rest.drop_first() =~= members@.skip(i + 1));
                    i = i + 1;
                }
                None
            },
            _ => None,
        }
    }
}

} // verus!

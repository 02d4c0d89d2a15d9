//! JSON documents, as `serde_json` reads them.

use serde_json::Value;
use vstd::prelude::*;

verus! {

/// `serde_json::Value`, a JSON document.
#[verifier::external_type_specification]
#[verifier::external_body]
pub struct ExValue(serde_json::Value);

/// `serde_json::Error`, the reason why bytes are not a JSON document.
#[verifier::external_type_specification]
#[verifier::external_body]
pub struct ExJsonError(serde_json::Error);

/// What a JSON document says. The value of a number that is no integer is left out.
pub enum Json {
    Null,
    Bool(bool),
    Integer(int),
    Fraction,
    Text(Seq<char>),
    Array(Seq<Json>),
    Object(Map<Seq<char>, Json>),
}

/// What a `serde_json::Value` holds.
pub uninterp spec fn json_of(value: Value) -> Json;

/// The document that `serde_json::from_slice` reads from bytes, if they are one.
pub uninterp spec fn json_document(bytes: Seq<u8>) -> Option<Json>;

/// The member of an object.
pub open spec fn member(json: Json, key: Seq<char>) -> Option<Json> {
    match json {
        Json::Object(members) => if members.contains_key(key) {
            Some(members[key])
        } else {
            None
        },
        _ => None,
    }
}

/// `serde_json::from_slice::<Value>`: whether the bytes are a document, and which, is a
/// function of the bytes. The grammar is not restated.
#[verifier::external_body]
pub(crate) fn parse_json(bytes: &[u8]) -> (document: Result<Value, serde_json::Error>)
    ensures
        match document {
            Ok(value) => json_document(bytes@) == Some(json_of(value)),
            Err(_) => json_document(bytes@) is None,
        },
{
    serde_json::from_slice::<Value>(bytes)
}

/// `serde_json::Value::get` with a text: the member of an object under that key. There is
/// none where the value is not an object, or the object has no such member.
#[verifier::external_body]
pub(crate) fn json_get<'a>(value: &'a Value, key: &str) -> (found: Option<&'a Value>)
    ensures
        match found {
            Some(found) => member(json_of(*value), key@) == Some(json_of(*found)),
            None => member(json_of(*value), key@) is None,
        },
{
    value.get(key)
}

/// `serde_json::Value::as_str`: the text of a value that is a text, and nothing for any
/// other value.
#[verifier::external_body]
pub(crate) fn json_as_str(value: &Value) -> (text: Option<&str>)
    ensures
        match text {
            Some(text) => json_of(*value) == Json::Text(text@),
            None => !(json_of(*value) is Text),
        },
{
    value.as_str()
}

/// `serde_json::Value::from` with a `u32`: the number.
#[verifier::external_body]
pub(crate) fn json_from_u32(number: u32) -> (value: Value)
    ensures
        json_of(value) == Json::Integer(number as int),
{
    Value::from(number)
}

/// The member of an object is the value under its key; an object has no other members, and
/// what is no object has none.
pub proof fn law_member(members: Map<Seq<char>, Json>, key: Seq<char>, json: Json)
    ensures
        members.contains_key(key) ==> member(Json::Object(members), key) == Some(members[key]),
        !members.contains_key(key) ==> member(Json::Object(members), key) is None,
        !(json is Object) ==> member(json, key) is None,
{
}

} // verus!

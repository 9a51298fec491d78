//! JSON documents, as the `serde_json` crate holds them.

use serde_json::Value;
use vstd::prelude::*;

verus! {

/// What a JSON document holds.
///
/// An object is the set of its members: the order in which they were added is not part of it.
pub ghost enum Json {
    Null,
    Bool(bool),
    /// A number without fraction or exponent.
    Integer(int),
    /// Any other number, by the digits it is printed with.
    Float(Seq<char>),
    Text(Seq<char>),
    Array(Seq<Json>),
    Object(Map<Seq<char>, Json>),
}

#[verifier::external_type_specification]
#[verifier::external_body]
pub struct ExValue(serde_json::Value);

#[verifier::external_type_specification]
#[verifier::external_body]
pub struct ExJsonError(serde_json::Error);

#[verifier::external_type_specification]
#[verifier::external_body]
#[verifier::reject_recursive_types(K)]
#[verifier::reject_recursive_types(V)]
pub struct ExMap<K, V>(serde_json::Map<K, V>);

/// The document that a `serde_json::Value` holds.
pub uninterp spec fn json_of(value: Value) -> Json;

/// The members that a `serde_json::Map` holds.
pub uninterp spec fn members_of(map: serde_json::Map<String, Value>) -> Map<Seq<char>, Json>;

/// The compact text of a document.
pub uninterp spec fn json_text(json: Json) -> Seq<char>;

/// The document that a byte string spells out, if it is JSON.
pub uninterp spec fn parsed_json(bytes: Seq<u8>) -> Option<Json>;

/// `serde_json::Map::new` makes a map without members.
#[verifier::external_body]
pub(crate) fn new_members() -> (members: serde_json::Map<String, Value>)
    ensures
        members_of(members) == (Map::<Seq<char>, Json>::empty()),
{
    serde_json::Map::new()
}

/// `serde_json::Map::insert` adds the member, in place of one with the same key.
#[verifier::external_body]
pub(crate) fn insert_member(members: &mut serde_json::Map<String, Value>, key: &str, value: Value)
    ensures
        members_of(*final(members)) == members_of(*old(members)).insert(key@, json_of(value)),
{
    members.insert(key.to_string(), value);
}

/// `serde_json::Value::Object` holds the object with the members of the map.
#[verifier::external_body]
pub(crate) fn object_value(members: serde_json::Map<String, Value>) -> (value: Value)
    ensures
        json_of(value) == Json::Object(members_of(members)),
{
    Value::Object(members)
}

/// `serde_json::Value::String` holds the text.
#[verifier::external_body]
pub(crate) fn text_value(text: &str) -> (value: Value)
    ensures
        json_of(value) == Json::Text(text@),
{
    Value::String(text.to_string())
}

/// `serde_json::Value::Bool` holds the truth value.
#[verifier::external_body]
pub(crate) fn bool_value(flag: bool) -> (value: Value)
    ensures
        json_of(value) == Json::Bool(flag),
{
    Value::Bool(flag)
}

/// `serde_json::Value::from`, of a `u32`, holds that integer.
#[verifier::external_body]
pub(crate) fn integer_value(number: u32) -> (value: Value)
    ensures
        json_of(value) == Json::Integer(number as int),
{
    Value::from(number)
}

/// `serde_json::Value::Null` holds the null document.
#[verifier::external_body]
pub(crate) fn null_value() -> (value: Value)
    ensures
        json_of(value) == Json::Null,
{
    Value::Null
}

/// `serde_json::Value::is_null` tells the null document from the others.
#[verifier::external_body]
pub(crate) fn is_null(value: &Value) -> (null: bool)
    ensures
        null == (json_of(*value) is Null),
{
    value.is_null()
}

/// `serde_json::Value`'s `Display` prints the document without white space between its tokens;
/// the text depends on the document alone, and the null document is printed as `null`.
#[verifier::external_body]
pub(crate) fn value_text(value: &Value) -> (text: String)
    ensures
        text@ == json_text(json_of(*value)),
        json_of(*value) is Null ==> text@ == "null"@,
{
    value.to_string()
}

/// `serde_json::from_slice`, into a `serde_json::Value`: whether the bytes are JSON, and the
/// document they spell out, depend on the bytes alone.
#[verifier::external_body]
pub(crate) fn value_from_slice(bytes: &[u8]) -> (value: Result<Value, serde_json::Error>)
    ensures
        value is Ok <==> parsed_json(bytes@) is Some,
        value matches Ok(v) ==> parsed_json(bytes@) == Some(json_of(v)),
{
    serde_json::from_slice(bytes)
}

/// `serde_json::Value::get`, of a key: the member of an object with that key.
#[verifier::external_body]
pub(crate) fn member<'a>(value: &'a Value, key: &str) -> (found: Option<&'a Value>)
    ensures
        found is Some <==> (json_of(*value) matches Json::Object(m) && m.contains_key(key@)),
        found matches Some(v) ==> (json_of(*value) matches Json::Object(m)
            && json_of(*v) == m[key@]),
{
    value.get(key)
}

/// `serde_json::Value::as_str`: the text of a document that is a text.
#[verifier::external_body]
pub(crate) fn as_text(value: &Value) -> (text: Option<&str>)
    ensures
        text is Some <==> json_of(*value) is Text,
        text matches Some(t) ==> json_of(*value) == Json::Text(t@),
{
    value.as_str()
}

/// The document that was read, or null if none was.
pub fn value_or_null(parsed: Result<Value, serde_json::Error>) -> (value: Value)
    ensures
        match parsed {
            Ok(v) => value == v,
            Err(_) => json_of(value) is Null,
        },
{
    match parsed {
        Ok(v) => v,
        Err(_) => null_value(),
    }
}

} // verus!

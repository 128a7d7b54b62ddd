//! The JSON values that messages carry, as serde_json represents them.
//! Verus sees a `Value` as an opaque thing: what the library needs of one is
//! stated by the items below, each of which makes one serde_json call.
use serde_json::Value;
use vstd::prelude::*;

use crate::text::opt_view;

verus! {

/// serde_json's JSON value, carried through the library without looking inside.
#[verifier::external_type_specification]
#[verifier::external_body]
pub struct ExValue(Value);

/// The members of a JSON object, as serde_json holds them.
pub type JsonMap = serde_json::Map<String, Value>;

/// serde_json's map from member names to values, the members of a JSON object.
#[verifier::external_type_specification]
#[verifier::external_body]
#[verifier::reject_recursive_types(K)]
#[verifier::reject_recursive_types(V)]
pub struct ExJsonMap<K, V>(serde_json::Map<K, V>);

/// What `serde_json::from_str::<Vec<Value>>` gives for a text: the elements
/// when the text is a JSON array, nothing otherwise.
pub uninterp spec fn parsed_json_array(text: Seq<char>) -> Option<Seq<Value>>;

/// What `Value::as_str` gives: the text of a JSON string, nothing for any
/// other value.
pub uninterp spec fn json_str(v: Value) -> Option<Seq<char>>;

/// What `Value::from::<Option<String>>` gives: the JSON string of the text,
/// or `null`.
pub uninterp spec fn json_of_opt_string(s: Option<Seq<char>>) -> Value;

/// What `Value::from::<Vec<Value>>` gives: the JSON array of the elements.
pub uninterp spec fn json_of_array(items: Seq<Value>) -> Value;

/// The members that a serde_json map holds, by name.
pub uninterp spec fn json_members(m: JsonMap) -> Map<Seq<char>, Value>;

/// The members of an empty object.
pub open spec fn no_members() -> Map<Seq<char>, Value> {
    Map::empty()
}

/// What `Value::Object` gives for a map with these members: the JSON object.
pub uninterp spec fn json_of_object(members: Map<Seq<char>, Value>) -> Value;

/// What `Value::to_string` gives: the JSON text of the value.
pub uninterp spec fn json_text(v: Value) -> Seq<char>;

/// Reads `text` as a JSON array with `serde_json::from_str::<Vec<Value>>`;
/// the contract names the outcome and claims nothing more of it.
#[verifier::external_body]
pub(crate) fn parse_json_array(text: &str) -> (res: Option<Vec<Value>>)
    ensures
        match res {
            Some(items) => parsed_json_array(text@) == Some(items@),
            None => parsed_json_array(text@) is None,
        },
{
    serde_json::from_str::<Vec<Value>>(text).ok()
}

/// `Value::as_str`, owned: the contract names the outcome, which serde_json
/// documents as the text of a string value and nothing for any other value.
#[verifier::external_body]
pub(crate) fn json_as_str(v: &Value) -> (res: Option<String>)
    ensures
        opt_view(res) == json_str(*v),
{
    match v.as_str() {
        Some(s) => Some(s.to_owned()),
        None => None,
    }
}

/// `Value::from(Option<String>)`: `null` for nothing, the JSON string
/// otherwise. The contract also claims that `as_str` gives the text back,
/// as serde_json's source shows (`Value::String` for a text, `Value::Null`
/// for nothing).
#[verifier::external_body]
pub(crate) fn json_from_opt_string(s: Option<String>) -> (res: Value)
    ensures
        res == json_of_opt_string(opt_view(s)),
        json_str(res) == opt_view(s),
{
    Value::from(s)
}

/// `Value::from(Vec<Value>)`, the JSON array of the elements; the contract
/// also claims that `as_str` gives nothing for it (it is `Value::Array`).
#[verifier::external_body]
pub(crate) fn json_from_array(items: Vec<Value>) -> (res: Value)
    ensures
        res == json_of_array(items@),
        json_str(res) is None,
{
    Value::from(items)
}

/// `Value::Object`, the JSON object with the map's members; the contract
/// also claims that `as_str` gives nothing for it.
#[verifier::external_body]
pub(crate) fn json_object(m: JsonMap) -> (res: Value)
    ensures
        res == json_of_object(json_members(m)),
        json_str(res) is None,
{
    Value::Object(m)
}

/// `serde_json::Map::new`, a map with no members.
#[verifier::external_body]
pub(crate) fn json_map_new() -> (res: JsonMap)
    ensures
        json_members(res) == no_members(),
{
    serde_json::Map::new()
}

/// `serde_json::Map::insert`: afterwards the key holds the value and every
/// other member is unchanged. The replaced value, if any, is dropped.
#[verifier::external_body]
pub(crate) fn json_map_insert(m: &mut JsonMap, key: String, value: Value)
    ensures
        json_members(*final(m)) == json_members(*old(m)).insert(key@, value),
{
    m.insert(key, value);
}

/// `Value::clone`: serde_json derives it, so the copy equals the value it was made from.
pub assume_specification[ <Value as Clone>::clone ](v: &Value) -> (res: Value)
    ensures
        res == *v,
;

/// `Map::clone`: it clones the underlying tree, so the copy has the same members.
pub assume_specification[ <serde_json::Map<String, Value> as Clone>::clone ](m: &serde_json::Map<String, Value>) -> (res: serde_json::Map<String, Value>)
    ensures
        json_members(res) == json_members(*m),
;

/// `Value::to_string`: the JSON text of the value; the contract names it.
#[verifier::external_body]
pub(crate) fn json_to_text(v: &Value) -> (res: String)
    ensures
        res@ == json_text(*v),
{
    v.to_string()
}

} // verus!

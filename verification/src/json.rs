//! JSON documents, as `serde_json` reads and holds them.
//!
//! A document is carried as a `serde_json::Value`. What it holds is spoken of
//! through [`Json`], a tree of plain values, and read through the few calls
//! into `serde_json` that this file declares. Nothing in this file is proved:
//! each item states what the outside code does.

use vstd::prelude::*;

verus! {

/// What a JSON document holds.
///
/// A number is kept as the decimal text in which `serde_json` writes it, an
/// object as a map from its keys to its members.
pub enum Json {
    Null,
    Bool(bool),
    Number(Seq<char>),
    Text(Seq<char>),
    Array(Seq<Json>),
    Object(Map<Seq<char>, Json>),
}

/// The member of an object under `key`, where `tree` is an object that has one.
pub open spec fn spec_member(tree: Json, key: Seq<char>) -> Option<Json> {
    match tree {
        Json::Object(members) => if members.contains_key(key) {
            Some(members[key])
        } else {
            None
        },
        _ => None,
    }
}

/// The element of an array at `index`, where `tree` is an array that long.
pub open spec fn spec_element(tree: Json, index: int) -> Option<Json> {
    match tree {
        Json::Array(items) => if 0 <= index < items.len() {
            Some(items[index])
        } else {
            None
        },
        _ => None,
    }
}

/// The member under `key` of a tree that may be absent.
pub open spec fn then_member(tree: Option<Json>, key: Seq<char>) -> Option<Json> {
    match tree {
        Some(inner) => spec_member(inner, key),
        None => None,
    }
}

/// The element at `index` of a tree that may be absent.
pub open spec fn then_element(tree: Option<Json>, index: int) -> Option<Json> {
    match tree {
        Some(inner) => spec_element(inner, index),
        None => None,
    }
}

/// The text of a number, where the tree is one.
pub open spec fn then_number(tree: Option<Json>) -> Option<Seq<char>> {
    match tree {
        Some(Json::Number(text)) => Some(text),
        _ => None,
    }
}

/// `serde_json::Value`, a JSON document: carried through, and read only by
/// the calls declared below.
#[verifier::external_type_specification]
#[verifier::external_body]
pub struct ExValue(serde_json::Value);

/// `serde_json::Error`, what `serde_json` reports where a text is not JSON.
#[verifier::external_type_specification]
#[verifier::external_body]
pub struct ExJsonError(serde_json::Error);

/// The tree that a `serde_json::Value` holds.
pub uninterp spec fn document(value: serde_json::Value) -> Json;

/// The tree that `serde_json::from_str` reads from `text`, or `None` where it
/// reports an error.
pub uninterp spec fn parsed(text: Seq<char>) -> Option<Json>;

/// `serde_json::from_str`, reading a `Value`: the outcome depends on the text
/// alone, and a value that comes back holds the tree read from it.
#[verifier::external_body]
pub(crate) fn read_document(text: &str) -> (outcome: Result<serde_json::Value, serde_json::Error>)
    ensures
        outcome matches Ok(value) ==> parsed(text@) == Some(document(value)),
        outcome is Err ==> parsed(text@) is None,
{
    serde_json::from_str(text)
}

/// `Value::get` with a string: the member under `key` where the value is an
/// object that has that key, else `None`.
#[verifier::external_body]
pub(crate) fn member<'a>(value: &'a serde_json::Value, key: &str) -> (found: Option<&'a serde_json::Value>)
    ensures
        found matches Some(inner) ==> spec_member(document(*value), key@) == Some(document(*inner)),
        found is None ==> spec_member(document(*value), key@) is None,
{
    value.get(key)
}

/// `Value::get` with a position: the element at `index` where the value is an
/// array that long, else `None`.
#[verifier::external_body]
pub(crate) fn element<'a>(value: &'a serde_json::Value, index: usize) -> (found: Option<&'a serde_json::Value>)
    ensures
        found matches Some(inner) ==> spec_element(document(*value), index as int) == Some(
            document(*inner),
        ),
        found is None ==> spec_element(document(*value), index as int) is None,
{
    value.get(index)
}

/// `Number`'s `Display` through `to_string`: the text of a number, `None` for
/// any other value.
#[verifier::external_body]
pub(crate) fn number_text(value: &serde_json::Value) -> (text: Option<String>)
    ensures
        text matches Some(t) ==> document(*value) == Json::Number(t@),
        text is None ==> !(document(*value) is Number),
{
    match value.as_number() {
        Some(number) => Some(number.to_string()),
        None => None,
    }
}

/// `Value::as_str`: the text of a string, `None` for any other value.
pub assume_specification<'a>[ serde_json::Value::as_str ](value: &'a serde_json::Value) -> (text:
    Option<&'a str>)
    ensures
        text matches Some(t) ==> document(*value) == Json::Text(t@),
        text is None ==> !(document(*value) is Text),
;

/// `Value::as_bool`: the truth value of a boolean, `None` for any other value.
pub assume_specification[ serde_json::Value::as_bool ](value: &serde_json::Value) -> (flag: Option<
    bool,
>)
    ensures
        flag matches Some(b) ==> document(*value) == Json::Bool(b),
        flag is None ==> !(document(*value) is Bool),
;

/// `Value::as_array`: the elements of an array in order, `None` for any other
/// value.
pub assume_specification<'a>[ serde_json::Value::as_array ](value: &'a serde_json::Value) -> (items:
    Option<&'a Vec<serde_json::Value>>)
    ensures
        items matches Some(list) ==> document(*value) == Json::Array(
            list@.map_values(|item: serde_json::Value| document(item)),
        ),
        items is None ==> !(document(*value) is Array),
;

} // verus!

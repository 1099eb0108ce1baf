//! JSON documents as `serde_json` parses them, and the two places in a
//! completion response where the reply's text stands.

use vstd::prelude::*;

verus! {

/// `serde_json::Value`: a JSON document in memory.
#[verifier::external_type_specification]
#[verifier::external_body]
pub struct ExValue(serde_json::Value);

/// A JSON document as a mathematical value. Numbers are not told apart.
pub enum Json {
    Null,
    Bool(bool),
    Number,
    Text(Seq<char>),
    Array(Seq<Json>),
    Object(Map<Seq<char>, Json>),
}

/// The document that a `serde_json::Value` holds.
pub uninterp spec fn json_of(value: serde_json::Value) -> Json;

/// The document that `serde_json` reads from a text, if it accepts the text.
pub uninterp spec fn json_parse(text: Seq<char>) -> Option<Json>;

/// `serde_json::from_str` at type `Value`: whether the text is accepted, and
/// the document read from it, depend on the text alone.
#[verifier::external_body]
pub(crate) fn parse_value(text: &str) -> (r: Option<serde_json::Value>)
    ensures
        r is Some <==> json_parse(text@) is Some,
        r matches Some(v) ==> json_parse(text@) == Some(json_of(v)),
{
    serde_json::from_str::<serde_json::Value>(text).ok()
}

/// `Value::get` with a string key: the member of that name where the value
/// is an object that has one, nothing otherwise.
#[verifier::external_body]
pub(crate) fn value_member<'a>(value: &'a serde_json::Value, key: &str) -> (r: Option<
    &'a serde_json::Value,
>)
    ensures
        member_of(json_of(*value), key@) is Some <==> r is Some,
        r matches Some(m) ==> member_of(json_of(*value), key@) == Some(json_of(*m)),
{
    value.get(key)
}

/// `Value::as_array`: the elements, in order, where the value is an array,
/// nothing otherwise.
#[verifier::external_body]
pub(crate) fn value_items(value: &serde_json::Value) -> (r: Option<&Vec<serde_json::Value>>)
    ensures
        json_of(*value) is Array <==> r is Some,
        r matches Some(items) ==> json_of(*value) == Json::Array(
            items@.map_values(|v: serde_json::Value| json_of(v)),
        ),
{
    value.as_array()
}

/// `Value::as_str`: the text where the value is a string, nothing otherwise.
#[verifier::external_body]
pub(crate) fn value_text(value: &serde_json::Value) -> (r: Option<&str>)
    ensures
        json_of(*value) is Text <==> r is Some,
        r matches Some(t) ==> json_of(*value) == Json::Text(t@),
{
    value.as_str()
}

/// The member `key` of an object, if `doc` is an object that has it.
pub open spec fn member_of(doc: Json, key: Seq<char>) -> Option<Json> {
    match doc {
        Json::Object(members) => if members.contains_key(key) {
            Some(members[key])
        } else {
            None
        },
        _ => None,
    }
}

/// The first element of an array, if `doc` is an array that has one.
pub open spec fn first_of(doc: Json) -> Option<Json> {
    match doc {
        Json::Array(items) => if items.len() > 0 {
            Some(items[0])
        } else {
            None
        },
        _ => None,
    }
}

/// The text of a string, if `doc` is one.
pub open spec fn text_of(doc: Json) -> Option<Seq<char>> {
    match doc {
        Json::Text(t) => Some(t),
        _ => None,
    }
}

/// The first element of the array under `choices`, if there is one.
pub open spec fn first_choice_of(doc: Json) -> Option<Json> {
    match member_of(doc, "choices"@) {
        Some(choices) => first_of(choices),
        None => None,
    }
}

/// The text at `choices[0].delta.content`, where `delta` is an object and
/// `content` a string.
pub open spec fn delta_content_of(doc: Json) -> Option<Seq<char>> {
    match first_choice_of(doc) {
        Some(choice) => match member_of(choice, "delta"@) {
            Some(delta) => match member_of(delta, "content"@) {
                Some(content) => text_of(content),
                None => None,
            },
            None => None,
        },
        None => None,
    }
}

/// Reads a JSON document from `text`.
pub fn parse_document(text: &str) -> (r: Option<serde_json::Value>)
    ensures
        r is Some <==> json_parse(text@) is Some,
        r matches Some(v) ==> json_parse(text@) == Some(json_of(v)),
{
    parse_value(text)
}

fn first_choice(doc: &serde_json::Value) -> (r: Option<&serde_json::Value>)
    ensures
        first_choice_of(json_of(*doc)) is Some <==> r is Some,
        r matches Some(c) ==> first_choice_of(json_of(*doc)) == Some(json_of(*c)),
{
    match value_member(doc, "choices") {
        Some(choices) => match value_items(choices) {
            Some(items) => if items.len() > 0 {
                Some(&items[0])
            } else {
                None
            },
            None => None,
        },
        None => None,
    }
}

/// The increment of text that one streamed record carries, at
/// `choices[0].delta.content`.
pub fn delta_content(doc: &serde_json::Value) -> (r: Option<&str>)
    ensures
        delta_content_of(json_of(*doc)) is Some <==> r is Some,
        r matches Some(t) ==> delta_content_of(json_of(*doc)) == Some(t@),
{
    match first_choice(doc) {
        Some(choice) => match value_member(choice, "delta") {
            Some(delta) => match value_member(delta, "content") {
                Some(content) => value_text(content),
                None => None,
            },
            None => None,
        },
        None => None,
    }
}

} // verus!

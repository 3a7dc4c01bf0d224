//! The calls into `serde_json` that read a provider's answer. Nothing in this
//! file is proved: each function states what the call inside it returns.

use vstd::prelude::*;

verus! {

/// `serde_json::Value`, a JSON document or a part of one. The library
/// carries it from one call to the next and never looks inside.
#[verifier::external_type_specification]
#[verifier::external_body]
pub struct ExValue(serde_json::Value);

/// `serde_json::Error`, the parser's account of a text that is no JSON
/// document.
#[verifier::external_type_specification]
#[verifier::external_body]
pub struct ExJsonError(serde_json::Error);

/// The JSON document that `text` spells, where it spells one.
pub uninterp spec fn json_document(text: Seq<char>) -> Option<serde_json::Value>;

/// The member of the JSON object `value` under `key`, where `value` is an
/// object and has one.
pub uninterp spec fn json_member(value: serde_json::Value, key: Seq<char>) -> Option<
    serde_json::Value,
>;

/// The text of `value`, where it is a JSON string.
pub uninterp spec fn json_text(value: serde_json::Value) -> Option<Seq<char>>;

/// The items of `value`, where it is a JSON array.
pub uninterp spec fn json_items(value: serde_json::Value) -> Option<Seq<serde_json::Value>>;

/// The bit pattern of the double that `value` is read as, where it is a
/// JSON number.
pub uninterp spec fn json_double(value: serde_json::Value) -> Option<u64>;

/// `serde_json::from_str`, for a `Value`: the document that the text spells,
/// or the parser's error where it spells none.
#[verifier::external_body]
pub(crate) fn parse_document(text: &str) -> (r: Result<serde_json::Value, serde_json::Error>)
    ensures
        r is Ok <==> json_document(text@) is Some,
        r matches Ok(value) ==> json_document(text@) == Some(value),
{
    serde_json::from_str(text)
}

/// `Value::get` with a text key: the member of an object under that key.
#[verifier::external_body]
pub(crate) fn member_of<'a>(value: &'a serde_json::Value, key: &str) -> (r: Option<
    &'a serde_json::Value,
>)
    ensures
        r is Some <==> json_member(*value, key@) is Some,
        r matches Some(member) ==> json_member(*value, key@) == Some(*member),
{
    value.get(key)
}

/// `Value::as_str`: the text of a JSON string.
#[verifier::external_body]
pub(crate) fn text_of<'a>(value: &'a serde_json::Value) -> (r: Option<&'a str>)
    ensures
        r is Some <==> json_text(*value) is Some,
        r matches Some(text) ==> json_text(*value) == Some(text@),
{
    value.as_str()
}

/// `Value::as_array`: the items of a JSON array.
#[verifier::external_body]
pub(crate) fn items_of<'a>(value: &'a serde_json::Value) -> (r: Option<
    &'a Vec<serde_json::Value>,
>)
    ensures
        r is Some <==> json_items(*value) is Some,
        r matches Some(items) ==> json_items(*value) == Some(items@),
{
    value.as_array()
}

/// `Value::as_f64`: a JSON number as a double, handed back as its bit
/// pattern.
#[verifier::external_body]
pub(crate) fn double_of(value: &serde_json::Value) -> (r: Option<u64>)
    ensures
        r == json_double(*value),
{
    match value.as_f64() {
        Some(double) => Some(double.to_bits()),
        None => None,
    }
}

} // verus!

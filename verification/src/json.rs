//! JSON documents, as `serde_json` reads them.

use vstd::prelude::*;

verus! {

/// A JSON value of `serde_json`.
#[verifier::external_type_specification]
#[verifier::external_body]
pub struct ExValue(serde_json::Value);

/// The value that a text holds, as `serde_json::from_str` reads it; `None` where it is not JSON.
pub uninterp spec fn json_of(text: Seq<char>) -> Option<serde_json::Value>;

/// The value that bytes hold, as `serde_json::from_slice` reads them; `None` where they are not
/// JSON.
pub uninterp spec fn json_of_bytes(bytes: Seq<u8>) -> Option<serde_json::Value>;

/// The member of an object under a key, as `Value::get` finds it; `None` where there is none and
/// where the value is no object.
pub uninterp spec fn member_of(value: serde_json::Value, key: Seq<char>) -> Option<
    serde_json::Value,
>;

/// The characters of a JSON string, as `Value::as_str` gives them; `None` for any other value.
pub uninterp spec fn text_of(value: serde_json::Value) -> Option<Seq<char>>;

/// The number that `Value::as_u64` gives; `None` for what is no number that a `u64` holds.
pub uninterp spec fn count_of(value: serde_json::Value) -> Option<u64>;

/// The bits of the double-precision number that `Value::as_f64` gives; `None` for what is no
/// number.
pub uninterp spec fn double_bits_of(value: serde_json::Value) -> Option<u64>;

/// The items of a JSON array, as `Value::as_array` gives them; `None` for any other value.
pub uninterp spec fn items_of(value: serde_json::Value) -> Option<Seq<serde_json::Value>>;

/// Calls `serde_json::from_str`. The value depends on the text alone.
#[verifier::external_body]
pub(crate) fn parse_text(text: &str) -> (r: Option<serde_json::Value>)
    ensures
        r == json_of(text@),
{
    serde_json::from_str(text).ok()
}

/// Calls `serde_json::from_slice`. The value depends on the bytes alone.
#[verifier::external_body]
pub(crate) fn parse_bytes(bytes: &[u8]) -> (r: Option<serde_json::Value>)
    ensures
        r == json_of_bytes(bytes@),
{
    serde_json::from_slice(bytes).ok()
}

/// Calls `Value::get` with a string key.
#[verifier::external_body]
pub(crate) fn member<'a>(value: &'a serde_json::Value, key: &str) -> (r: Option<
    &'a serde_json::Value,
>)
    ensures
        r is Some <==> member_of(*value, key@) is Some,
        r matches Some(found) ==> member_of(*value, key@) == Some(*found),
{
    value.get(key)
}

/// Calls `Value::as_str`.
#[verifier::external_body]
pub(crate) fn as_text<'a>(value: &'a serde_json::Value) -> (r: Option<&'a str>)
    ensures
        r.deep_view() == text_of(*value),
{
    value.as_str()
}

/// Calls `Value::as_u64`.
#[verifier::external_body]
pub(crate) fn as_count(value: &serde_json::Value) -> (r: Option<u64>)
    ensures
        r == count_of(*value),
{
    value.as_u64()
}

/// Calls `Value::as_f64`, and hands the number out by its bits.
#[verifier::external_body]
pub(crate) fn as_double_bits(value: &serde_json::Value) -> (r: Option<u64>)
    ensures
        r == double_bits_of(*value),
{
    value.as_f64().map(|number| number.to_bits())
}

/// Calls `Value::as_array`.
#[verifier::external_body]
pub(crate) fn as_items<'a>(value: &'a serde_json::Value) -> (r: Option<&'a Vec<serde_json::Value>>)
    ensures
        r is Some <==> items_of(*value) is Some,
        r matches Some(items) ==> items_of(*value) == Some(items@),
{
    value.as_array()
}

/// The string member of an object under a key.
pub open spec fn text_member(value: serde_json::Value, key: Seq<char>) -> Option<Seq<char>> {
    match member_of(value, key) {
        Some(found) => text_of(found),
        None => None,
    }
}

/// The string that stands in an object under `key`.
pub(crate) fn text_at<'a>(value: &'a serde_json::Value, key: &str) -> (r: Option<&'a str>)
    ensures
        r.deep_view() == text_member(*value, key@),
{
    match member(value, key) {
        Some(found) => as_text(found),
        None => None,
    }
}

} // verus!

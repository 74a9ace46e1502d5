//! Reading JSON documents.

use vstd::prelude::*;

verus! {

/// `serde_json::Value`, a parsed JSON value. Nothing is known of what is in
/// one but through the functions below.
#[verifier::external_type_specification]
#[verifier::external_body]
pub struct ExValue(serde_json::Value);

/// `serde_json::Error`: why bytes are no JSON text. Carried through as it is.
#[verifier::external_type_specification]
#[verifier::external_body]
pub struct ExJsonError(serde_json::Error);

/// The value that JSON text stands for; `None` where the bytes are no JSON
/// text.
pub uninterp spec fn json_document(bytes: Seq<u8>) -> Option<serde_json::Value>;

/// The member that a JSON object holds under `key`; `None` where the value is
/// no object or has no such member.
pub uninterp spec fn json_member(value: serde_json::Value, key: Seq<char>) -> Option<
    serde_json::Value,
>;

/// For a JSON object, the values of its members in the order in which the
/// object holds them, each as the string it is, or as `None` where it is no
/// string; `None` where the value is no object.
pub uninterp spec fn json_string_values(value: serde_json::Value) -> Option<
    Seq<Option<Seq<char>>>,
>;

/// A list of optional strings as plain values.
pub open spec fn optional_names_view(values: Seq<Option<String>>) -> Seq<Option<Seq<char>>> {
    values.map_values(
        |v: Option<String>|
            match v {
                Some(s) => Some(s@),
                None => None,
            },
    )
}

/// Parses JSON text with `serde_json::from_slice`.
///
/// Trusted: whether and to what the bytes parse depends on the bytes alone;
/// the outcome is `json_document` of them.
#[verifier::external_body]
pub(crate) fn parse_json(bytes: &[u8]) -> (r: Result<serde_json::Value, serde_json::Error>)
    ensures
        match r {
            Ok(value) => json_document(bytes@) == Some(value),
            Err(_) => json_document(bytes@) is None,
        },
{
    serde_json::from_slice::<serde_json::Value>(bytes)
}

/// Looks up a member of a JSON object with `serde_json::Value::get`.
///
/// Trusted: the outcome depends on the value and the key alone; it is
/// `json_member` of them.
#[verifier::external_body]
pub(crate) fn member<'a>(value: &'a serde_json::Value, key: &str) -> (r: Option<
    &'a serde_json::Value,
>)
    ensures
        match r {
            Some(found) => json_member(*value, key@) == Some(*found),
            None => json_member(*value, key@) is None,
        },
{
    value.get(key)
}

/// Lists the values of the members of a JSON object, with
/// `serde_json::Value::as_object` and `serde_json::Map::values`, each value
/// converted by `serde_json::Value::as_str`.
///
/// Trusted: the outcome depends on the value alone; it is
/// `json_string_values` of it.
#[verifier::external_body]
pub(crate) fn string_values(value: &serde_json::Value) -> (r: Option<Vec<Option<String>>>)
    ensures
        match r {
            Some(values) => json_string_values(*value) == Some(optional_names_view(values@)),
            None => json_string_values(*value) is None,
        },
{
    let object = value.as_object();
    object.map(|o| o.values().map(|v| v.as_str().map(|s| s.to_owned())).collect())
}

} // verus!

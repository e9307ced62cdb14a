//! JSON documents as text.
//!
//! A JSON value is held as the compact text `serde_json` prints for it, which
//! is a plain value like any other string. What a value is - a list, a string,
//! a number, an object with a field - only `serde_json` can say; it is asked
//! here, one question a function, and each answer has a name that contracts
//! speak of.

use vstd::prelude::*;

verus! {

/// What `serde_json::from_str` makes of a text: the value, in its compact
/// form, or why the text is not JSON.
pub uninterp spec fn json_value(text: Seq<char>) -> Result<Seq<char>, Seq<char>>;

/// What `serde_json::Value::as_array` gives for a value: its items, each in
/// its compact form, or nothing for a value that is no list.
pub uninterp spec fn json_items(value: Seq<char>) -> Option<Seq<Seq<char>>>;

/// What indexing a `serde_json::Value` by a key gives: the field's value in its
/// compact form, `null` where there is no such field.
pub uninterp spec fn json_field(value: Seq<char>, key: Seq<char>) -> Seq<char>;

/// What `serde_json::Value::as_str` gives for a value: its characters, or
/// nothing for a value that is no string.
pub uninterp spec fn json_text(value: Seq<char>) -> Option<Seq<char>>;

/// What `serde_json::Value::as_u64` gives for a value: the number, or nothing
/// for a value that is no unsigned integer of that size.
pub uninterp spec fn json_number(value: Seq<char>) -> Option<u64>;

/// `serde_json::from_str` into a `serde_json::Value`, printed back in its
/// compact form. Nothing is claimed but that the outcome is the one named for
/// the text.
#[verifier::external_body]
pub(crate) fn value(text: &str) -> (r: Result<String, String>)
    ensures
        match r {
            Ok(value) => json_value(text@) == Ok::<Seq<char>, Seq<char>>(value@),
            Err(e) => json_value(text@) == Err::<Seq<char>, Seq<char>>(e@),
        },
{
    match serde_json::from_str::<serde_json::Value>(text) {
        Ok(value) => Ok(value.to_string()),
        Err(e) => Err(e.to_string()),
    }
}

/// `serde_json::Value::as_array` on a value, each item printed back in its
/// compact form. Nothing is claimed but that the outcome is the one named for
/// the value.
#[verifier::external_body]
pub(crate) fn items(value: &str) -> (r: Option<Vec<String>>)
    ensures
        r.deep_view() == json_items(value@),
{
    let value = serde_json::from_str::<serde_json::Value>(value).ok()?;
    Some(value.as_array()?.iter().map(|item| item.to_string()).collect())
}

/// `serde_json::Value` indexed by a key, printed back in its compact form.
/// Nothing is claimed but that the outcome is the one named for the value and
/// the key.
#[verifier::external_body]
pub(crate) fn field(value: &str, key: &str) -> (r: String)
    ensures
        r@ == json_field(value@, key@),
{
    let value = serde_json::from_str::<serde_json::Value>(value).unwrap_or_default();
    value[key].to_string()
}

/// `serde_json::Value::as_str` on a value. Nothing is claimed but that the
/// outcome is the one named for the value.
#[verifier::external_body]
pub(crate) fn text(value: &str) -> (r: Option<String>)
    ensures
        r.deep_view() == json_text(value@),
{
    let value = serde_json::from_str::<serde_json::Value>(value).ok()?;
    value.as_str().map(|text| text.to_owned())
}

/// `serde_json::Value::as_u64` on a value. Nothing is claimed but that the
/// outcome is the one named for the value.
#[verifier::external_body]
pub(crate) fn number(value: &str) -> (r: Option<u64>)
    ensures
        r.deep_view() == json_number(value@),
{
    let value = serde_json::from_str::<serde_json::Value>(value).ok()?;
    value.as_u64()
}

}

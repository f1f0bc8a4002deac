//! JSON objects with plain fields, read and written with `serde_json`.
use vstd::prelude::*;
use vstd::utf8::encode_utf8;

verus! {

/// The string in a field of the JSON object that some bytes hold; none where the bytes
/// are no JSON, no object, or where the field is missing or no string.
pub uninterp spec fn json_str_at(bytes: Seq<u8>, key: Seq<char>) -> Option<Seq<char>>;

/// The truth value in a field of the JSON object that some bytes hold.
pub uninterp spec fn json_bool_at(bytes: Seq<u8>, key: Seq<char>) -> Option<bool>;

/// The number in a field of the JSON object that some bytes hold, where it is an
/// integer that a signed 64-bit number can hold.
pub uninterp spec fn json_i64_at(bytes: Seq<u8>, key: Seq<char>) -> Option<i64>;

/// The number in a field of the JSON object that some bytes hold, where it is an
/// integer that an unsigned 64-bit number can hold.
pub uninterp spec fn json_u64_at(bytes: Seq<u8>, key: Seq<char>) -> Option<u64>;

/// `serde_json::from_slice` into a `Value`, then `get` and `as_str`: what they find
/// depends on the bytes and the key alone.
#[verifier::external_body]
pub(crate) fn json_str(bytes: &[u8], key: &str) -> (out: Option<String>)
    ensures
        (out is Some) == (json_str_at(bytes@, key@) is Some),
        out is Some ==> json_str_at(bytes@, key@) == Some(out->0@),
{
    let value: serde_json::Value = serde_json::from_slice(bytes).ok()?;
    value.get(key)?.as_str().map(String::from)
}

/// `serde_json::from_slice` into a `Value`, then `get` and `as_bool`: what they find
/// depends on the bytes and the key alone.
#[verifier::external_body]
pub(crate) fn json_bool(bytes: &[u8], key: &str) -> (out: Option<bool>)
    ensures
        out == json_bool_at(bytes@, key@),
{
    let value: serde_json::Value = serde_json::from_slice(bytes).ok()?;
    value.get(key)?.as_bool()
}

/// `serde_json::from_slice` into a `Value`, then `get` and `as_i64`: what they find
/// depends on the bytes and the key alone.
#[verifier::external_body]
pub(crate) fn json_i64(bytes: &[u8], key: &str) -> (out: Option<i64>)
    ensures
        out == json_i64_at(bytes@, key@),
{
    let value: serde_json::Value = serde_json::from_slice(bytes).ok()?;
    value.get(key)?.as_i64()
}

/// `serde_json::from_slice` into a `Value`, then `get` and `as_u64`: what they find
/// depends on the bytes and the key alone.
#[verifier::external_body]
pub(crate) fn json_u64(bytes: &[u8], key: &str) -> (out: Option<u64>)
    ensures
        out == json_u64_at(bytes@, key@),
{
    let value: serde_json::Value = serde_json::from_slice(bytes).ok()?;
    value.get(key)?.as_u64()
}

/// Whether no two fields have the same key.
pub open spec fn distinct_keys(fields: Seq<(Seq<char>, Seq<char>)>) -> bool {
    forall|i: int, j: int|
        0 <= i < j < fields.len() ==> (#[trigger] fields[i]).0 != (#[trigger] fields[j]).0
}

/// The text of the JSON object with the given string fields.
pub uninterp spec fn json_object_text(fields: Seq<(Seq<char>, Seq<char>)>) -> Seq<char>;

/// Whether a text stands in JSON as it is: without control characters, quotes and
/// backslashes.
pub open spec fn plain_text(s: Seq<char>) -> bool {
    forall|i: int| 0 <= i < s.len() ==> ' ' <= #[trigger] s[i] && s[i] != '"' && s[i] != '\\'
}

/// Whether one text comes before another, character by character.
pub open spec fn text_before(a: Seq<char>, b: Seq<char>) -> bool
    decreases a.len(),
{
    if b.len() == 0 {
        false
    } else if a.len() == 0 {
        true
    } else {
        a[0] < b[0] || (a[0] == b[0] && text_before(a.skip(1), b.skip(1)))
    }
}

/// Whether all keys and values are plain, and the keys are in ascending order.
pub open spec fn plain_fields(fields: Seq<(Seq<char>, Seq<char>)>) -> bool {
    &&& forall|i: int|
        0 <= i < fields.len() ==> plain_text((#[trigger] fields[i]).0) && plain_text(fields[i].1)
    &&& forall|i: int, j: int|
        0 <= i < j < fields.len() ==> text_before((#[trigger] fields[i]).0, (#[trigger] fields[j]).0)
}

/// The members of an object with plain fields, with commas between them and no spaces.
pub open spec fn plain_members(fields: Seq<(Seq<char>, Seq<char>)>) -> Seq<char>
    decreases fields.len(),
{
    if fields.len() == 0 {
        Seq::empty()
    } else {
        let member = seq!['"'] + fields.last().0 + seq!['"', ':', '"'] + fields.last().1 + seq!['"'];
        if fields.len() == 1 {
            member
        } else {
            plain_members(fields.drop_last()) + seq![','] + member
        }
    }
}

/// `serde_json::Value::Object` with string values, written by `to_string`: the text
/// depends on the fields alone, and its UTF-8 bytes read as an object in which each key
/// has its value. The members come in the order of their keys, without spaces, and texts
/// that are plain stand between quotes as they are. How other texts are escaped is left
/// to the name.
#[verifier::external_body]
pub(crate) fn json_object(fields: Vec<(String, String)>) -> (out: String)
    requires
        distinct_keys(fields.deep_view()),
    ensures
        out@ == json_object_text(fields.deep_view()),
        plain_fields(fields.deep_view()) ==> out@ == seq!['{'] + plain_members(fields.deep_view())
            + seq!['}'],
        forall|i: int|
            0 <= i < fields.deep_view().len() ==> json_str_at(
                encode_utf8(out@),
                (#[trigger] fields.deep_view()[i]).0,
            ) == Some(fields.deep_view()[i].1),
{
    let object: serde_json::Map<String, serde_json::Value> = fields.into_iter().map(
        |(key, value)| (key, serde_json::Value::String(value)),
    ).collect();
    serde_json::Value::Object(object).to_string()
}

} // verus!

use vstd::prelude::*;

verus! {

#[verifier::external_type_specification]
#[verifier::external_body]
pub struct ExValue(serde_json::Value);

/// The JSON document that a byte string parses to, if it parses at all.
pub uninterp spec fn parsed_document(bytes: Seq<u8>) -> Option<serde_json::Value>;

/// The member a JSON value holds under a string key: set only for an object
/// that has the key.
pub uninterp spec fn member_of(doc: serde_json::Value, key: Seq<char>) -> Option<
    serde_json::Value,
>;

/// The elements a JSON value holds: set only for an array.
pub uninterp spec fn elements_of(doc: serde_json::Value) -> Option<Seq<serde_json::Value>>;

/// A JSON value read as a signed 64-bit integer: set only for an integral
/// number in range.
pub uninterp spec fn integer_of(doc: serde_json::Value) -> Option<i64>;

/// A JSON value read as text: set only for a JSON string.
pub uninterp spec fn string_of(doc: serde_json::Value) -> Option<Seq<char>>;

/// Relies on serde_json::from_slice::<Value>: whether the bytes parse as one
/// JSON document, and as which, depends on the bytes alone.
#[verifier::external_body]
pub fn parse_document(bytes: &Vec<u8>) -> (r: Option<serde_json::Value>)
    ensures
        r == parsed_document(bytes@),
{
    let parsed: Result<serde_json::Value, serde_json::Error> = serde_json::from_slice(
        bytes.as_slice(),
    );
    parsed.ok()
}

/// Relies on serde_json::Value::get with a string key: the member under that
/// key, None for a missing key or for anything but an object.
#[verifier::external_body]
pub fn get_member<'a>(doc: &'a serde_json::Value, key: &str) -> (r: Option<&'a serde_json::Value>)
    ensures
        match r {
            Some(v) => member_of(*doc, key@) == Some(*v),
            None => member_of(*doc, key@) is None,
        },
{
    doc.get(key)
}

/// Relies on serde_json::Value::as_array: the elements when the value is an
/// array, None otherwise.
#[verifier::external_body]
pub fn get_elements<'a>(doc: &'a serde_json::Value) -> (r: Option<&'a Vec<serde_json::Value>>)
    ensures
        match r {
            Some(items) => elements_of(*doc) == Some(items@),
            None => elements_of(*doc) is None,
        },
{
    doc.as_array()
}

/// Relies on serde_json::Value::as_i64: the number when the value is an
/// integral JSON number that fits, None otherwise.
#[verifier::external_body]
pub fn get_integer(doc: &serde_json::Value) -> (r: Option<i64>)
    ensures
        r == integer_of(*doc),
{
    doc.as_i64()
}

/// Relies on serde_json::Value::as_str: the text when the value is a JSON
/// string, None otherwise.
#[verifier::external_body]
pub fn get_string(doc: &serde_json::Value) -> (r: Option<String>)
    ensures
        match r {
            Some(s) => string_of(*doc) == Some(s@),
            None => string_of(*doc) is None,
        },
{
    match doc.as_str() {
        Some(s) => Some(s.to_string()),
        None => None,
    }
}

} // verus!

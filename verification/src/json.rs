//! The JSON boundary: API responses stay untyped `serde_json::Value`s that
//! the core passes through opaquely, while the two core-critical fields
//! (`comet_server` of the channel bootstrap, and `new_offset`/`data` of a
//! comet payload) are reached through typed accessors that fail explicitly.
//!
//! Parsing and field access are performed by `serde_json` behind trusted
//! wrappers.  Each wrapper's result is deterministic in its arguments, which
//! the `json_*_of` names record.

use vstd::prelude::*;
use crate::error::{PlurkError, CODE_DECODE};

verus! {

#[verifier::external_type_specification]
#[verifier::external_body]
pub struct ExValue(serde_json::Value);

/// The JSON value a string parses to, if it is valid JSON.
pub uninterp spec fn json_of(s: Seq<char>) -> Option<serde_json::Value>;

/// The member of a JSON value under the given key, if the value is an
/// object with such a member.
pub uninterp spec fn json_field_of(v: serde_json::Value, key: Seq<char>) -> Option<
    serde_json::Value,
>;

/// The signed 64-bit integer a JSON value represents, if it is such a number.
pub uninterp spec fn json_i64_of(v: serde_json::Value) -> Option<i64>;

/// The characters of a JSON value, if it is a string.
pub uninterp spec fn json_str_of(v: serde_json::Value) -> Option<Seq<char>>;

/// Parses a string as JSON.
///
/// Relies on `serde_json::from_str::<Value>`: the parse result is a function
/// of the input text alone (`json_of`), and the call does not panic.
#[verifier::external_body]
pub fn parse_json(s: &str) -> (r: Option<serde_json::Value>)
    ensures
        r == json_of(s@),
{
    serde_json::from_str::<serde_json::Value>(s).ok()
}

/// Looks up a member of a JSON object by key.
///
/// Relies on `serde_json::Value::get`: for a string index it returns the
/// object's member under that key, `None` for a missing key or a non-object
/// (`json_field_of`), and does not panic.
#[verifier::external_body]
pub fn json_field<'a>(v: &'a serde_json::Value, key: &str) -> (r: Option<&'a serde_json::Value>)
    ensures
        r is Some <==> json_field_of(*v, key@) is Some,
        (r matches Some(f) ==> json_field_of(*v, key@) == Some(*f)),
{
    v.get(key)
}

/// Reads a JSON value as a signed 64-bit integer.
///
/// Relies on `serde_json::Value::as_i64`: returns the represented integer
/// exactly for a number stored as an integer within the signed 64-bit range,
/// and `None` otherwise — a float, even a whole-valued one like `2.0`,
/// yields `None` (`json_i64_of`).  The call does not panic.
#[verifier::external_body]
pub fn json_as_i64(v: &serde_json::Value) -> (r: Option<i64>)
    ensures
        r == json_i64_of(*v),
{
    v.as_i64()
}

/// Reads a JSON value as a string.
///
/// Relies on `serde_json::Value::as_str`: returns the characters of a JSON
/// string and `None` for any other kind of value (`json_str_of`), and does
/// not panic.
#[verifier::external_body]
pub fn json_as_str<'a>(v: &'a serde_json::Value) -> (r: Option<&'a str>)
    ensures
        r is Some <==> json_str_of(*v) is Some,
        (r matches Some(s2) ==> json_str_of(*v) == Some(s2@)),
{
    v.as_str()
}

/// Clones a JSON value.
///
/// Relies on `serde_json::Value::clone`: the clone equals the original, and
/// the call does not panic.
#[verifier::external_body]
pub fn clone_json(v: &serde_json::Value) -> (r: serde_json::Value)
    ensures
        r == *v,
{
    v.clone()
}

/// Decodes an API response body: the body must be valid JSON, and is
/// otherwise passed through untyped.
pub fn parse_api_response(body: &str) -> (r: Result<serde_json::Value, PlurkError>)
    ensures
        r is Ok <==> json_of(body@) is Some,
        (r matches Ok(v) ==> json_of(body@) == Some(v)),
        (r matches Err(e) ==> e.code == CODE_DECODE),
{
    match parse_json(body) {
        Some(v) => Ok(v),
        None => Err(PlurkError::new(CODE_DECODE, "response body is not valid JSON".to_owned())),
    }
}

/// The `comet_server` member of a channel bootstrap response, if present
/// and a string.
pub open spec fn comet_server_field(v: serde_json::Value) -> Option<Seq<char>> {
    match json_field_of(v, "comet_server"@) {
        Some(f) => json_str_of(f),
        None => None,
    }
}

/// Extracts the `comet_server` URL from a channel bootstrap response,
/// failing explicitly when the field is absent or not a string.
pub fn comet_server_of(v: &serde_json::Value) -> (r: Result<String, PlurkError>)
    ensures
        r is Ok <==> comet_server_field(*v) is Some,
        (r matches Ok(s) ==> comet_server_field(*v) == Some(s@)),
        (r matches Err(e) ==> e.code == CODE_DECODE),
{
    match json_field(v, "comet_server") {
        Some(f) => match json_as_str(f) {
            Some(s) => Ok(s.to_owned()),
            None => Err(
                PlurkError::new(CODE_DECODE, "comet_server field is not a string".to_owned()),
            ),
        },
        None => Err(
            PlurkError::new(CODE_DECODE, "response lacks a comet_server field".to_owned()),
        ),
    }
}

} // verus!

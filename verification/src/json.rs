//! The JSON codec that the log relies on.
//!
//! Parsing and printing JSON is the work of `serde_json`. Nothing in this
//! file is proved: each function below hands its arguments to `serde_json`,
//! and its contract records what that call is taken to return. A JSON value
//! and a `serde_json` error are opaque here; what the log needs of them has
//! a name, and those names are all that the contracts of the log speak of.

use crate::text::single_line;
use serde_json::{Error, Value};
use vstd::prelude::*;

verus! {

/// `serde_json::Value`, a parsed JSON value. Nothing inside it is visible.
#[verifier::external_type_specification]
#[verifier::external_body]
pub struct ExValue(Value);

/// `serde_json::Error`, what parsing or printing failed with. Nothing
/// inside it is visible.
#[verifier::external_type_specification]
#[verifier::external_body]
pub struct ExError(Error);

/// The outcomes, in order, of reading `body` as JSON values that follow one
/// another with or without white space between them.
pub uninterp spec fn json_stream(body: Seq<u8>) -> Seq<Result<Value, Error>>;

/// The outcome of reading `text` as exactly one JSON value, with nothing
/// but white space around it.
pub uninterp spec fn json_document(text: Seq<u8>) -> Result<Value, Error>;

/// The compact text of a value, as UTF-8 bytes.
pub uninterp spec fn json_compact(value: Value) -> Result<Seq<u8>, Error>;

/// The member of an object under `key`, if `value` is an object that has one.
pub uninterp spec fn json_member(value: Value, key: Seq<char>) -> Option<Value>;

/// The UTF-8 bytes of a string value, if `value` is a string.
pub uninterp spec fn json_string(value: Value) -> Option<Seq<u8>>;

/// The message that an error displays.
pub uninterp spec fn json_error_text(error: Error) -> Seq<char>;

/// Calls `serde_json::Deserializer::from_reader` on the bytes of `body` and
/// collects what `into_iter::<Value>()` yields: one item for every value
/// read, and one for the error at which reading stops. The contract claims
/// only that the items depend on the bytes of `body` alone.
#[verifier::external_body]
pub(crate) fn parse_stream(body: &[u8]) -> (items: Vec<Result<Value, Error>>)
    ensures
        items@ == json_stream(body@),
{
    serde_json::Deserializer::from_reader(std::io::Cursor::new(body)).into_iter::<Value>().collect()
}

/// Calls `serde_json::from_slice::<Value>`, which reads one value and fails
/// if anything but white space follows it. The contract claims only that the
/// outcome depends on the bytes of `text` alone.
#[verifier::external_body]
pub(crate) fn parse_document(text: &[u8]) -> (parsed: Result<Value, Error>)
    ensures
        parsed == json_document(text@),
{
    serde_json::from_slice::<Value>(text)
}

/// Calls `serde_json::to_string`, which prints a value without white space
/// between its tokens and with every control character inside a string
/// escaped. The contract claims that the outcome depends on the value
/// alone, and that the text printed holds no newline byte.
#[verifier::external_body]
pub(crate) fn to_compact(value: &Value) -> (text: Result<Vec<u8>, Error>)
    ensures
        match text {
            Ok(bytes) => json_compact(*value) == Ok::<Seq<u8>, Error>(bytes@) && single_line(
                bytes@,
            ),
            Err(e) => json_compact(*value) == Err::<Seq<u8>, Error>(e),
        },
{
    serde_json::to_string(value).map(String::into_bytes)
}

/// Calls `serde_json::Value::get` with a string key, which returns the
/// member under that key if the value is an object that has one and
/// nothing otherwise. The contract claims only that the outcome depends on
/// the value and the key alone.
#[verifier::external_body]
pub(crate) fn member<'a>(value: &'a Value, key: &str) -> (found: Option<&'a Value>)
    ensures
        match found {
            Some(m) => json_member(*value, key@) == Some(*m),
            None => json_member(*value, key@).is_none(),
        },
{
    value.get(key)
}

/// Calls `serde_json::Value::as_str`, which returns the text of the value
/// if it is a string and nothing otherwise, and hands that text on as its
/// UTF-8 bytes. The contract claims only that the outcome depends on the
/// value alone.
#[verifier::external_body]
pub(crate) fn string_bytes<'a>(value: &'a Value) -> (found: Option<&'a [u8]>)
    ensures
        match found {
            Some(b) => json_string(*value) == Some(b@),
            None => json_string(*value).is_none(),
        },
{
    value.as_str().map(str::as_bytes)
}

/// Calls `to_string` on a `serde_json::Error`, which returns the message
/// that the error displays. The contract claims only that the message
/// depends on the error alone.
#[verifier::external_body]
pub(crate) fn error_text(error: &Error) -> (text: String)
    ensures
        text@ == json_error_text(*error),
{
    error.to_string()
}

} // verus!

//! Tool call inputs as JSON values.
//!
//! Parsing and comparing JSON is the work of `serde_json`. The items of this module that Verus
//! takes on trust are [`ExValue`], [`ExError`], [`json_content`], [`parsed_json`],
//! [`parse_json`], [`empty_object`] and [`json_equal`].

use serde_json::Value;
use vstd::prelude::*;

verus! {

/// `serde_json::Value`, a JSON value. Verus sees nothing inside it; [`json_content`] speaks of
/// what it holds.
#[verifier::external_type_specification]
#[verifier::external_body]
pub struct ExValue(serde_json::Value);

/// `serde_json::Error`, the reason why a text is not JSON.
#[verifier::external_type_specification]
#[verifier::external_body]
pub struct ExError(serde_json::Error);

/// What a JSON value holds: its compact text, with the keys of each object in order and negative
/// zero written as zero. `serde_json` calls two values equal exactly where they have this text in
/// common.
pub uninterp spec fn json_content(value: serde_json::Value) -> Seq<char>;

/// What the value holds that `serde_json::from_str` reads from `text`; `None` where it reads none.
pub uninterp spec fn parsed_json(text: Seq<char>) -> Option<Seq<char>>;

/// Calls `serde_json::from_str` at the type `serde_json::Value`.
///
/// Trusted: whether a text parses, and what the value then holds, is a function of the text
/// alone; the empty text does not parse.
#[verifier::external_body]
fn parse_json(text: &str) -> (result: Result<Value, serde_json::Error>)
    ensures
        result is Ok <==> parsed_json(text@) is Some,
        result matches Ok(value) ==> parsed_json(text@) == Some(json_content(value)),
        text@.len() == 0 ==> result is Err,
{
    serde_json::from_str(text)
}

/// Builds the JSON object without members, with `serde_json::Map::new`.
///
/// Trusted: it is what the text `{}` parses to.
#[verifier::external_body]
fn empty_object() -> (value: Value)
    ensures
        parsed_json("{}"@) == Some(json_content(value)),
{
    Value::Object(serde_json::Map::new())
}

/// Compares two JSON values with the `==` of `serde_json::Value`.
///
/// Trusted: `==` holds exactly of values with the same content. In particular it is an
/// equivalence, since a JSON number is never NaN.
#[verifier::external_body]
pub(crate) fn json_equal(a: &Value, b: &Value) -> (equal: bool)
    ensures
        equal == (json_content(*a) == json_content(*b)),
{
    a == b
}

/// What the input of a tool call holds, given its argument text: the JSON value that the text
/// spells, or the empty object where it spells none, as the empty text does.
pub open spec fn input_content(arguments: Seq<char>) -> Seq<char> {
    let empty_object = parsed_json("{}"@)->0;
    if arguments.len() == 0 {
        empty_object
    } else {
        parsed_json(arguments).unwrap_or(empty_object)
    }
}

/// The input of a tool call, given its argument text.
pub(crate) fn parse_input(arguments: &str) -> (input: Value)
    ensures
        json_content(input) == input_content(arguments@),
        parsed_json(arguments@) is Some ==> json_content(input) == parsed_json(arguments@)->0,
        parsed_json(arguments@) is None ==> Some(json_content(input)) == parsed_json("{}"@),
{
    match parse_json(arguments) {
        Ok(value) => value,
        Err(_) => empty_object(),
    }
}

} // verus!

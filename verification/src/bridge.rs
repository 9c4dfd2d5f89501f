//! The trusted edge of the library: every call into an outside crate is
//! behind one item here, and each contract states only what that crate's
//! source shows. Results that take pages to state are given names
//! (`json_doc_of_text` and the like); the contracts of the verified
//! callers speak of those names exactly.

use vstd::prelude::*;

use crate::json::{Json, JsonV};
use serde_json::Value;

verus! {

#[verifier::external_type_specification]
#[verifier::external_body]
pub struct ExValue(serde_json::Value);

/// Whether serde_json accepts the text as a JSON document.
pub uninterp spec fn json_text_ok(s: Seq<char>) -> bool;

/// The document serde_json parses the text to, where it is accepted.
pub uninterp spec fn json_doc_of_text(s: Seq<char>) -> JsonV;

/// The canonical text serde_json writes for a document.
pub uninterp spec fn text_of_json(j: JsonV) -> Seq<char>;

/// Whether the glob library accepts the pattern.
pub uninterp spec fn glob_ok(pattern: Seq<char>) -> bool;

/// Whether the glob pattern matches the text, as the glob library decides.
pub uninterp spec fn glob_matches(pattern: Seq<char>, text: Seq<char>) -> bool;

/// A character of the nonce alphabet: a decimal digit or an ASCII letter.
pub open spec fn is_nonce_char(c: char) -> bool {
    (48 <= c as int && c as int <= 57) || (65 <= c as int && c as int <= 90) || (97 <= c as int
        && c as int <= 122)
}

/// Converts a serde_json tree into the library's document type, one arm
/// per variant; integers keep their stored width, any other number keeps
/// its text.
#[verifier::external_body]
fn value_to_json(v: Value) -> Json {
    match v {
        Value::Null => Json::Null,
        Value::Bool(b) => Json::Bool(b),
        Value::Number(n) => n.as_i64().map(Json::Int).or_else(|| n.as_u64().map(Json::UInt)).unwrap_or_else(|| Json::Num(n.to_string())),
        Value::String(s) => Json::Str(s),
        Value::Array(a) => Json::Arr(a.into_iter().map(value_to_json).collect()),
        Value::Object(o) => Json::Obj(o.into_iter().map(|(k, x)| (k, value_to_json(x))).collect()),
    }
}

/// Converts the library's document type back into a serde_json tree, one
/// arm per variant.
#[verifier::external_body]
fn json_to_value(j: &Json) -> Value {
    match j {
        Json::Null => Value::Null,
        Json::Bool(b) => Value::Bool(*b),
        Json::Int(i) => Value::from(*i),
        Json::UInt(u) => Value::from(*u),
        Json::Num(s) => s.parse().map(Value::Number).unwrap_or(Value::Null),
        Json::Str(s) => Value::String(s.clone()),
        Json::Arr(items) => Value::Array(items.iter().map(json_to_value).collect()),
        Json::Obj(entries) => Value::Object(entries.iter().map(|e| (e.0.clone(), json_to_value(&e.1))).collect()),
    }
}

/// Relies on serde_json::from_str: the parse succeeds exactly on valid
/// JSON text, and the result depends on the text alone.
#[verifier::external_body]
pub fn parse_json_text(s: &str) -> (r: Option<Json>)
    ensures
        r is Some <==> json_text_ok(s@),
        r matches Some(j) ==> j@ == json_doc_of_text(s@),
{
    match serde_json::from_str::<serde_json::Value>(s) {
        Ok(v) => Some(value_to_json(v)),
        Err(_) => None,
    }
}

/// Relies on serde_json's serializer (`Value::to_string`): the text is a
/// function of the document alone.
#[verifier::external_body]
pub fn json_to_text(j: &Json) -> (r: String)
    ensures
        r@ == text_of_json(j@),
{
    json_to_value(j).to_string()
}

/// Relies on glob::Pattern::new and glob::Pattern::matches: compilation
/// succeeds exactly on well-formed patterns, and a match is a function of
/// the pattern text and the candidate text alone.
#[verifier::external_body]
pub fn glob_match_text(pattern: &str, text: &str) -> (r: Option<bool>)
    ensures
        r is Some <==> glob_ok(pattern@),
        r matches Some(b) ==> b == glob_matches(pattern@, text@),
{
    match glob::Pattern::new(pattern) {
        Ok(p) => Some(p.matches(text)),
        Err(_) => None,
    }
}

/// Relies on nanoid::format with nanoid::rngs::default: the result is a
/// fresh nonce of exactly the requested 25 characters, each drawn from
/// the alphanumeric alphabet handed in.
#[verifier::external_body]
pub fn generate_nonce() -> (r: String)
    ensures
        r@.len() == 25,
        forall|i: int| 0 <= i < r@.len() ==> is_nonce_char(r@[i]),
{
    let alphabet: Vec<char> =
        "0123456789abcdefghijklmnopqrstuvwxyzABCDEFGHIJKLMNOPQRSTUVWXYZ".chars().collect();
    nanoid::format(nanoid::rngs::default, &alphabet, 25)
}

} // verus!

//! The JSON exchanged with the translation endpoint: the request body that
//! carries one entry's text, and the two fields read from the response body.
use vstd::prelude::*;
use vstd::string::StringExecFns;

use crate::assemble::{reported_cost, reported_text, Reply};

verus! {

#[verifier::external_type_specification]
#[verifier::external_body]
pub struct ExJsonError(serde_json::Error);

/// A lowercase hexadecimal digit.
pub open spec fn hex_digit(n: int) -> char {
    "0123456789abcdef"@[n]
}

/// How serde_json writes one character inside a JSON string: the quote and the
/// backslash, and the characters below U+0020, are escaped; every other
/// character stands as it is.
pub open spec fn escaped_char(c: char) -> Seq<char> {
    if c == '"' {
        seq!['\\', '"']
    } else if c == '\\' {
        seq!['\\', '\\']
    } else if c == '\u{8}' {
        seq!['\\', 'b']
    } else if c == '\t' {
        seq!['\\', 't']
    } else if c == '\n' {
        seq!['\\', 'n']
    } else if c == '\u{c}' {
        seq!['\\', 'f']
    } else if c == '\r' {
        seq!['\\', 'r']
    } else if (c as int) < 0x20 {
        seq!['\\', 'u', '0', '0', hex_digit((c as int) / 16), hex_digit((c as int) % 16)]
    } else {
        seq![c]
    }
}

pub open spec fn escaped(s: Seq<char>) -> Seq<char>
    decreases s.len(),
{
    if s.len() == 0 {
        seq![]
    } else {
        escaped(s.drop_last()) + escaped_char(s.last())
    }
}

/// The JSON string literal that serde_json writes for a string.
pub open spec fn json_string_of(s: Seq<char>) -> Seq<char> {
    seq!['"'] + escaped(s) + seq!['"']
}

/// Relies on `serde_json::to_string`: a string serialises as its JSON string
/// literal, and writing it into memory does not fail.
#[verifier::external_body]
fn json_string(s: &str) -> (r: Result<String, serde_json::Error>)
    ensures
        r is Ok,
        r is Ok ==> r->Ok_0@ == json_string_of(s@),
{
    serde_json::to_string(s)
}

/// Whether a text parses as one JSON document.
pub uninterp spec fn json_parses(body: Seq<char>) -> bool;

/// In the JSON document `body`, the string at the JSON pointer `pointer`, if
/// the pointer reaches a string.
pub uninterp spec fn json_str_at(body: Seq<char>, pointer: Seq<char>) -> Option<Seq<char>>;

/// In the JSON document `body`, the integer at the JSON pointer `pointer`, if
/// the pointer reaches an integer that fits in `i64`.
pub uninterp spec fn json_i64_at(body: Seq<char>, pointer: Seq<char>) -> Option<i64>;

pub open spec fn option_text(o: Option<String>) -> Option<Seq<char>> {
    match o {
        Some(s) => Some(s@),
        None => None,
    }
}

/// Relies on `serde_json::from_str::<Value>`, `Value::pointer` and
/// `Value::as_str`: parses `body`, then reads the string at `pointer`.
#[verifier::external_body]
fn string_at(body: &str, pointer: &str) -> (r: Result<Option<String>, serde_json::Error>)
    ensures
        r is Ok == json_parses(body@),
        r is Ok ==> option_text(r->Ok_0) == json_str_at(body@, pointer@),
{
    let v: serde_json::Value = serde_json::from_str(body)?;
    Ok(v.pointer(pointer).and_then(|x| x.as_str()).map(|s| s.to_string()))
}

/// Relies on `serde_json::from_str::<Value>`, `Value::pointer` and
/// `Value::as_i64`: parses `body`, then reads the integer at `pointer`.
#[verifier::external_body]
fn integer_at(body: &str, pointer: &str) -> (r: Result<Option<i64>, serde_json::Error>)
    ensures
        r is Ok == json_parses(body@),
        r is Ok ==> r->Ok_0 == json_i64_at(body@, pointer@),
{
    let v: serde_json::Value = serde_json::from_str(body)?;
    Ok(v.pointer(pointer).and_then(|x| x.as_i64()))
}

/// The fixed instruction sent with every entry.
pub open spec fn instruction() -> Seq<char> {
    "Translate the following French text into Chinese, preserving the original meaning and applying refined language as needed"@
}

/// The request body for one entry: the model, the fixed instruction as the
/// system message, and the entry's text as the one user message.
pub open spec fn request_text(message: Seq<char>) -> Seq<char> {
    "{\"model\":\"gpt-3.5-turbo\",\"messages\":[{\"role\":\"system\",\"content\":"@ + json_string_of(
        instruction(),
    ) + "},{\"role\":\"user\",\"content\":"@ + json_string_of(message) + "}]}"@
}

/// Writes the request body that asks for the translation of `message`.
pub fn request_body(message: &str) -> (r: String)
    ensures
        r@ == request_text(message@),
{
    let system = json_string(
        "Translate the following French text into Chinese, preserving the original meaning and applying refined language as needed",
    ).unwrap();
    let user = json_string(message).unwrap();
    let mut body = String::from_str(
        "{\"model\":\"gpt-3.5-turbo\",\"messages\":[{\"role\":\"system\",\"content\":",
    );
    body.append(system.as_str());
    body.append("},{\"role\":\"user\",\"content\":");
    body.append(user.as_str());
    body.append("}]}");
    body
}

/// The response body is not a JSON document.
#[derive(PartialEq, Eq, Structural, Clone, Copy, Debug)]
pub enum ReplyError {
    Malformed,
}

/// Where the translated text stands in a response.
pub open spec fn content_pointer() -> Seq<char> {
    "/choices/0/message/content"@
}

/// Where the cost stands in a response.
pub open spec fn tokens_pointer() -> Seq<char> {
    "/usage/total_tokens"@
}

/// Reads a reply from a response body: the content of the first choice's
/// message, or empty text, and the usage's total token count, or zero.
pub fn reply_of(body: &str) -> (r: Result<Reply, ReplyError>)
    ensures
        r is Ok == json_parses(body@),
        r is Ok ==> r->Ok_0.text@ == reported_text(json_str_at(body@, content_pointer())),
        r is Ok ==> r->Ok_0.cost == reported_cost(json_i64_at(body@, tokens_pointer())),
{
    let content = match string_at(body, "/choices/0/message/content") {
        Ok(c) => c,
        Err(_) => {
            return Err(ReplyError::Malformed);
        },
    };
    let tokens = match integer_at(body, "/usage/total_tokens") {
        Ok(t) => t,
        Err(_) => {
            return Err(ReplyError::Malformed);
        },
    };
    Ok(Reply::from_fields(content, tokens))
}

} // verus!

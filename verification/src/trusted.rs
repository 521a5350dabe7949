//! Contracts for the outside functions the library leans on: a few std items
//! vstd gives no specification for, and the calls into the base64 and
//! serde_json crates that stand in the middle of the library's logic.

use vstd::prelude::*;

use base64::Engine;

use crate::classify::RawResponseFields;

verus! {

/// Relies on alloc's `String::push`: appends exactly the given character.
pub assume_specification[ String::push ](s: &mut String, c: char)
    ensures
        final(s)@ == old(s)@ + seq![c],
;

/// Relies on `std::time::SystemTime::now`: the wall clock as milliseconds
/// since the Unix epoch, or zero if the clock reads before the epoch.
#[verifier::external_body]
pub fn current_timestamp_ms() -> (r: i64)
    ensures
        r >= 0,
{
    std::time::SystemTime::now()
        .duration_since(std::time::UNIX_EPOCH)
        .map(|d| d.as_millis() as i64)
        .unwrap_or(0)
}

/// The standard-alphabet, padded base64 rendering of a byte sequence.
pub uninterp spec fn base64_standard(bytes: Seq<u8>) -> Seq<char>;

/// Relies on the base64 crate's `Engine::encode` with the
/// `general_purpose::STANDARD` engine: standard alphabet with padding, four
/// output characters for every started group of three input bytes.
#[verifier::external_body]
pub(crate) fn base64_encode(bytes: &Vec<u8>) -> (r: String)
    requires
        4 * ((bytes@.len() + 2) / 3) <= usize::MAX,
    ensures
        r@ == base64_standard(bytes@),
        r@.len() == 4 * ((bytes@.len() + 2) / 3),
{
    base64::engine::general_purpose::STANDARD.encode(bytes.as_slice())
}

/// What the classifier's JSON response object holds, if the text is a valid
/// object of the response schema: the optional `is_relevant` flag, the
/// `folder` string, the `confidence` number's decimal text, and the
/// `reasoning` string.
pub uninterp spec fn classification_json_fields(s: Seq<char>) -> Option<
    (Option<bool>, Seq<char>, Seq<char>, Seq<char>),
>;

/// Relies on `serde_json::from_str` and `serde_json::Value`'s accessors: the
/// named fields of the response object, with the confidence number rendered
/// through `serde_json::Number`'s `Display`.  A missing or null `is_relevant`
/// is absent; any other non-boolean there, or a missing or wrongly typed
/// required field, or text that is not JSON, fails the parse.
#[verifier::external_body]
pub(crate) fn parse_classification_json(s: &str) -> (r: Option<RawResponseFields>)
    ensures
        (r is Some) == (classification_json_fields(s@) is Some),
        r matches Some(f) ==> {
            let m = classification_json_fields(s@)->Some_0;
            f.is_relevant == m.0 && f.folder@ == m.1 && f.confidence_text@ == m.2 && f.reasoning@
                == m.3
        },
{
    let v: serde_json::Value = serde_json::from_str(s).ok()?;
    let is_relevant = match v.get("is_relevant") {
        None => None,
        Some(serde_json::Value::Null) => None,
        Some(serde_json::Value::Bool(b)) => Some(*b),
        Some(_) => {
            return None;
        },
    };
    Some(RawResponseFields {
        is_relevant,
        folder: v.get("folder")?.as_str()?.to_string(),
        confidence_text: v.get("confidence")?.as_number()?.to_string(),
        reasoning: v.get("reasoning")?.as_str()?.to_string(),
    })
}

/// The `choices[i].message.content` strings of a chat-completion response
/// body, if the body parses as that envelope.
pub uninterp spec fn envelope_choice_contents(s: Seq<char>) -> Option<Seq<Seq<char>>>;

/// Relies on `serde_json::from_str` and `serde_json::Value`'s accessors: the
/// message content of every choice in the response envelope; a body that is
/// not JSON, or whose `choices` is not an array of objects carrying
/// `message.content` strings, fails the parse.
#[verifier::external_body]
pub(crate) fn parse_envelope_json(s: &str) -> (r: Option<Vec<String>>)
    ensures
        (r is Some) == (envelope_choice_contents(s@) is Some),
        r matches Some(cs) ==> cs.deep_view() == envelope_choice_contents(s@)->Some_0,
{
    let v: serde_json::Value = serde_json::from_str(s).ok()?;
    let arr = v.get("choices")?.as_array()?;
    let mut out: Vec<String> = Vec::new();
    for c in arr {
        out.push(c.get("message")?.get("content")?.as_str()?.to_string());
    }
    Some(out)
}

} // verus!

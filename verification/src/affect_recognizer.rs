use vstd::prelude::*;
use vstd::string::*;
use crate::text::{append_str, is_blank, push_decimal, take_chars, trim, trim_str, decimal};

verus! {

broadcast use vstd::string::group_string_axioms;

/// Most characters of a message handed to the on-device classifier.
pub const MAX_MODEL_INPUT_CHARS: usize = 1000;

/// Most characters kept of a model's id or version.
pub const MAX_MODEL_IDENTITY_CHARS: usize = 128;

/// Timeout of a classifier call, in milliseconds.
pub const MODEL_CALL_TIMEOUT_MS: u64 = 2750;

/// What is handed to the classifier: the trimmed text cut at the input limit, and whether
/// it was cut; `None` for a blank text, which is not classified.
pub open spec fn model_input_spec(text: Seq<char>) -> Option<(Seq<char>, bool)> {
    let t = trim(text);
    if t.len() == 0 {
        None
    } else {
        Some(
            (
                t.take(if t.len() > MAX_MODEL_INPUT_CHARS { MAX_MODEL_INPUT_CHARS as int } else { t.len() as int }),
                t.len() > MAX_MODEL_INPUT_CHARS,
            ),
        )
    }
}

/// Prepares a message for the classifier (see `model_input_spec`).
pub fn model_input(text: &str) -> (r: Option<(String, bool)>)
    ensures
        match r {
            Some((s, cut)) => model_input_spec(text@) == Some((s@, cut)),
            None => model_input_spec(text@) is None,
        },
{
    let t = trim_str(text);
    if t.unicode_len() == 0 {
        return None;
    }
    let truncated = t.unicode_len() > MAX_MODEL_INPUT_CHARS;
    let limited = take_chars(t.as_str(), MAX_MODEL_INPUT_CHARS);
    Some((limited, truncated))
}

/// A model identity field as it is kept: trimmed and cut at the identity limit.
pub open spec fn identity_field(s: Seq<char>) -> Seq<char> {
    let t = trim(s);
    t.take(if t.len() > MAX_MODEL_IDENTITY_CHARS { MAX_MODEL_IDENTITY_CHARS as int } else { t.len() as int })
}

/// The model id and version an observation keeps; `None` when either is blank.
pub fn validated_identity(model_id: &str, model_version: &str) -> (r: Option<(String, String)>)
    ensures
        match r {
            Some((id, ver)) => id@ == identity_field(model_id@) && ver@ == identity_field(
                model_version@,
            ) && id@.len() > 0 && ver@.len() > 0,
            None => identity_field(model_id@).len() == 0 || identity_field(model_version@).len()
                == 0,
        },
{
    let id_t = trim_str(model_id);
    let id = take_chars(id_t.as_str(), MAX_MODEL_IDENTITY_CHARS);
    let ver_t = trim_str(model_version);
    let ver = take_chars(ver_t.as_str(), MAX_MODEL_IDENTITY_CHARS);
    if id.unicode_len() == 0 || ver.unicode_len() == 0 {
        return None;
    }
    Some((id, ver))
}

/// How an observation names the recognizer: `{model id}@{model version}`.
pub fn recognizer_provenance(model_id: &str, model_version: &str) -> (r: String)
    ensures
        r@ == model_id@ + "@"@ + model_version@,
{
    let mut s = model_id.to_string();
    append_str(&mut s, "@");
    append_str(&mut s, model_version);
    s
}

/// The error of a classifier call that ran out of time.
pub fn timeout_message(timeout_ms: u64) -> (r: String)
    ensures
        r@ == "affect classifier timed out after "@ + decimal(timeout_ms as nat) + "ms"@,
{
    let mut s = String::from_str("affect classifier timed out after ");
    push_decimal(&mut s, timeout_ms);
    append_str(&mut s, "ms");
    s
}

} // verus!

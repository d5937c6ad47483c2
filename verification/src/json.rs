use vstd::prelude::*;
use crate::text::str_eq;
use serde_json::Value;

verus! {

/// One level of a parsed JSON document. Nested values are kept as their JSON text, which
/// can be parsed again on demand.
#[derive(PartialEq, Eq)]
pub enum JsonNode {
    Null,
    Bool(bool),
    /// The number as `serde_json` prints it.
    Number(String),
    Str(String),
    /// The JSON text of each element, in order.
    Array(Vec<String>),
    /// Each key with the JSON text of its value, in the parser's order.
    Object(Vec<(String, String)>),
}

/// What `serde_json` parses the text into, one level deep; `None` when the text is not JSON.
pub uninterp spec fn json_parse(text: Seq<char>) -> Option<JsonNode>;

/// `serde_json::from_str::<serde_json::Value>`, with the top level of the value converted to a
/// `JsonNode` (children printed back to JSON text with `Value::to_string`). Which message an
/// error carries is not stated.
#[verifier::external_body]
pub(crate) fn parse_json(text: &str) -> (r: Result<JsonNode, String>)
    ensures
        r is Ok <==> json_parse(text@) is Some,
        r is Ok ==> r->Ok_0 == json_parse(text@)->0,
{
    Ok(match serde_json::from_str::<Value>(text).map_err(|e| e.to_string())? {
        Value::Null => JsonNode::Null,
        Value::Bool(b) => JsonNode::Bool(b),
        Value::Number(n) => JsonNode::Number(n.to_string()),
        Value::String(s) => JsonNode::Str(s),
        Value::Array(a) => JsonNode::Array(a.iter().map(|x| x.to_string()).collect()),
        Value::Object(o) => JsonNode::Object(o.into_iter().map(|(k, x)| (k, x.to_string())).collect()),
    })
}

/// A field of an object: `None` when absent, `Some(None)` when its text does not parse,
/// `Some(Some(v))` otherwise.
pub open spec fn field(v: JsonNode, key: Seq<char>) -> Option<Option<JsonNode>> {
    match v {
        JsonNode::Object(entries) => match entry_text(entries@, key) {
            Some(t) => Some(json_parse(t@)),
            None => None,
        },
        _ => None,
    }
}

/// The text stored under the first entry with `key`.
pub open spec fn entry_text(entries: Seq<(String, String)>, key: Seq<char>) -> Option<String>
    decreases entries.len(),
{
    if entries.len() == 0 {
        None
    } else if entries[0].0@ == key {
        Some(entries[0].1)
    } else {
        entry_text(entries.drop_first(), key)
    }
}

/// The string held by a present, parsable field, if it is a string.
pub open spec fn field_str(v: JsonNode, key: Seq<char>) -> Option<Seq<char>> {
    match field(v, key) {
        Some(Some(JsonNode::Str(s))) => Some(s@),
        _ => None,
    }
}

/// Whether the field is absent or JSON `null`.
pub open spec fn field_null_or_absent(v: JsonNode, key: Seq<char>) -> bool {
    match field(v, key) {
        None => true,
        Some(Some(JsonNode::Null)) => true,
        _ => false,
    }
}

proof fn lemma_entry_text_suffix(entries: Seq<(String, String)>, i: int, key: Seq<char>)
    requires
        0 <= i < entries.len(),
        entries[i].0@ != key,
    ensures
        entry_text(entries.subrange(i, entries.len() as int), key) == entry_text(
            entries.subrange(i + 1, entries.len() as int),
            key,
        ),
{
    assert(entries.subrange(i, entries.len() as int).drop_first() =~= entries.subrange(
        i + 1,
        entries.len() as int,
    ));
}

/// Looks up `key` among object entries.
pub fn lookup_entry(entries: &Vec<(String, String)>, key: &str) -> (r: Option<String>)
    ensures
        match r {
            Some(t) => entry_text(entries@, key@) is Some && t@ == entry_text(entries@, key@)->0@,
            None => entry_text(entries@, key@) is None,
        },
{
    let mut i: usize = 0;
    assert(entries@.subrange(0, entries@.len() as int) =~= entries@);
    while i < entries.len()
        invariant
            i <= entries.len(),
            entry_text(entries@, key@) == entry_text(
                entries@.subrange(i as int, entries@.len() as int),
                key@,
            ),
        decreases entries.len() - i,
    {
        if str_eq(entries[i].0.as_str(), key) {
            return Some(entries[i].1.clone());
        }
        proof {
            lemma_entry_text_suffix(entries@, i as int, key@);
        }
        i = i + 1;
    }
    None
}

/// Reads a field of an object (see `field`).
pub fn get_field(v: &JsonNode, key: &str) -> (r: Option<Option<JsonNode>>)
    ensures
        match (r, field(*v, key@)) {
            (None, None) => true,
            (Some(None), Some(None)) => true,
            (Some(Some(a)), Some(Some(b))) => a == b,
            _ => false,
        },
{
    match v {
        JsonNode::Object(entries) => match lookup_entry(entries, key) {
            Some(t) => match parse_json(t.as_str()) {
                Ok(n) => Some(Some(n)),
                Err(_) => Some(None),
            },
            None => None,
        },
        _ => None,
    }
}

/// Reads a string field.
pub fn get_field_str(v: &JsonNode, key: &str) -> (r: Option<String>)
    ensures
        match r {
            Some(s) => field_str(*v, key@) == Some(s@),
            None => field_str(*v, key@) is None,
        },
{
    match get_field(v, key) {
        Some(Some(JsonNode::Str(s))) => Some(s),
        _ => None,
    }
}

} // verus!

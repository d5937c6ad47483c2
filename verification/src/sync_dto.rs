use vstd::prelude::*;
use vstd::string::*;
use crate::text::{append_str, chars_of, concat2, parse_i64_spec, parse_i64_chars};
use crate::json::{JsonNode, json_parse, field, field_null_or_absent, get_field, parse_json};

verus! {

broadcast use vstd::string::group_string_axioms;

/// What a field of a sync DTO must hold for the DTO to be read.
#[derive(Clone, Copy)]
pub enum FieldKind {
    /// A JSON string.
    Str,
    /// A JSON string, `null`, or nothing at all.
    OptStr,
    /// A JSON boolean.
    Bool,
    /// Any JSON number.
    Number,
    /// A JSON integer that fits `i64`.
    Int,
    /// A JSON array of strings.
    StrList,
}

/// The four DTOs an entity batch carries.
#[derive(Clone, Copy)]
pub enum DtoKind {
    Agent,
    Group,
    AgentTopic,
    GroupTopic,
}

/// Whether every element text of an array is a JSON string.
pub open spec fn all_strings(items: Seq<String>) -> bool {
    forall|i: int| 0 <= i < items.len() ==> (#[trigger] json_parse(items[i]@) matches Some(
        JsonNode::Str(_),
    ))
}

/// Whether the field `key` of `v` holds what `kind` asks for.
pub open spec fn field_ok(v: JsonNode, key: Seq<char>, kind: FieldKind) -> bool {
    match kind {
        FieldKind::Str => field(v, key) matches Some(Some(JsonNode::Str(_))),
        FieldKind::OptStr => field_null_or_absent(v, key) || field(v, key) matches Some(
            Some(JsonNode::Str(_)),
        ),
        FieldKind::Bool => field(v, key) matches Some(Some(JsonNode::Bool(_))),
        FieldKind::Number => field(v, key) matches Some(Some(JsonNode::Number(_))),
        FieldKind::Int => match field(v, key) {
            Some(Some(JsonNode::Number(n))) => parse_i64_spec(n@) is Some,
            _ => false,
        },
        FieldKind::StrList => match field(v, key) {
            Some(Some(JsonNode::Array(items))) => all_strings(items@),
            _ => false,
        },
    }
}

/// The first field, in order, that does not hold what it must.
pub open spec fn first_bad_field(v: JsonNode, fields: Seq<(Seq<char>, FieldKind)>) -> Option<
    Seq<char>,
>
    decreases fields.len(),
{
    if fields.len() == 0 {
        None
    } else if !field_ok(v, fields[0].0, fields[0].1) {
        Some(fields[0].0)
    } else {
        first_bad_field(v, fields.drop_first())
    }
}

/// The fields of each DTO, by their JSON names, in declaration order. Fields of other
/// names are ignored.
pub open spec fn dto_fields(kind: DtoKind) -> Seq<(Seq<char>, FieldKind)> {
    match kind {
        DtoKind::Agent => seq![
            ("name"@, FieldKind::Str),
            ("systemPrompt"@, FieldKind::Str),
            ("model"@, FieldKind::Str),
            ("temperature"@, FieldKind::Number),
            ("contextTokenLimit"@, FieldKind::Int),
            ("maxOutputTokens"@, FieldKind::Int),
            ("streamOutput"@, FieldKind::Bool),
        ],
        DtoKind::Group => seq![
            ("name"@, FieldKind::Str),
            ("members"@, FieldKind::StrList),
            ("mode"@, FieldKind::Str),
            ("groupPrompt"@, FieldKind::OptStr),
            ("invitePrompt"@, FieldKind::OptStr),
            ("useUnifiedModel"@, FieldKind::Bool),
            ("unifiedModel"@, FieldKind::OptStr),
            ("tagMatchMode"@, FieldKind::OptStr),
            ("createdAt"@, FieldKind::Int),
        ],
        DtoKind::AgentTopic => seq![
            ("id"@, FieldKind::Str),
            ("name"@, FieldKind::Str),
            ("createdAt"@, FieldKind::Int),
            ("locked"@, FieldKind::Bool),
            ("unread"@, FieldKind::Bool),
            ("ownerId"@, FieldKind::Str),
        ],
        DtoKind::GroupTopic => seq![
            ("id"@, FieldKind::Str),
            ("name"@, FieldKind::Str),
            ("createdAt"@, FieldKind::Int),
            ("ownerId"@, FieldKind::Str),
        ],
    }
}

/// Why the JSON text `data` is not a DTO of `kind`, or `None` when it is one.
pub open spec fn dto_problem(data: Seq<char>, kind: DtoKind) -> Option<Seq<char>> {
    match json_parse(data) {
        Some(JsonNode::Object(e)) => match first_bad_field(JsonNode::Object(e), dto_fields(kind)) {
            Some(name) => Some("missing or invalid field `"@ + name + "`"@),
            None => None,
        },
        _ => Some("expected a JSON object"@),
    }
}

fn fields_of(kind: DtoKind) -> (r: Vec<(String, FieldKind)>)
    ensures
        r@.len() == dto_fields(kind).len(),
        forall|i: int|
            0 <= i < r@.len() ==> (#[trigger] r@[i]).0@ == dto_fields(kind)[i].0 && r@[i].1
                == dto_fields(kind)[i].1,
{
    match kind {
        DtoKind::Agent => vec![
            (String::from_str("name"), FieldKind::Str),
            (String::from_str("systemPrompt"), FieldKind::Str),
            (String::from_str("model"), FieldKind::Str),
            (String::from_str("temperature"), FieldKind::Number),
            (String::from_str("contextTokenLimit"), FieldKind::Int),
            (String::from_str("maxOutputTokens"), FieldKind::Int),
            (String::from_str("streamOutput"), FieldKind::Bool),
        ],
        DtoKind::Group => vec![
            (String::from_str("name"), FieldKind::Str),
            (String::from_str("members"), FieldKind::StrList),
            (String::from_str("mode"), FieldKind::Str),
            (String::from_str("groupPrompt"), FieldKind::OptStr),
            (String::from_str("invitePrompt"), FieldKind::OptStr),
            (String::from_str("useUnifiedModel"), FieldKind::Bool),
            (String::from_str("unifiedModel"), FieldKind::OptStr),
            (String::from_str("tagMatchMode"), FieldKind::OptStr),
            (String::from_str("createdAt"), FieldKind::Int),
        ],
        DtoKind::AgentTopic => vec![
            (String::from_str("id"), FieldKind::Str),
            (String::from_str("name"), FieldKind::Str),
            (String::from_str("createdAt"), FieldKind::Int),
            (String::from_str("locked"), FieldKind::Bool),
            (String::from_str("unread"), FieldKind::Bool),
            (String::from_str("ownerId"), FieldKind::Str),
        ],
        DtoKind::GroupTopic => vec![
            (String::from_str("id"), FieldKind::Str),
            (String::from_str("name"), FieldKind::Str),
            (String::from_str("createdAt"), FieldKind::Int),
            (String::from_str("ownerId"), FieldKind::Str),
        ],
    }
}

fn strings_only(items: &Vec<String>) -> (r: bool)
    ensures
        r == all_strings(items@),
{
    let mut i: usize = 0;
    while i < items.len()
        invariant
            i <= items.len(),
            forall|j: int| 0 <= j < i ==> (#[trigger] json_parse(items@[j]@) matches Some(
                JsonNode::Str(_),
            )),
        decreases items.len() - i,
    {
        match parse_json(items[i].as_str()) {
            Ok(JsonNode::Str(_)) => {},
            _ => {
                return false;
            },
        }
        i = i + 1;
    }
    true
}

/// Whether the field `key` of `v` holds what `kind` asks for.
pub fn check_field(v: &JsonNode, key: &str, kind: FieldKind) -> (r: bool)
    ensures
        r == field_ok(*v, key@, kind),
{
    let f = get_field(v, key);
    match kind {
        FieldKind::Str => matches!(f, Some(Some(JsonNode::Str(_)))),
        FieldKind::OptStr => match f {
            None => true,
            Some(Some(JsonNode::Null)) => true,
            Some(Some(JsonNode::Str(_))) => true,
            _ => false,
        },
        FieldKind::Bool => matches!(f, Some(Some(JsonNode::Bool(_)))),
        FieldKind::Number => matches!(f, Some(Some(JsonNode::Number(_)))),
        FieldKind::Int => match f {
            Some(Some(JsonNode::Number(n))) => {
                let c = chars_of(n.as_str());
                parse_i64_chars(c.as_slice()).is_some()
            },
            _ => false,
        },
        FieldKind::StrList => match f {
            Some(Some(JsonNode::Array(items))) => strings_only(&items),
            _ => false,
        },
    }
}

proof fn lemma_first_bad_suffix(v: JsonNode, fields: Seq<(Seq<char>, FieldKind)>, i: int)
    requires
        0 <= i < fields.len(),
        field_ok(v, fields[i].0, fields[i].1),
    ensures
        first_bad_field(v, fields.subrange(i, fields.len() as int)) == first_bad_field(
            v,
            fields.subrange(i + 1, fields.len() as int),
        ),
{
    assert(fields.subrange(i, fields.len() as int).drop_first() =~= fields.subrange(
        i + 1,
        fields.len() as int,
    ));
}

/// Checks that the JSON text `data` reads as a DTO of `kind`; the problem otherwise.
pub fn check_dto(data: &str, kind: DtoKind) -> (r: Option<String>)
    ensures
        match r {
            Some(p) => dto_problem(data@, kind) == Some(p@),
            None => dto_problem(data@, kind) is None,
        },
{
    let v = match parse_json(data) {
        Ok(v) => v,
        Err(_) => {
            return Some(String::from_str("expected a JSON object"));
        },
    };
    if !matches!(v, JsonNode::Object(_)) {
        return Some(String::from_str("expected a JSON object"));
    }
    let fields = fields_of(kind);
    let ghost fs = dto_fields(kind);
    assert(fs.subrange(0, fs.len() as int) =~= fs);
    let mut i: usize = 0;
    while i < fields.len()
        invariant
            i <= fields.len(),
            fs == dto_fields(kind),
            json_parse(data@) == Some(v),
            v is Object,
            fields@.len() == fs.len(),
            forall|k: int|
                0 <= k < fields@.len() ==> (#[trigger] fields@[k]).0@ == fs[k].0 && fields@[k].1
                    == fs[k].1,
            first_bad_field(v, fs) == first_bad_field(v, fs.subrange(i as int, fs.len() as int)),
        decreases fields.len() - i,
    {
        let (name, fk) = (&fields[i].0, fields[i].1);
        if !check_field(&v, name.as_str(), fk) {
            proof {
                let rest = fs.subrange(i as int, fs.len() as int);
                assert(rest[0] == fs[i as int]);
            }
            let mut msg = concat2("missing or invalid field `", name.as_str());
            append_str(&mut msg, "`");
            return Some(msg);
        }
        proof {
            lemma_first_bad_suffix(v, fs, i as int);
        }
        i = i + 1;
    }
    proof {
        assert(fs.subrange(fs.len() as int, fs.len() as int) =~= Seq::<(Seq<char>, FieldKind)>::empty());
    }
    None
}

} // verus!

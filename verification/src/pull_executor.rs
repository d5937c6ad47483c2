use vstd::prelude::*;
use vstd::string::*;
use crate::text::{concat2, views, lemma_views_push, contains_string, join, join_strings, str_eq, append_str};
use crate::json::{JsonNode, json_parse, field, field_str, field_null_or_absent, entry_text, get_field, get_field_str, lookup_entry, parse_json};
use crate::message_repository::string_from_utf8;
use crate::sync_dto::{DtoKind, check_dto, dto_problem, dto_fields, first_bad_field, field_ok};
use vstd::utf8::{valid_utf8, decode_utf8};

verus! {

broadcast use vstd::string::group_string_axioms;

/// The outcome of pulling the messages of one topic.
pub struct BatchPullResult {
    pub topic_id: String,
    pub success: bool,
    pub parsed_count: usize,
    pub failed_count: usize,
    pub error: Option<String>,
}

/// The topic ids of pull requests.
pub open spec fn request_ids(requests: Seq<(String, Vec<String>)>) -> Seq<Seq<char>> {
    requests.map_values(|r: (String, Vec<String>)| r.0@)
}

/// The topic ids of pull results.
pub open spec fn result_ids(results: Seq<BatchPullResult>) -> Seq<Seq<char>> {
    results.map_values(|r: BatchPullResult| r.topic_id@)
}

/// The first problem among the first `n` request ids: an empty id or a repeated one.
pub open spec fn request_error(ids: Seq<Seq<char>>, n: nat) -> Option<Seq<char>>
    decreases n,
{
    if n == 0 {
        None
    } else if request_error(ids, (n - 1) as nat) is Some {
        request_error(ids, (n - 1) as nat)
    } else if ids[n - 1].len() == 0 {
        Some("Batch pull request contains an empty topic id"@)
    } else if ids.take(n - 1).contains(ids[n - 1]) {
        Some("Duplicate batch pull request for topic "@ + ids[n - 1])
    } else {
        None
    }
}

/// The message a protocol-level result (one without topic id) is reported with.
pub open spec fn protocol_error_msg(r: BatchPullResult) -> Seq<char> {
    match r.error {
        Some(e) => e@,
        None => "Batch pull protocol error"@,
    }
}

/// The first problem among the first `n` results: a protocol error, an unexpected topic,
/// or a topic reported twice.
pub open spec fn result_error(expected: Seq<Seq<char>>, results: Seq<BatchPullResult>, n: nat) -> Option<
    Seq<char>,
>
    decreases n,
{
    if n == 0 {
        None
    } else if result_error(expected, results, (n - 1) as nat) is Some {
        result_error(expected, results, (n - 1) as nat)
    } else {
        let id = results[n - 1].topic_id@;
        if id.len() == 0 {
            Some(protocol_error_msg(results[n - 1]))
        } else if !expected.contains(id) {
            Some("Unexpected topic in batch pull response: "@ + id)
        } else if result_ids(results).take(n - 1).contains(id) {
            Some("Duplicate topic in batch pull response: "@ + id)
        } else {
            None
        }
    }
}

/// The requested ids, among the first `n`, that no result reports.
pub open spec fn missing_ids(expected: Seq<Seq<char>>, received: Seq<Seq<char>>, n: nat) -> Seq<Seq<char>>
    decreases n,
{
    if n == 0 {
        Seq::empty()
    } else if received.contains(expected[n - 1]) {
        missing_ids(expected, received, (n - 1) as nat)
    } else {
        missing_ids(expected, received, (n - 1) as nat).push(expected[n - 1])
    }
}

/// The verdict on a batch pull: `None` when every requested topic has exactly one result.
pub open spec fn batch_pull_verdict(requests: Seq<(String, Vec<String>)>, results: Seq<BatchPullResult>) -> Option<
    Seq<char>,
> {
    let ids = request_ids(requests);
    if request_error(ids, ids.len()) is Some {
        request_error(ids, ids.len())
    } else if result_error(ids, results, results.len()) is Some {
        result_error(ids, results, results.len())
    } else {
        let missing = missing_ids(ids, result_ids(results), ids.len());
        if missing.len() > 0 {
            Some("Batch pull response omitted requested topics: "@ + join(missing, ", "@))
        } else {
            None
        }
    }
}

/// Checks that a batch pull answered each requested topic exactly once.
pub fn validate_batch_pull_results(
    requests: &[(String, Vec<String>)],
    results: &[BatchPullResult],
) -> (r: Result<(), String>)
    ensures
        match r {
            Ok(()) => batch_pull_verdict(requests@, results@) is None,
            Err(e) => batch_pull_verdict(requests@, results@) == Some(e@),
        },
{
    let ghost ids = request_ids(requests@);
    let mut expected: Vec<String> = Vec::new();
    let mut i: usize = 0;
    while i < requests.len()
        invariant
            i <= requests.len(),
            ids == request_ids(requests@),
            request_error(ids, i as nat) is None,
            views(expected@) == ids.take(i as int),
        decreases requests.len() - i,
    {
        let topic_id = &requests[i].0;
        assert(ids[i as int] == topic_id@);
        assert(ids.take(i as int) == views(expected@));
        if topic_id.as_str().is_empty() {
            proof {
                lemma_request_error_stable(ids, (i + 1) as nat, ids.len());
            }
            return Err(String::from_str("Batch pull request contains an empty topic id"));
        }
        if contains_string(expected.as_slice(), topic_id.as_str()) {
            proof {
                lemma_request_error_stable(ids, (i + 1) as nat, ids.len());
            }
            return Err(concat2("Duplicate batch pull request for topic ", topic_id.as_str()));
        }
        let ghost before = expected@;
        expected.push(topic_id.clone());
        proof {
            lemma_views_push(before, *topic_id);
            assert(ids.take((i + 1) as int) =~= ids.take(i as int).push(ids[i as int]));
        }
        i = i + 1;
    }
    assert(ids.take(ids.len() as int) =~= ids);
    let mut received: Vec<String> = Vec::new();
    let ghost rids = result_ids(results@);
    let mut j: usize = 0;
    while j < results.len()
        invariant
            j <= results.len(),
            rids == result_ids(results@),
            views(expected@) == ids,
            ids == request_ids(requests@),
            request_error(ids, ids.len()) is None,
            result_error(ids, results@, j as nat) is None,
            views(received@) == rids.take(j as int),
        decreases results.len() - j,
    {
        let result = &results[j];
        assert(rids[j as int] == result.topic_id@);
        if result.topic_id.as_str().is_empty() {
            proof {
                lemma_result_error_stable(ids, results@, (j + 1) as nat, results@.len());
            }
            return match &result.error {
                Some(e) => Err(e.clone()),
                None => Err(String::from_str("Batch pull protocol error")),
            };
        }
        if !contains_string(expected.as_slice(), result.topic_id.as_str()) {
            proof {
                lemma_result_error_stable(ids, results@, (j + 1) as nat, results@.len());
            }
            return Err(
                concat2("Unexpected topic in batch pull response: ", result.topic_id.as_str()),
            );
        }
        if contains_string(received.as_slice(), result.topic_id.as_str()) {
            proof {
                lemma_result_error_stable(ids, results@, (j + 1) as nat, results@.len());
            }
            return Err(
                concat2("Duplicate topic in batch pull response: ", result.topic_id.as_str()),
            );
        }
        let ghost before = received@;
        received.push(result.topic_id.clone());
        proof {
            lemma_views_push(before, result.topic_id);
            assert(rids.take((j + 1) as int) =~= rids.take(j as int).push(rids[j as int]));
        }
        j = j + 1;
    }
    assert(rids.take(rids.len() as int) =~= rids);
    let mut missing: Vec<String> = Vec::new();
    let mut k: usize = 0;
    while k < expected.len()
        invariant
            k <= expected.len(),
            views(expected@) == ids,
            views(received@) == rids,
            ids == request_ids(requests@),
            rids == result_ids(results@),
            request_error(ids, ids.len()) is None,
            result_error(ids, results@, results@.len()) is None,
            views(missing@) == missing_ids(ids, rids, k as nat),
        decreases expected.len() - k,
    {
        assert(ids[k as int] == expected@[k as int]@);
        if !contains_string(received.as_slice(), expected[k].as_str()) {
            let ghost before = missing@;
            missing.push(expected[k].clone());
            proof {
                lemma_views_push(before, expected@[k as int]);
            }
        }
        k = k + 1;
    }
    if missing.len() > 0 {
        let joined = join_strings(missing.as_slice(), ", ");
        return Err(concat2("Batch pull response omitted requested topics: ", joined.as_str()));
    }
    Ok(())
}

proof fn lemma_request_error_stable(ids: Seq<Seq<char>>, n: nat, m: nat)
    requires
        n <= m,
        request_error(ids, n) is Some,
    ensures
        request_error(ids, m) == request_error(ids, n),
    decreases m - n,
{
    if n < m {
        lemma_request_error_stable(ids, n, (m - 1) as nat);
    }
}

proof fn lemma_result_error_stable(
    expected: Seq<Seq<char>>,
    results: Seq<BatchPullResult>,
    n: nat,
    m: nat,
)
    requires
        n <= m,
        result_error(expected, results, n) is Some,
    ensures
        result_error(expected, results, m) == result_error(expected, results, n),
    decreases m - n,
{
    if n < m {
        lemma_result_error_stable(expected, results, n, (m - 1) as nat);
    }
}


} // verus!

verus! {

/// The entity types a batch entity request or response may name.
pub open spec fn is_entity_type(t: Seq<char>) -> bool {
    t == "agent"@ || t == "group"@ || t == "agent_topic"@ || t == "group_topic"@
}

pub fn is_entity_type_exec(t: &str) -> (r: bool)
    ensures
        r == is_entity_type(t@),
{
    str_eq(t, "agent") || str_eq(t, "group") || str_eq(t, "agent_topic") || str_eq(t, "group_topic")
}

pub open spec fn key_views(keys: Seq<(String, String)>) -> Seq<(Seq<char>, Seq<char>)> {
    keys.map_values(|k: (String, String)| (k.0@, k.1@))
}

/// `type:id`, as error messages name an entity.
pub open spec fn entity_label(id: Seq<char>, t: Seq<char>) -> Seq<char> {
    t + ":"@ + id
}

/// The `(id, type)` keys of the first `n` requests, or the first problem among them.
pub open spec fn request_keys_prefix(requests: Seq<JsonNode>, n: nat) -> Result<
    Seq<(Seq<char>, Seq<char>)>,
    Seq<char>,
>
    decreases n,
{
    if n == 0 {
        Ok(Seq::empty())
    } else {
        match request_keys_prefix(requests, (n - 1) as nat) {
            Err(e) => Err(e),
            Ok(keys) => {
                let req = requests[n - 1];
                match field_str(req, "id"@) {
                    Some(id) if id.len() > 0 => match field_str(req, "type"@) {
                        Some(t) if is_entity_type(t) => if keys.contains((id, t)) {
                            Err("Duplicate batch entity request: "@ + entity_label(id, t))
                        } else {
                            Ok(keys.push((id, t)))
                        },
                        _ => Err("Unsupported batch entity request type for "@ + id),
                    },
                    _ => Err("Batch entity request contains an empty id"@),
                }
            },
        }
    }
}

/// Whether `keys` holds the pair.
pub fn contains_key(keys: &[(String, String)], id: &str, t: &str) -> (r: bool)
    ensures
        r == key_views(keys@).contains((id@, t@)),
{
    let mut i: usize = 0;
    while i < keys.len()
        invariant
            i <= keys.len(),
            forall|k: int| 0 <= k < i ==> key_views(keys@)[k] != (id@, t@),
        decreases keys.len() - i,
    {
        if str_eq(keys[i].0.as_str(), id) && str_eq(keys[i].1.as_str(), t) {
            assert(key_views(keys@)[i as int] == (id@, t@));
            return true;
        }
        assert(key_views(keys@)[i as int] == (keys@[i as int].0@, keys@[i as int].1@));
        i = i + 1;
    }
    false
}

proof fn lemma_request_keys_error_stable(requests: Seq<JsonNode>, n: nat, m: nat)
    requires
        n <= m,
        request_keys_prefix(requests, n) is Err,
    ensures
        request_keys_prefix(requests, m) == request_keys_prefix(requests, n),
    decreases m - n,
{
    if n < m {
        lemma_request_keys_error_stable(requests, n, (m - 1) as nat);
    }
}

/// Collects the `(id, type)` keys of a batch entity request, rejecting empty ids,
/// unsupported types and repeated keys.
pub fn parse_entity_request_keys(requests: &[JsonNode]) -> (r: Result<Vec<(String, String)>, String>)
    ensures
        match (r, request_keys_prefix(requests@, requests@.len())) {
            (Ok(keys), Ok(sk)) => key_views(keys@) == sk,
            (Err(e), Err(se)) => e@ == se,
            _ => false,
        },
{
    let mut keys: Vec<(String, String)> = Vec::new();
    let mut i: usize = 0;
    while i < requests.len()
        invariant
            i <= requests.len(),
            request_keys_prefix(requests@, i as nat) is Ok,
            key_views(keys@) == request_keys_prefix(requests@, i as nat)->Ok_0,
        decreases requests.len() - i,
    {
        let req = &requests[i];
        let id = match get_field_str(req, "id") {
            Some(id) if !id.as_str().is_empty() => id,
            _ => {
                proof {
                    lemma_request_keys_error_stable(requests@, (i + 1) as nat, requests@.len());
                }
                return Err(String::from_str("Batch entity request contains an empty id"));
            },
        };
        let t = match get_field_str(req, "type") {
            Some(t) if is_entity_type_exec(t.as_str()) => t,
            _ => {
                proof {
                    lemma_request_keys_error_stable(requests@, (i + 1) as nat, requests@.len());
                }
                return Err(concat2("Unsupported batch entity request type for ", id.as_str()));
            },
        };
        if contains_key(keys.as_slice(), id.as_str(), t.as_str()) {
            proof {
                lemma_request_keys_error_stable(requests@, (i + 1) as nat, requests@.len());
            }
            let mut msg = concat2("Duplicate batch entity request: ", t.as_str());
            append_str(&mut msg, ":");
            append_str(&mut msg, id.as_str());
            return Err(msg);
        }
        let ghost before = keys@;
        keys.push((id, t));
        proof {
            assert(key_views(keys@) =~= key_views(before).push((id@, t@)));
        }
        i = i + 1;
    }
    Ok(keys)
}

/// One entity of a batch entity response, with the JSON text of its data.
pub enum EntityBatchItem {
    Agent(String, String),
    Group(String, String),
    AgentTopic(String, String),
    GroupTopic(String, String),
    IgnoredDefaultTopic,
}

/// The view of an entity item: its kind (0 agent, 1 group, 2 agent topic, 3 group topic,
/// 4 ignored default topic), id and data text.
pub open spec fn item_view(item: EntityBatchItem) -> (int, Seq<char>, Seq<char>) {
    match item {
        EntityBatchItem::Agent(id, d) => (0, id@, d@),
        EntityBatchItem::Group(id, d) => (1, id@, d@),
        EntityBatchItem::AgentTopic(id, d) => (2, id@, d@),
        EntityBatchItem::GroupTopic(id, d) => (3, id@, d@),
        EntityBatchItem::IgnoredDefaultTopic => (4, Seq::empty(), Seq::empty()),
    }
}

pub open spec fn items_view(items: Seq<EntityBatchItem>) -> Seq<(int, Seq<char>, Seq<char>)> {
    items.map_values(|i: EntityBatchItem| item_view(i))
}

/// A topic item whose data reads as a topic DTO: accepted when the DTO carries the
/// response's own id, refused with `mismatch`, the two ids and nothing else otherwise.
pub open spec fn topic_item(id: Seq<char>, data: Seq<char>, kind: int, mismatch: Seq<char>) -> Result<
    (int, Seq<char>, Seq<char>),
    Seq<char>,
> {
    let did = field_str(json_parse(data)->0, "id"@)->0;
    if did != id {
        Err(mismatch + id + ", data="@ + did)
    } else {
        Ok((kind, id, data))
    }
}

/// The item one response entry becomes, or the problem with it, given the keys received
/// before it.
pub open spec fn entity_item_spec(
    item: JsonNode,
    expected: Seq<(Seq<char>, Seq<char>)>,
    received: Seq<(Seq<char>, Seq<char>)>,
) -> Result<(int, Seq<char>, Seq<char>), Seq<char>> {
    match field_str(item, "id"@) {
        Some(id) if id.len() > 0 => match field_str(item, "type"@) {
            Some(t) if is_entity_type(t) => if !expected.contains((id, t)) {
                Err("Unexpected batch entity response: "@ + entity_label(id, t))
            } else if received.contains((id, t)) {
                Err("Duplicate batch entity response: "@ + entity_label(id, t))
            } else {
                match item {
                    JsonNode::Object(entries) => match entry_text(entries@, "data"@) {
                        None => Err("Batch entity response is missing data for "@ + entity_label(id, t)),
                        Some(data) => if t == "agent"@ {
                            match dto_problem(data@, DtoKind::Agent) {
                                Some(p) => Err("Invalid agent DTO for "@ + id + ": "@ + p),
                                None => Ok((0, id, data@)),
                            }
                        } else if t == "group"@ {
                            match dto_problem(data@, DtoKind::Group) {
                                Some(p) => Err("Invalid group DTO for "@ + id + ": "@ + p),
                                None => Ok((1, id, data@)),
                            }
                        } else if id == "default"@ {
                            Ok((4, Seq::empty(), Seq::empty()))
                        } else if t == "agent_topic"@ {
                            match dto_problem(data@, DtoKind::AgentTopic) {
                                Some(p) => Err("Invalid agent topic DTO for "@ + id + ": "@ + p),
                                None => topic_item(id, data@, 2, "Agent topic DTO id mismatch: response="@),
                            }
                        } else {
                            match dto_problem(data@, DtoKind::GroupTopic) {
                                Some(p) => Err("Invalid group topic DTO for "@ + id + ": "@ + p),
                                None => topic_item(id, data@, 3, "Group topic DTO id mismatch: response="@),
                            }
                        },
                    },
                    _ => Err("Batch entity response is missing data for "@ + entity_label(id, t)),
                }
            },
            _ => Err("Unsupported batch entity response type for "@ + id),
        },
        _ => Err("Batch entity response contains an empty id"@),
    }
}

/// The items and received keys of the first `n` response entries, or the first problem.
pub open spec fn entity_results_prefix(
    results: Seq<JsonNode>,
    expected: Seq<(Seq<char>, Seq<char>)>,
    n: nat,
) -> Result<(Seq<(int, Seq<char>, Seq<char>)>, Seq<(Seq<char>, Seq<char>)>), Seq<char>>
    decreases n,
{
    if n == 0 {
        Ok((Seq::empty(), Seq::empty()))
    } else {
        match entity_results_prefix(results, expected, (n - 1) as nat) {
            Err(e) => Err(e),
            Ok((items, received)) => match entity_item_spec(results[n - 1], expected, received) {
                Err(e) => Err(e),
                Ok(it) => Ok(
                    (
                        items.push(it),
                        received.push(
                            (field_str(results[n - 1], "id"@)->0, field_str(results[n - 1], "type"@)->0),
                        ),
                    ),
                ),
            },
        }
    }
}

/// The expected keys, among the first `n`, that were not received.
pub open spec fn missing_keys(
    expected: Seq<(Seq<char>, Seq<char>)>,
    received: Seq<(Seq<char>, Seq<char>)>,
    n: nat,
) -> Seq<Seq<char>>
    decreases n,
{
    if n == 0 {
        Seq::empty()
    } else if received.contains(expected[n - 1]) {
        missing_keys(expected, received, (n - 1) as nat)
    } else {
        missing_keys(expected, received, (n - 1) as nat).push(
            entity_label(expected[n - 1].0, expected[n - 1].1),
        )
    }
}

/// The verdict on a batch entity response.
pub open spec fn entity_results_spec(results: Seq<JsonNode>, expected: Seq<(Seq<char>, Seq<char>)>) -> Result<
    Seq<(int, Seq<char>, Seq<char>)>,
    Seq<char>,
> {
    match entity_results_prefix(results, expected, results.len()) {
        Err(e) => Err(e),
        Ok((items, received)) => {
            let missing = missing_keys(expected, received, expected.len());
            if missing.len() > 0 {
                Err("Batch entity response omitted requested entities: "@ + join(missing, ", "@))
            } else {
                Ok(items)
            }
        },
    }
}

proof fn lemma_entity_results_error_stable(
    results: Seq<JsonNode>,
    expected: Seq<(Seq<char>, Seq<char>)>,
    n: nat,
    m: nat,
)
    requires
        n <= m,
        entity_results_prefix(results, expected, n) is Err,
    ensures
        entity_results_prefix(results, expected, m) == entity_results_prefix(results, expected, n),
    decreases m - n,
{
    if n < m {
        lemma_entity_results_error_stable(results, expected, n, (m - 1) as nat);
    }
}

fn label(id: &str, t: &str) -> (r: String)
    ensures
        r@ == entity_label(id@, t@),
{
    let mut s = concat2(t, ":");
    append_str(&mut s, id);
    s
}

/// Checks one entry of a batch entity response and turns it into an item.
fn entity_item(item: &JsonNode, expected: &[(String, String)], received: &[(String, String)]) -> (r: Result<
    EntityBatchItem,
    String,
>)
    ensures
        match (r, entity_item_spec(*item, key_views(expected@), key_views(received@))) {
            (Ok(it), Ok(si)) => item_view(it) == si,
            (Err(e), Err(se)) => e@ == se,
            _ => false,
        },
{
    let id = match get_field_str(item, "id") {
        Some(id) if !id.as_str().is_empty() => id,
        _ => {
            return Err(String::from_str("Batch entity response contains an empty id"));
        },
    };
    let t = match get_field_str(item, "type") {
        Some(t) if is_entity_type_exec(t.as_str()) => t,
        _ => {
            return Err(concat2("Unsupported batch entity response type for ", id.as_str()));
        },
    };
    if !contains_key(expected, id.as_str(), t.as_str()) {
        let l = label(id.as_str(), t.as_str());
        return Err(concat2("Unexpected batch entity response: ", l.as_str()));
    }
    if contains_key(received, id.as_str(), t.as_str()) {
        let l = label(id.as_str(), t.as_str());
        return Err(concat2("Duplicate batch entity response: ", l.as_str()));
    }
    let data = match item {
        JsonNode::Object(entries) => lookup_entry(entries, "data"),
        _ => None,
    };
    let data = match data {
        Some(d) => d,
        None => {
            let l = label(id.as_str(), t.as_str());
            return Err(concat2("Batch entity response is missing data for ", l.as_str()));
        },
    };
    if str_eq(t.as_str(), "agent") {
        if let Some(p) = check_dto(data.as_str(), DtoKind::Agent) {
            return Err(dto_error("Invalid agent DTO for ", id.as_str(), p.as_str()));
        }
        return Ok(EntityBatchItem::Agent(id, data));
    }
    if str_eq(t.as_str(), "group") {
        if let Some(p) = check_dto(data.as_str(), DtoKind::Group) {
            return Err(dto_error("Invalid group DTO for ", id.as_str(), p.as_str()));
        }
        return Ok(EntityBatchItem::Group(id, data));
    }
    if str_eq(id.as_str(), "default") {
        return Ok(EntityBatchItem::IgnoredDefaultTopic);
    }
    let is_agent_topic = str_eq(t.as_str(), "agent_topic");
    let kind = if is_agent_topic { DtoKind::AgentTopic } else { DtoKind::GroupTopic };
    if let Some(p) = check_dto(data.as_str(), kind) {
        let prefix = if is_agent_topic {
            "Invalid agent topic DTO for "
        } else {
            "Invalid group topic DTO for "
        };
        return Err(dto_error(prefix, id.as_str(), p.as_str()));
    }
    let did = match parse_json(data.as_str()) {
        Ok(d) => get_field_str(&d, "id"),
        Err(_) => None,
    };
    let did = match did {
        Some(did) => did,
        None => {
            proof {
                let d = json_parse(data@)->0;
                let fs = dto_fields(kind);
                assert(first_bad_field(d, fs) is None);
                assert(field_ok(d, fs[0].0, fs[0].1));
            }
            return Err(String::new());
        },
    };
    if !str_eq(did.as_str(), id.as_str()) {
        let mut msg = if is_agent_topic {
            concat2("Agent topic DTO id mismatch: response=", id.as_str())
        } else {
            concat2("Group topic DTO id mismatch: response=", id.as_str())
        };
        append_str(&mut msg, ", data=");
        append_str(&mut msg, did.as_str());
        return Err(msg);
    }
    if is_agent_topic {
        Ok(EntityBatchItem::AgentTopic(id, data))
    } else {
        Ok(EntityBatchItem::GroupTopic(id, data))
    }
}

fn dto_error(prefix: &str, id: &str, problem: &str) -> (r: String)
    ensures
        r@ == prefix@ + id@ + ": "@ + problem@,
{
    let mut msg = concat2(prefix, id);
    append_str(&mut msg, ": ");
    append_str(&mut msg, problem);
    msg
}

/// Checks a batch entity response against the requested keys: each requested entity must
/// come back exactly once, with data that reads as its DTO, and topics must carry their own id.
pub fn parse_entity_batch_results(results: &[JsonNode], expected: &[(String, String)]) -> (r: Result<
    Vec<EntityBatchItem>,
    String,
>)
    ensures
        match (r, entity_results_spec(results@, key_views(expected@))) {
            (Ok(items), Ok(si)) => items_view(items@) == si,
            (Err(e), Err(se)) => e@ == se,
            _ => false,
        },
{
    let ghost ev = key_views(expected@);
    let mut parsed: Vec<EntityBatchItem> = Vec::new();
    let mut received: Vec<(String, String)> = Vec::new();
    let mut i: usize = 0;
    while i < results.len()
        invariant
            i <= results.len(),
            ev == key_views(expected@),
            entity_results_prefix(results@, ev, i as nat) is Ok,
            items_view(parsed@) == entity_results_prefix(results@, ev, i as nat)->Ok_0.0,
            key_views(received@) == entity_results_prefix(results@, ev, i as nat)->Ok_0.1,
        decreases results.len() - i,
    {
        let item = &results[i];
        match entity_item(item, expected, received.as_slice()) {
            Err(e) => {
                proof {
                    lemma_entity_results_error_stable(results@, ev, (i + 1) as nat, results@.len());
                }
                return Err(e);
            },
            Ok(it) => {
                let id = get_field_str(item, "id");
                let t = get_field_str(item, "type");
                let (id, t) = match (id, t) {
                    (Some(id), Some(t)) => (id, t),
                    _ => {
                        assert(false);
                        return Err(String::new());
                    },
                };
                let ghost bp = parsed@;
                let ghost br = received@;
                parsed.push(it);
                received.push((id, t));
                proof {
                    assert(items_view(parsed@) =~= items_view(bp).push(item_view(it)));
                    assert(key_views(received@) =~= key_views(br).push((id@, t@)));
                }
            },
        }
        i = i + 1;
    }
    let mut missing: Vec<String> = Vec::new();
    let mut k: usize = 0;
    let ghost rv = key_views(received@);
    while k < expected.len()
        invariant
            k <= expected.len(),
            ev == key_views(expected@),
            rv == key_views(received@),
            views(missing@) == missing_keys(ev, rv, k as nat),
        decreases expected.len() - k,
    {
        assert(ev[k as int] == (expected@[k as int].0@, expected@[k as int].1@));
        if !contains_key(received.as_slice(), expected[k].0.as_str(), expected[k].1.as_str()) {
            let l = label(expected[k].0.as_str(), expected[k].1.as_str());
            let ghost before = missing@;
            missing.push(l);
            proof {
                lemma_views_push(before, l);
            }
        }
        k = k + 1;
    }
    if missing.len() > 0 {
        let joined = join_strings(missing.as_slice(), ", ");
        return Err(concat2("Batch entity response omitted requested entities: ", joined.as_str()));
    }
    Ok(parsed)
}


} // verus!

verus! {

/// One NDJSON frame of a streamed batch pull: the topic, the JSON text of each message,
/// and the desktop's error for that topic, if any.
pub struct TopicFrame {
    pub topic_id: String,
    pub messages: Vec<String>,
    pub error: Option<String>,
}

/// Why a decoded frame value is not a topic frame, if it is not.
pub open spec fn frame_shape_error(v: JsonNode) -> Option<Seq<char>> {
    if !(v is Object) {
        Some("Malformed topic NDJSON frame: expected an object"@)
    } else if !(field(v, "topicId"@) matches Some(Some(JsonNode::Str(_)))) {
        Some("Malformed topic NDJSON frame: topicId must be a string"@)
    } else if !(field(v, "messages"@) matches Some(Some(JsonNode::Array(_)))) {
        Some("Malformed topic NDJSON frame: messages must be an array"@)
    } else if !(field_null_or_absent(v, "_error"@) || field(v, "_error"@) matches Some(
        Some(JsonNode::Str(_)),
    )) {
        Some("Malformed topic NDJSON frame: _error must be a string"@)
    } else {
        None
    }
}

/// The view of a frame: topic id, message texts, error.
pub open spec fn frame_view(f: TopicFrame) -> (Seq<char>, Seq<Seq<char>>, Option<Seq<char>>) {
    (f.topic_id@, views(f.messages@), match f.error { Some(e) => Some(e@), None => None })
}

/// What a decoded frame value yields.
pub open spec fn frame_from_value(v: JsonNode) -> Result<
    (Seq<char>, Seq<Seq<char>>, Option<Seq<char>>),
    Seq<char>,
> {
    if field(v, "_stream_error"@) is Some {
        Err(
            "Desktop stream error: "@ + match field(v, "_stream_error"@) {
                Some(Some(JsonNode::Str(s))) => s@,
                _ => "invalid stream error payload"@,
            },
        )
    } else if frame_shape_error(v) is Some {
        Err(frame_shape_error(v)->0)
    } else {
        let topic = field_str(v, "topicId"@)->0;
        if topic.len() == 0 {
            Err("Batch pull response contains an empty topicId"@)
        } else {
            Ok(
                (
                    topic,
                    match field(v, "messages"@) {
                        Some(Some(JsonNode::Array(items))) => views(items@),
                        _ => Seq::empty(),
                    },
                    field_str(v, "_error"@),
                ),
            )
        }
    }
}

/// Decodes one NDJSON line of a streamed batch pull.
pub fn parse_topic_ndjson_frame(bytes: &[u8]) -> (r: Result<TopicFrame, String>)
    ensures
        r is Ok ==> valid_utf8(bytes@) && json_parse(decode_utf8(bytes@)) is Some
            && frame_from_value(json_parse(decode_utf8(bytes@))->0) == Ok::<_, Seq<char>>(
            frame_view(r->Ok_0),
        ),
        r is Err ==> !valid_utf8(bytes@) || json_parse(decode_utf8(bytes@)) is None || (
        frame_from_value(json_parse(decode_utf8(bytes@))->0) is Err && r->Err_0@ == frame_from_value(
            json_parse(decode_utf8(bytes@))->0,
        )->Err_0),
{
    let mut owned: Vec<u8> = Vec::new();
    let mut i: usize = 0;
    while i < bytes.len()
        invariant
            i <= bytes.len(),
            owned@ == bytes@.take(i as int),
        decreases bytes.len() - i,
    {
        owned.push(bytes[i]);
        i = i + 1;
        assert(owned@ =~= bytes@.take(i as int));
    }
    assert(owned@ =~= bytes@);
    let text = match string_from_utf8(owned) {
        Ok(t) => t,
        Err(e) => {
            return Err(concat2("Malformed NDJSON frame: ", e.as_str()));
        },
    };
    let value = match parse_json(text.as_str()) {
        Ok(v) => v,
        Err(e) => {
            return Err(concat2("Malformed NDJSON frame: ", e.as_str()));
        },
    };
    match get_field(&value, "_stream_error") {
        Some(Some(JsonNode::Str(s))) => {
            return Err(concat2("Desktop stream error: ", s.as_str()));
        },
        Some(_) => {
            return Err(concat2("Desktop stream error: ", "invalid stream error payload"));
        },
        None => {},
    }
    let is_obj = match &value {
        JsonNode::Object(_) => true,
        _ => false,
    };
    if !is_obj {
        return Err(String::from_str("Malformed topic NDJSON frame: expected an object"));
    }
    let topic_id = match get_field(&value, "topicId") {
        Some(Some(JsonNode::Str(s))) => s,
        _ => {
            return Err(String::from_str("Malformed topic NDJSON frame: topicId must be a string"));
        },
    };
    let messages = match get_field(&value, "messages") {
        Some(Some(JsonNode::Array(items))) => items,
        _ => {
            return Err(String::from_str("Malformed topic NDJSON frame: messages must be an array"));
        },
    };
    let error = match get_field(&value, "_error") {
        None => None,
        Some(Some(JsonNode::Null)) => None,
        Some(Some(JsonNode::Str(s))) => Some(s),
        _ => {
            return Err(String::from_str("Malformed topic NDJSON frame: _error must be a string"));
        },
    };
    if topic_id.as_str().is_empty() {
        return Err(String::from_str("Batch pull response contains an empty topicId"));
    }
    Ok(TopicFrame { topic_id, messages, error })
}


// ------------------------------------------------------------------ the NDJSON stream

/// Index of the first newline byte of `b`, or `b.len()`.
pub open spec fn first_nl(b: Seq<u8>) -> nat
    decreases b.len(),
{
    if b.len() == 0 {
        0
    } else if b[0] == 10 {
        0
    } else {
        1 + first_nl(b.drop_first())
    }
}

proof fn lemma_first_nl(b: Seq<u8>)
    ensures
        first_nl(b) <= b.len(),
        forall|k: int| 0 <= k < first_nl(b) ==> #[trigger] b[k] != 10,
        first_nl(b) < b.len() ==> b[first_nl(b) as int] == 10,
    decreases b.len(),
{
    if b.len() > 0 && b[0] != 10 {
        lemma_first_nl(b.drop_first());
        assert forall|k: int| 0 <= k < first_nl(b) implies #[trigger] b[k] != 10 by {
            if k > 0 {
                assert(b[k] == b.drop_first()[k - 1]);
            }
        }
    }
}

proof fn lemma_first_nl_unique(b: Seq<u8>, k: int)
    requires
        0 <= k <= b.len(),
        forall|j: int| 0 <= j < k ==> #[trigger] b[j] != 10,
        k < b.len() ==> b[k] == 10,
    ensures
        first_nl(b) == k,
    decreases b.len(),
{
    if k > 0 {
        assert forall|j: int| 0 <= j < k - 1 implies #[trigger] b.drop_first()[j] != 10 by {
            assert(b.drop_first()[j] == b[j + 1]);
        }
        lemma_first_nl_unique(b.drop_first(), k - 1);
    }
}

/// The complete lines of a byte stream (each with its newline), leaving out lines that are
/// only a newline.
pub open spec fn ndjson_lines(b: Seq<u8>) -> Seq<Seq<u8>>
    decreases b.len(),
{
    let k = first_nl(b);
    if k >= b.len() {
        Seq::empty()
    } else {
        let line = b.take(k as int + 1);
        let rest = ndjson_lines(b.skip(k as int + 1));
        if line.len() <= 1 {
            rest
        } else {
            seq![line] + rest
        }
    }
}

/// What follows the last newline of a byte stream.
pub open spec fn ndjson_rest(b: Seq<u8>) -> Seq<u8>
    decreases b.len(),
{
    let k = first_nl(b);
    if k >= b.len() {
        b
    } else {
        ndjson_rest(b.skip(k as int + 1))
    }
}

/// Cuts a streamed NDJSON body into lines as the bytes arrive. The buffer holds what came
/// after the last newline.
pub struct NdjsonSplitter {
    pub buffer: Vec<u8>,
}

impl NdjsonSplitter {
    pub fn new() -> (s: NdjsonSplitter)
        ensures
            s.buffer@ == Seq::<u8>::empty(),
    {
        NdjsonSplitter { buffer: Vec::new() }
    }

    /// Takes in a chunk of the body and hands out every line it completes, with its newline;
    /// a line that is only a newline is skipped.
    pub fn push_chunk(&mut self, chunk: &[u8]) -> (lines: Vec<Vec<u8>>)
        ensures
            lines@.map_values(|l: Vec<u8>| l@) == ndjson_lines(old(self).buffer@ + chunk@),
            final(self).buffer@ == ndjson_rest(old(self).buffer@ + chunk@),
    {
        let ghost all = self.buffer@ + chunk@;
        let mut data: Vec<u8> = Vec::new();
        std::mem::swap(&mut data, &mut self.buffer);
        let mut j: usize = 0;
        while j < chunk.len()
            invariant
                j <= chunk.len(),
                data@ == old(self).buffer@ + chunk@.take(j as int),
            decreases chunk.len() - j,
        {
            data.push(chunk[j]);
            j = j + 1;
            assert(data@ =~= old(self).buffer@ + chunk@.take(j as int));
        }
        assert(chunk@.take(chunk.len() as int) =~= chunk@);
        assert(data@ =~= all);
        let mut out: Vec<Vec<u8>> = Vec::new();
        let mut start: usize = 0;
        let mut done = false;
        assert(all.skip(0) =~= all);
        while start < data.len() && !done
            invariant
                start <= data.len(),
                data@ == all,
                done ==> first_nl(all.skip(start as int)) >= all.skip(start as int).len(),
                out@.map_values(|l: Vec<u8>| l@) + ndjson_lines(all.skip(start as int))
                    == ndjson_lines(all),
                ndjson_rest(all.skip(start as int)) == ndjson_rest(all),
            decreases data.len() - start + (if done { 0int } else { 1int }),
        {
            let ghost rest = all.skip(start as int);
            let mut end = start;
            while end < data.len() && data[end] != 10
                invariant
                    start <= end <= data.len(),
                    data@ == all,
                    forall|k: int| start <= k < end ==> #[trigger] data@[k] != 10,
                decreases data.len() - end,
            {
                end = end + 1;
            }
            proof {
                assert forall|k: int| 0 <= k < end - start implies #[trigger] rest[k] != 10 by {
                    assert(rest[k] == data@[start + k]);
                }
                if end < data.len() {
                    assert(rest[end - start] == data@[end as int]);
                }
                lemma_first_nl_unique(rest, (end - start) as int);
            }
            if end == data.len() {
                done = true;
                continue;
            }
            let mut line: Vec<u8> = Vec::new();
            let mut k = start;
            while k <= end
                invariant
                    start <= k <= end + 1,
                    end < data.len(),
                    data@ == all,
                    line@ == data@.subrange(start as int, k as int),
                decreases end + 1 - k,
            {
                line.push(data[k]);
                k = k + 1;
                assert(line@ =~= data@.subrange(start as int, k as int));
            }
            proof {
                assert(rest.take((end - start) + 1) =~= line@);
                assert(rest.skip((end - start) + 1) =~= all.skip(end + 1));
            }
            if line.len() > 1 {
                let ghost before = out@;
                out.push(line);
                proof {
                    assert(out@.map_values(|l: Vec<u8>| l@) =~= before.map_values(|l: Vec<u8>| l@).push(
                        line@,
                    ));
                    assert(before.map_values(|l: Vec<u8>| l@) + ndjson_lines(rest) =~= out@.map_values(
                        |l: Vec<u8>| l@,
                    ) + ndjson_lines(all.skip(end + 1)));
                }
            }
            start = end + 1;
        }
        let mut tail: Vec<u8> = Vec::new();
        let mut k = start;
        while k < data.len()
            invariant
                start <= k <= data.len(),
                data@ == all,
                tail@ == data@.subrange(start as int, k as int),
            decreases data.len() - k,
        {
            tail.push(data[k]);
            k = k + 1;
            assert(tail@ =~= data@.subrange(start as int, k as int));
        }
        proof {
            let rest = all.skip(start as int);
            assert(tail@ =~= rest);
            if start >= data.len() {
                assert(rest =~= Seq::<u8>::empty());
            }
            assert(ndjson_lines(rest) == Seq::<Seq<u8>>::empty());
            assert(out@.map_values(|l: Vec<u8>| l@) + Seq::<Seq<u8>>::empty() =~= out@.map_values(
                |l: Vec<u8>| l@,
            ));
        }
        self.buffer = tail;
        out
    }

    /// At the end of the body: what is left after the last newline, if anything.
    pub fn finish(&mut self) -> (r: Option<Vec<u8>>)
        ensures
            old(self).buffer@.len() == 0 ==> r is None,
            old(self).buffer@.len() > 0 ==> r == Some(old(self).buffer),
            final(self).buffer@ == Seq::<u8>::empty(),
    {
        let mut out: Vec<u8> = Vec::new();
        std::mem::swap(&mut out, &mut self.buffer);
        if out.len() == 0 {
            None
        } else {
            Some(out)
        }
    }
}

/// No byte of the stream is lost: the lines handed out, the empty lines skipped and the
/// remainder make up the bytes taken in.
pub open spec fn all_lines(b: Seq<u8>) -> Seq<Seq<u8>>
    decreases b.len(),
{
    let k = first_nl(b);
    if k >= b.len() {
        Seq::empty()
    } else {
        seq![b.take(k as int + 1)] + all_lines(b.skip(k as int + 1))
    }
}

pub open spec fn flatten_bytes(ls: Seq<Seq<u8>>) -> Seq<u8>
    decreases ls.len(),
{
    if ls.len() == 0 {
        Seq::empty()
    } else {
        ls[0] + flatten_bytes(ls.drop_first())
    }
}

/// Splitting loses nothing: every line (those of only a newline included) followed by the
/// remainder is the stream itself; the lines handed out are exactly those longer than a
/// newline.
pub proof fn lemma_ndjson_split_is_lossless(b: Seq<u8>)
    ensures
        flatten_bytes(all_lines(b)) + ndjson_rest(b) == b,
        ndjson_lines(b) == all_lines(b).filter(|l: Seq<u8>| l.len() > 1),
    decreases b.len(),
{
    lemma_first_nl(b);
    let k = first_nl(b);
    if k < b.len() {
        let rest = b.skip(k as int + 1);
        lemma_ndjson_split_is_lossless(rest);
        let line = b.take(k as int + 1);
        assert(all_lines(b) == seq![line] + all_lines(rest));
        assert((seq![line] + all_lines(rest)).drop_first() =~= all_lines(rest));
        assert(flatten_bytes(all_lines(b)) == line + flatten_bytes(all_lines(rest)));
        assert(line + (flatten_bytes(all_lines(rest)) + ndjson_rest(rest)) =~= b);
        assert(flatten_bytes(all_lines(b)) + ndjson_rest(b) =~= line + (flatten_bytes(all_lines(
            rest,
        )) + ndjson_rest(rest)));
        let f = |l: Seq<u8>| l.len() > 1;
        assert((seq![line] + all_lines(rest)).filter(f) == seq![line].filter(f) + all_lines(
            rest,
        ).filter(f)) by {
            Seq::filter_distributes_over_add(seq![line], all_lines(rest), f);
        }
        reveal_with_fuel(Seq::filter, 2);
        assert(seq![line].filter(f) =~= if line.len() > 1 {
            seq![line]
        } else {
            Seq::<Seq<u8>>::empty()
        }) by {
            assert(seq![line].drop_last() =~= Seq::<Seq<u8>>::empty());
        }
        if line.len() <= 1 {
            assert(Seq::<Seq<u8>>::empty() + all_lines(rest).filter(f) =~= all_lines(rest).filter(f));
        }
    } else {
        assert(flatten_bytes(Seq::<Seq<u8>>::empty()) + b =~= b);
    }
}

// ------------------------------------------------------------------ per-topic outcomes

/// What a decoded stream frame leads to.
pub enum FrameAction {
    /// The frame could not be read: reported as a failure without a topic.
    Failed(BatchPullResult),
    /// The desktop reported an error for the topic, or the topic had no messages.
    Done(BatchPullResult),
    /// The topic's messages (as JSON texts) are to be processed.
    Process(String, Vec<String>),
}

// ------------------------------------------------------------------ attachments of pulled messages

/// Where a pulled attachment is stored and how it is referenced: the known local path, else
/// the default place under `attachments/`.
pub open spec fn attachment_location_spec(hash: Seq<char>, known_path: Option<Seq<char>>) -> (Seq<char>, Seq<char>) {
    match known_path {
        Some(p) => (p, "file://"@ + p),
        None => ("attachments/"@ + hash, "file://attachments/"@ + hash),
    }
}

/// Resolves the local path and source of a pulled attachment.
pub fn attachment_location(hash: &str, known_path: Option<&str>) -> (r: (String, String))
    ensures
        (r.0@, r.1@) == attachment_location_spec(
            hash@,
            match known_path {
                Some(p) => Some(p@),
                None => None,
            },
        ),
{
    match known_path {
        Some(p) => (p.to_string(), concat2("file://", p)),
        None => {
            let internal = concat2("attachments/", hash);
            let src = concat2("file://attachments/", hash);
            (internal, src)
        },
    }
}

/// The fingerprint a pulled message is stored with: the one the desktop sent when it is
/// non-empty; otherwise the caller computes one.
pub fn supplied_content_hash(content_hash: &Option<String>) -> (r: Option<String>)
    ensures
        match content_hash {
            Some(h) => if h@.len() > 0 {
                r == Some(*h)
            } else {
                r is None
            },
            None => r is None,
        },
{
    match content_hash {
        Some(h) => {
            if h.unicode_len() > 0 {
                Some(h.clone())
            } else {
                None
            }
        },
        None => None,
    }
}

// ------------------------------------------------------------------ avatars

/// Largest avatar accepted (16 MiB).
pub const MAX_AVATAR_BYTES: u64 = 16777216;

/// Reads an avatar body under the size limit, chunk by chunk.
pub struct AvatarReader {
    pub bytes: Vec<u8>,
}

pub open spec fn avatar_too_large_msg() -> Seq<char> {
    "Avatar exceeds the 16MB limit"@
}

impl AvatarReader {
    /// Starts reading a body of the announced length; refuses one announced above the limit.
    pub fn start(content_length: Option<u64>) -> (r: Result<AvatarReader, String>)
        ensures
            r is Ok <==> !(content_length is Some && content_length->0 > MAX_AVATAR_BYTES),
            r is Ok ==> r->Ok_0.bytes@.len() == 0,
            r is Err ==> r->Err_0@ == avatar_too_large_msg(),
    {
        match content_length {
            Some(n) => {
                if n > MAX_AVATAR_BYTES {
                    return Err(String::from_str("Avatar exceeds the 16MB limit"));
                }
            },
            None => {},
        }
        Ok(AvatarReader { bytes: Vec::new() })
    }

    /// Appends a chunk, or refuses it when the body would pass the limit.
    pub fn push_chunk(&mut self, chunk: &[u8]) -> (r: Result<(), String>)
        requires
            old(self).bytes@.len() <= MAX_AVATAR_BYTES,
        ensures
            r is Ok <==> old(self).bytes@.len() + chunk@.len() <= MAX_AVATAR_BYTES,
            r is Ok ==> final(self).bytes@ == old(self).bytes@ + chunk@,
            r is Err ==> final(self).bytes@ == old(self).bytes@ && r->Err_0@ == avatar_too_large_msg(),
            final(self).bytes@.len() <= MAX_AVATAR_BYTES,
    {
        if chunk.len() as u64 > MAX_AVATAR_BYTES - self.bytes.len() as u64 {
            return Err(String::from_str("Avatar exceeds the 16MB limit"));
        }
        let ghost before = self.bytes@;
        let mut j: usize = 0;
        while j < chunk.len()
            invariant
                j <= chunk.len(),
                self.bytes@ == before + chunk@.take(j as int),
            decreases chunk.len() - j,
        {
            self.bytes.push(chunk[j]);
            j = j + 1;
            assert(self.bytes@ =~= before + chunk@.take(j as int));
        }
        assert(chunk@.take(chunk.len() as int) =~= chunk@);
        Ok(())
    }
}

/// Attempts an avatar download makes after the first.
pub const AVATAR_MAX_RETRIES: u32 = 3;

/// Wait before the first avatar retry, in milliseconds.
pub const AVATAR_FIRST_DELAY_MS: u64 = 200;

/// What follows a failed avatar attempt.
pub enum AvatarRetry {
    /// Wait this long and try again.
    Retry(u64),
    /// Give up with this error.
    Fail(String),
}

// ------------------------------------------------------------------ endpoints

/// Pulls entities, topics, messages and avatars from the sync server. The requests run in
/// the application; what they ask for and how their answers count is decided here.
pub struct PullExecutor;

impl PullExecutor {
    /// Decides what a frame of the pull stream leads to.
    pub fn frame_action(frame: Result<TopicFrame, String>) -> (r: FrameAction)
        ensures
            match frame {
                Err(e) => r matches FrameAction::Failed(b) && b.topic_id@.len() == 0 && !b.success
                    && b.parsed_count == 0 && b.failed_count == 0 && b.error == Some(e),
                Ok(f) => match f.error {
                    Some(te) => r matches FrameAction::Done(b) && b.topic_id == f.topic_id && !b.success
                        && b.parsed_count == 0 && b.failed_count == 0 && b.error is Some
                        && b.error->0@ == "Desktop error: "@ + te@,
                    None => if f.messages@.len() == 0 {
                        r matches FrameAction::Done(b) && b.topic_id == f.topic_id && b.success
                            && b.parsed_count == 0 && b.failed_count == 0 && b.error is None
                    } else {
                        r matches FrameAction::Process(t, m) && t == f.topic_id && m == f.messages
                    },
                },
            },
    {
        match frame {
            Err(e) => FrameAction::Failed(
                BatchPullResult {
                    topic_id: String::new(),
                    success: false,
                    parsed_count: 0,
                    failed_count: 0,
                    error: Some(e),
                },
            ),
            Ok(f) => match f.error {
                Some(te) => {
                    let msg = concat2("Desktop error: ", te.as_str());
                    FrameAction::Done(
                        BatchPullResult {
                            topic_id: f.topic_id,
                            success: false,
                            parsed_count: 0,
                            failed_count: 0,
                            error: Some(msg),
                        },
                    )
                },
                None => {
                    if f.messages.len() == 0 {
                        FrameAction::Done(
                            BatchPullResult {
                                topic_id: f.topic_id,
                                success: true,
                                parsed_count: 0,
                                failed_count: 0,
                                error: None,
                            },
                        )
                    } else {
                        FrameAction::Process(f.topic_id, f.messages)
                    }
                },
            },
        }
    }

    /// The result of processing a topic's messages.
    pub fn processed_result(topic_id: String, outcome: Result<(usize, usize), String>) -> (r: BatchPullResult)
        ensures
            r.topic_id == topic_id,
            r.success == outcome is Ok,
            outcome is Ok ==> r.parsed_count == outcome->Ok_0.0 && r.failed_count == outcome->Ok_0.1
                && r.error is None,
            outcome is Err ==> r.parsed_count == 0 && r.failed_count == 0 && r.error == Some(
                outcome->Err_0,
            ),
    {
        match outcome {
            Ok((parsed, failed)) => BatchPullResult {
                topic_id,
                success: true,
                parsed_count: parsed,
                failed_count: failed,
                error: None,
            },
            Err(e) => BatchPullResult {
                topic_id,
                success: false,
                parsed_count: 0,
                failed_count: 0,
                error: Some(e),
            },
        }
    }

    /// Decides what follows a failed avatar attempt after `retries` retries: retry with the
    /// doubled delay while retries remain, else fail. `decode` tells a body that could not be
    /// read from a request that failed.
    pub fn avatar_retry(retries: u32, delay_ms: u64, decode: bool, error: &str) -> (r: AvatarRetry)
        requires
            retries <= AVATAR_MAX_RETRIES,
        ensures
            retries < AVATAR_MAX_RETRIES ==> (r matches AvatarRetry::Retry(d) && d == delay_ms),
            retries == AVATAR_MAX_RETRIES ==> (r matches AvatarRetry::Fail(m) && m@ == (if decode {
                "Pull avatar decode failed after 3 retries: "@
            } else {
                "Pull avatar request failed after 3 retries: "@
            }) + error@),
    {
        if retries < AVATAR_MAX_RETRIES {
            AvatarRetry::Retry(delay_ms)
        } else {
            let mut m = if decode {
                String::from_str("Pull avatar decode failed after 3 retries: ")
            } else {
                String::from_str("Pull avatar request failed after 3 retries: ")
            };
            append_str(&mut m, error);
            AvatarRetry::Fail(m)
        }
    }

    /// `{base}/api/mobile-sync/download-entity?id={id}&type={kind}`.
    pub fn download_entity_url(http_url: &str, id: &str, kind: &str) -> (r: String)
        ensures
            r@ == http_url@ + "/api/mobile-sync/download-entity?id="@ + id@ + "&type="@ + kind@,
    {
        let mut s = http_url.to_string();
        append_str(&mut s, "/api/mobile-sync/download-entity?id=");
        append_str(&mut s, id);
        append_str(&mut s, "&type=");
        append_str(&mut s, kind);
        s
    }

    /// `{base}/api/mobile-sync/download-avatar?id={id}&type={owner type}`.
    pub fn download_avatar_url(http_url: &str, owner_id: &str, owner_type: &str) -> (r: String)
        ensures
            r@ == http_url@ + "/api/mobile-sync/download-avatar?id="@ + owner_id@ + "&type="@
                + owner_type@,
    {
        let mut s = http_url.to_string();
        append_str(&mut s, "/api/mobile-sync/download-avatar?id=");
        append_str(&mut s, owner_id);
        append_str(&mut s, "&type=");
        append_str(&mut s, owner_type);
        s
    }

    /// How a pull summary counts: topics that succeeded and topics that failed.
    pub fn pull_counts(results: &Vec<BatchPullResult>) -> (r: (usize, usize))
        ensures
            r.0 + r.1 == results@.len(),
            r.0 == results@.filter(|b: BatchPullResult| b.success).len(),
    {
        let mut ok: usize = 0;
        let mut i: usize = 0;
        while i < results.len()
            invariant
                i <= results.len(),
                ok <= i,
                ok == results@.take(i as int).filter(|b: BatchPullResult| b.success).len(),
            decreases results.len() - i,
        {
            proof {
                let f = |b: BatchPullResult| b.success;
                assert(results@.take(i + 1) =~= results@.take(i as int).push(results@[i as int]));
                results@.take(i as int).lemma_filter_push(results@[i as int], f);
            }
            if results[i].success {
                ok = ok + 1;
            }
            i = i + 1;
        }
        assert(results@.take(results.len() as int) =~= results@);
        (ok, results.len() - ok)
    }
}

} // verus!

use vstd::prelude::*;
use vstd::string::*;
use crate::json::{JsonNode, json_parse, field, get_field, lookup_entry, parse_json};
use crate::text::{concat2, views, lemma_views_push};

verus! {

broadcast use vstd::string::group_string_axioms;

/// The string held by a JSON text, if it parses to a string.
pub open spec fn text_as_str(t: Seq<char>) -> Option<Seq<char>> {
    match json_parse(t) {
        Some(JsonNode::Str(s)) => Some(s@),
        _ => None,
    }
}

/// Whether every element text parses to a string.
pub open spec fn all_strings(items: Seq<String>) -> bool {
    forall|i: int| 0 <= i < items.len() ==> (#[trigger] text_as_str(items[i]@)) is Some
}

/// The strings held by the element texts.
pub open spec fn string_values(items: Seq<String>) -> Seq<Seq<char>> {
    items.map_values(|t: String| text_as_str(t@)->0)
}


pub proof fn lemma_string_values_push(v: Seq<String>, x: String)
    ensures
        string_values(v.push(x)) == string_values(v).push(text_as_str(x@)->0),
{
    assert(string_values(v.push(x)) =~= string_values(v).push(text_as_str(x@)->0));
}

/// Parses each element text as a JSON string; `None` when one of them is not a string.
pub fn parse_string_items(items: &Vec<String>) -> (r: Option<Vec<String>>)
    ensures
        r is Some <==> all_strings(items@),
        r is Some ==> views(r->0@) == string_values(items@),
{
    let mut out: Vec<String> = Vec::new();
    let mut i: usize = 0;
    while i < items.len()
        invariant
            i <= items.len(),
            forall|k: int| 0 <= k < i ==> (#[trigger] text_as_str(items@[k]@)) is Some,
            views(out@) == string_values(items@.take(i as int)),
        decreases items.len() - i,
    {
        let parsed = parse_json(items[i].as_str());
        match parsed {
            Ok(JsonNode::Str(s)) => {
                assert(text_as_str(items@[i as int]@) == Some(s@));
                let ghost before = out@;
                out.push(s);
                proof {
                    assert(items@.take((i + 1) as int) =~= items@.take(i as int).push(items@[i as int]));
                    lemma_views_push(before, s);
                    lemma_string_values_push(items@.take(i as int), items@[i as int]);
                }
            },
            _ => {
                assert(text_as_str(items@[i as int]@) is None);
                return None;
            },
        }
        i = i + 1;
    }
    assert(items@.take(items.len() as int) =~= items@);
    Some(out)
}

pub open spec fn malformed_topic_entry_msg() -> Seq<char> {
    "Malformed topic entry in SYNC_DIFF_RESULTS_BATCH"@
}

/// The `toPull` ids of one topic entry, or the error message.
pub open spec fn to_pull_spec(topic_id: Seq<char>, v: JsonNode) -> Result<Seq<Seq<char>>, Seq<char>> {
    match field(v, "toPull"@) {
        None => Ok(Seq::empty()),
        Some(Some(JsonNode::Null)) => Ok(Seq::empty()),
        Some(Some(JsonNode::Array(items))) => if all_strings(items@) {
            Ok(string_values(items@))
        } else {
            Err("Invalid toPull id for topic "@ + topic_id)
        },
        _ => Err("toPull must be an array for topic "@ + topic_id),
    }
}

/// The `toPush` flag of one topic entry, or the error message.
pub open spec fn to_push_spec(topic_id: Seq<char>, v: JsonNode) -> Result<bool, Seq<char>> {
    match field(v, "toPush"@) {
        None => Ok(false),
        Some(Some(JsonNode::Null)) => Ok(false),
        Some(Some(JsonNode::Bool(b))) => Ok(b),
        _ => Err("toPush must be a boolean for topic "@ + topic_id),
    }
}

/// The actions of one topic entry: whether to push, and which messages to pull.
pub open spec fn topic_actions_spec(topic_id: Seq<char>, v: JsonNode) -> Result<
    (bool, Seq<Seq<char>>),
    Seq<char>,
> {
    if topic_id.len() == 0 || !(v is Object) {
        Err(malformed_topic_entry_msg())
    } else {
        match to_pull_spec(topic_id, v) {
            Err(e) => Err(e),
            Ok(pull) => match to_push_spec(topic_id, v) {
                Err(e) => Err(e),
                Ok(push) => Ok((push, pull)),
            },
        }
    }
}

/// Reads the `toPush` / `toPull` actions of one topic in a diff batch.
pub fn parse_topic_actions(topic_id: &str, result: &JsonNode) -> (r: Result<
    (bool, Vec<String>),
    String,
>)
    ensures
        match (r, topic_actions_spec(topic_id@, *result)) {
            (Ok((p, ids)), Ok((sp, sids))) => p == sp && views(ids@) == sids,
            (Err(e), Err(se)) => e@ == se,
            _ => false,
        },
{
    let is_obj = match result {
        JsonNode::Object(_) => true,
        _ => false,
    };
    if topic_id.is_empty() || !is_obj {
        return Err(String::from_str("Malformed topic entry in SYNC_DIFF_RESULTS_BATCH"));
    }
    assert(topic_id@.len() != 0);
    let to_pull_ids: Vec<String> = match get_field(result, "toPull") {
        None => {
            let e: Vec<String> = Vec::new();
            assert(views(e@) =~= Seq::<Seq<char>>::empty());
            e
        },
        Some(Some(JsonNode::Null)) => {
            let e: Vec<String> = Vec::new();
            assert(views(e@) =~= Seq::<Seq<char>>::empty());
            e
        },
        Some(Some(JsonNode::Array(items))) => match parse_string_items(&items) {
            Some(ids) => ids,
            None => {
                return Err(concat2("Invalid toPull id for topic ", topic_id));
            },
        },
        _ => {
            return Err(concat2("toPull must be an array for topic ", topic_id));
        },
    };
    let to_push: bool = match get_field(result, "toPush") {
        None => false,
        Some(Some(JsonNode::Null)) => false,
        Some(Some(JsonNode::Bool(b))) => b,
        _ => {
            return Err(concat2("toPush must be a boolean for topic ", topic_id));
        },
    };
    Ok((to_push, to_pull_ids))
}

} // verus!

verus! {

/// What a diff-results batch asks for, topic by topic, up to the first malformed entry.
pub struct DiffPlanView {
    pub completed: Seq<Seq<char>>,
    pub push: Seq<Seq<char>>,
    pub pull: Seq<(Seq<char>, Seq<Seq<char>>)>,
    pub error: Option<Seq<char>>,
}

/// The executable form of `DiffPlanView`.
pub struct DiffBatchPlan {
    /// Topics that need neither push nor pull (already done), in batch order.
    pub completed_topic_ids: Vec<String>,
    /// Topics whose messages are pushed, in batch order.
    pub push_topic_ids: Vec<String>,
    /// Topics with the message ids to pull (empty id list never occurs), in batch order.
    pub pull_batch: Vec<(String, Vec<String>)>,
    /// The error that stopped the batch, if any; the lists hold what came before it.
    pub error: Option<String>,
}

pub open spec fn pull_view(p: Seq<(String, Vec<String>)>) -> Seq<(Seq<char>, Seq<Seq<char>>)> {
    p.map_values(|e: (String, Vec<String>)| (e.0@, views(e.1@)))
}

pub open spec fn plan_view(p: DiffBatchPlan) -> DiffPlanView {
    DiffPlanView {
        completed: views(p.completed_topic_ids@),
        push: views(p.push_topic_ids@),
        pull: pull_view(p.pull_batch@),
        error: match p.error {
            Some(e) => Some(e@),
            None => None,
        },
    }
}

/// The actions of one `(topic id, entry text)` pair of the results object.
pub open spec fn entry_actions(e: (String, String)) -> Result<(bool, Seq<Seq<char>>), Seq<char>> {
    match json_parse(e.1@) {
        Some(v) => topic_actions_spec(e.0@, v),
        None => Err(malformed_topic_entry_msg()),
    }
}

pub open spec fn empty_plan() -> DiffPlanView {
    DiffPlanView { completed: Seq::empty(), push: Seq::empty(), pull: Seq::empty(), error: None }
}

/// One topic's effect on the plan.
pub open spec fn plan_step(prev: DiffPlanView, e: (String, String)) -> DiffPlanView {
    match entry_actions(e) {
        Err(msg) => DiffPlanView { error: Some(msg), ..prev },
        Ok((push, pull)) => if !push && pull.len() == 0 {
            DiffPlanView { completed: prev.completed.push(e.0@), ..prev }
        } else {
            DiffPlanView {
                push: if push {
                    prev.push.push(e.0@)
                } else {
                    prev.push
                },
                pull: if pull.len() > 0 {
                    prev.pull.push((e.0@, pull))
                } else {
                    prev.pull
                },
                ..prev
            }
        },
    }
}

/// How one well-formed topic entry is sorted: it is completed exactly when it has nothing to
/// push and nothing to pull; it is pushed exactly when it asks to be; and when its `toPull`
/// is non-empty it is pulled with exactly those ids. The other lists are left as they were.
pub proof fn lemma_topic_sorted_by_its_actions(
    prev: DiffPlanView,
    e: (String, String),
    push: bool,
    pull: Seq<Seq<char>>,
)
    requires
        entry_actions(e) == Ok::<(bool, Seq<Seq<char>>), Seq<char>>((push, pull)),
    ensures
        plan_step(prev, e).error == prev.error,
        plan_step(prev, e).completed == (if !push && pull.len() == 0 {
            prev.completed.push(e.0@)
        } else {
            prev.completed
        }),
        plan_step(prev, e).push == (if push {
            prev.push.push(e.0@)
        } else {
            prev.push
        }),
        plan_step(prev, e).pull == (if pull.len() > 0 {
            prev.pull.push((e.0@, pull))
        } else {
            prev.pull
        }),
{
}

/// The plan after the first `n` entries; an error stops further entries.
pub open spec fn plan_prefix(entries: Seq<(String, String)>, n: nat) -> DiffPlanView
    decreases n,
{
    if n == 0 {
        empty_plan()
    } else {
        let prev = plan_prefix(entries, (n - 1) as nat);
        if prev.error is Some {
            prev
        } else {
            plan_step(prev, entries[n - 1])
        }
    }
}

/// The plan for a whole `SYNC_DIFF_RESULTS_BATCH` payload.
pub open spec fn diff_plan_spec(payload: JsonNode) -> DiffPlanView {
    match field(payload, "results"@) {
        Some(Some(JsonNode::Object(entries))) => plan_prefix(entries@, entries@.len()),
        _ => DiffPlanView {
            error: Some("SYNC_DIFF_RESULTS_BATCH.results must be an object"@),
            ..empty_plan()
        },
    }
}

proof fn lemma_plan_prefix_error_stable(entries: Seq<(String, String)>, n: nat, m: nat)
    requires
        n <= m,
        plan_prefix(entries, n).error is Some,
    ensures
        plan_prefix(entries, m) == plan_prefix(entries, n),
    decreases m - n,
{
    if n < m {
        lemma_plan_prefix_error_stable(entries, n, (m - 1) as nat);
    }
}

/// Applies a batch of differences the sync server reported.
pub struct BatchDiffHandler;

impl BatchDiffHandler {
    /// Sorts the topics of a diff-results batch into completed, push and pull work.
    pub fn plan_diff_batch(payload: &JsonNode) -> (plan: DiffBatchPlan)
        ensures
            plan_view(plan) == diff_plan_spec(*payload),
    {
        let mut plan = DiffBatchPlan {
            completed_topic_ids: Vec::new(),
            push_topic_ids: Vec::new(),
            pull_batch: Vec::new(),
            error: None,
        };
        proof {
            assert(views(plan.completed_topic_ids@) =~= Seq::<Seq<char>>::empty());
            assert(views(plan.push_topic_ids@) =~= Seq::<Seq<char>>::empty());
            assert(pull_view(plan.pull_batch@) =~= Seq::<(Seq<char>, Seq<Seq<char>>)>::empty());
        }
        let entries = match get_field(payload, "results") {
            Some(Some(JsonNode::Object(entries))) => entries,
            _ => {
                plan.error = Some(String::from_str("SYNC_DIFF_RESULTS_BATCH.results must be an object"));
                return plan;
            },
        };
        let mut i: usize = 0;
        while i < entries.len()
            invariant
                i <= entries.len(),
                plan_view(plan) == plan_prefix(entries@, i as nat),
                plan.error is None,
                diff_plan_spec(*payload) == plan_prefix(entries@, entries@.len()),
            decreases entries.len() - i,
        {
            let topic_id = &entries[i].0;
            let parsed = parse_json(entries[i].1.as_str());
            let actions = match parsed {
                Ok(v) => parse_topic_actions(topic_id.as_str(), &v),
                Err(_) => Err(String::from_str("Malformed topic entry in SYNC_DIFF_RESULTS_BATCH")),
            };
            let ghost prev = plan_view(plan);
            match actions {
                Err(e) => {
                    plan.error = Some(e);
                    proof {
                        assert(plan_view(plan) == plan_prefix(entries@, (i + 1) as nat));
                        lemma_plan_prefix_error_stable(entries@, (i + 1) as nat, entries@.len());
                    }
                    return plan;
                },
                Ok((to_push, to_pull_ids)) => {
                    if !to_push && to_pull_ids.len() == 0 {
                        let ghost before = plan.completed_topic_ids@;
                        plan.completed_topic_ids.push(topic_id.clone());
                        proof {
                            lemma_views_push(before, *topic_id);
                        }
                    } else {
                        if to_push {
                            let ghost before = plan.push_topic_ids@;
                            plan.push_topic_ids.push(topic_id.clone());
                            proof {
                                lemma_views_push(before, *topic_id);
                            }
                        }
                        if to_pull_ids.len() > 0 {
                            let ghost before = plan.pull_batch@;
                            let entry = (topic_id.clone(), to_pull_ids);
                            plan.pull_batch.push(entry);
                            proof {
                                assert(pull_view(plan.pull_batch@) =~= pull_view(before).push(
                                    (entry.0@, views(entry.1@)),
                                ));
                            }
                        }
                    }
                    proof {
                        assert(plan_view(plan) == plan_prefix(entries@, (i + 1) as nat));
                    }
                },
            }
            i = i + 1;
        }
        plan
    }
}

} // verus!

use vstd::prelude::*;
use vstd::string::*;
use crate::json::{JsonNode, json_parse, field, get_field, parse_json};
use crate::text::{
    append_str, concat2, contains_seq, contains_str, decimal_signed, is_blank, parse_i64_chars,
    parse_i64_spec, push_decimal_i64, str_eq, trim, trim_str, chars_of,
};
use crate::system::{new_uuid_v4, now_millis};

verus! {

broadcast use vstd::string::group_string_axioms;

/// A scheduled follow-up job, as stored.
pub struct LifecycleJob {
    pub job_id: String,
    pub owner_id: String,
    pub owner_type: String,
    pub topic_id: String,
    pub responder_agent_id: Option<String>,
    pub action: String,
    pub intent: String,
    pub condition: Option<String>,
    pub status: String,
    pub scheduled_at: i64,
    pub created_at: i64,
    pub updated_at: i64,
    pub attempt_count: i64,
    pub max_attempts: i64,
    pub source_message_id: Option<String>,
    pub response_message_id: Option<String>,
    pub failure_reason: Option<String>,
    pub completed_at: Option<i64>,
}

/// A request to schedule a follow-up job.
pub struct CreateLifecycleJobInput {
    pub owner_id: String,
    pub owner_type: String,
    pub topic_id: String,
    pub responder_agent_id: Option<String>,
    pub action: String,
    pub intent: String,
    pub condition: Option<String>,
    pub scheduled_at: i64,
    pub source_message_id: Option<String>,
    pub max_attempts: Option<i64>,
}

/// Why a job request is refused, if it is.
pub open spec fn input_error(input: CreateLifecycleJobInput) -> Option<Seq<char>> {
    if trim(input.owner_id@).len() == 0 || trim(input.topic_id@).len() == 0 {
        Some("生命周期任务缺少目标会话"@)
    } else if input.owner_type@ != "agent"@ && input.owner_type@ != "group"@ {
        Some("生命周期任务 ownerType 无效"@)
    } else if input.action@ != "schedule_message"@ && input.action@ != "continue_message"@ {
        Some("不支持的生命周期动作"@)
    } else if trim(input.intent@).len() == 0 {
        Some("生命周期任务 intent 不能为空"@)
    } else {
        None
    }
}

/// Checks a job request: a target, a known owner type and action, and an intent.
pub fn validate_input(input: &CreateLifecycleJobInput) -> (r: Result<(), String>)
    ensures
        match r {
            Ok(()) => input_error(*input) is None,
            Err(e) => input_error(*input) == Some(e@),
        },
{
    if is_blank(input.owner_id.as_str()) || is_blank(input.topic_id.as_str()) {
        return Err(String::from_str("生命周期任务缺少目标会话"));
    }
    if !str_eq(input.owner_type.as_str(), "agent") && !str_eq(input.owner_type.as_str(), "group") {
        return Err(String::from_str("生命周期任务 ownerType 无效"));
    }
    if !str_eq(input.action.as_str(), "schedule_message") && !str_eq(input.action.as_str(), "continue_message") {
        return Err(String::from_str("不支持的生命周期动作"));
    }
    if is_blank(input.intent.as_str()) {
        return Err(String::from_str("生命周期任务 intent 不能为空"));
    }
    Ok(())
}

pub open spec fn clamp_spec(v: int, lo: int, hi: int) -> int {
    if v < lo {
        lo
    } else if v > hi {
        hi
    } else {
        v
    }
}

pub fn clamp_i64(v: i64, lo: i64, hi: i64) -> (r: i64)
    requires
        lo <= hi,
    ensures
        r == clamp_spec(v as int, lo as int, hi as int),
{
    if v < lo {
        lo
    } else if v > hi {
        hi
    } else {
        v
    }
}

/// What inserting a job writes besides the request itself.
pub struct JobInsertPlan {
    pub job_id: String,
    pub idempotency_key: String,
    pub scheduled_at: i64,
    pub max_attempts: i64,
    pub intent: String,
}

/// A job runs no earlier than a second from now.
pub open spec fn insert_scheduled_at(input: CreateLifecycleJobInput, now: i64) -> int {
    if input.scheduled_at as int > now + 1000 {
        input.scheduled_at as int
    } else {
        now + 1000
    }
}

/// A job runs when it was asked to, but never earlier than a second from now: the planned
/// time is the later of the requested time and `now + 1000`.
pub proof fn lemma_insert_time_is_the_later_one(input: CreateLifecycleJobInput, now: i64)
    ensures
        insert_scheduled_at(input, now) >= input.scheduled_at,
        insert_scheduled_at(input, now) >= now + 1000,
        insert_scheduled_at(input, now) == input.scheduled_at || insert_scheduled_at(input, now)
            == now + 1000,
{
}

/// `source:action:owner:topic:scheduled_at`, which makes repeated inserts of one job collapse.
pub open spec fn idempotency_key_spec(input: CreateLifecycleJobInput, scheduled_at: int) -> Seq<char> {
    (match input.source_message_id {
        Some(s) => s@,
        None => "manual"@,
    }) + ":"@ + input.action@ + ":"@ + input.owner_id@ + ":"@ + input.topic_id@ + ":"@
        + decimal_signed(scheduled_at)
}

/// Plans the insertion of a job at time `now`, naming it with `job_uuid`.
pub fn plan_insert_job_at(input: &CreateLifecycleJobInput, now: i64, job_uuid: &str) -> (r: Result<JobInsertPlan, String>)
    requires
        now <= i64::MAX - 1000,
    ensures
        match r {
            Err(e) => input_error(*input) == Some(e@),
            Ok(p) => input_error(*input) is None && p.job_id@ == "life_job_"@ + job_uuid@
                && p.scheduled_at == insert_scheduled_at(*input, now) && p.scheduled_at
                >= input.scheduled_at && p.scheduled_at >= now + 1000 && (p.scheduled_at
                == input.scheduled_at || p.scheduled_at == now + 1000) && p.idempotency_key@
                == idempotency_key_spec(*input, p.scheduled_at as int) && p.max_attempts
                == clamp_spec(
                match input.max_attempts {
                    Some(m) => m as int,
                    None => 3,
                },
                1,
                8,
            ) && p.intent@ == trim(input.intent@),
        },
{
    validate_input(input)?;
    let earliest = now + 1000;
    let scheduled_at = if input.scheduled_at > earliest {
        input.scheduled_at
    } else {
        earliest
    };
    let job_id = concat2("life_job_", job_uuid);
    let mut key = match &input.source_message_id {
        Some(s) => s.clone(),
        None => String::from_str("manual"),
    };
    append_str(&mut key, ":");
    append_str(&mut key, input.action.as_str());
    append_str(&mut key, ":");
    append_str(&mut key, input.owner_id.as_str());
    append_str(&mut key, ":");
    append_str(&mut key, input.topic_id.as_str());
    append_str(&mut key, ":");
    push_decimal_i64(&mut key, scheduled_at);
    let max_attempts = clamp_i64(
        match input.max_attempts {
            Some(m) => m,
            None => 3,
        },
        1,
        8,
    );
    Ok(JobInsertPlan {
        job_id,
        idempotency_key: key,
        scheduled_at,
        max_attempts,
        intent: trim_str(input.intent.as_str()),
    })
}

/// Plans the insertion of a job now, under a fresh `life_job_<uuid>` id.
pub fn plan_insert_job(input: &CreateLifecycleJobInput) -> (r: Result<JobInsertPlan, String>)
    ensures
        match r {
            Err(e) => input_error(*input) == Some(e@) || e@ == "生命周期任务时间超出范围"@,
            Ok(p) => input_error(*input) is None && p.job_id@.len() == 45 && exists|now: i64|
                p.scheduled_at == insert_scheduled_at(*input, now) && p.idempotency_key@
                    == idempotency_key_spec(*input, p.scheduled_at as int),
        },
{
    let now = now_millis();
    if now > i64::MAX - 1000 {
        return Err(String::from_str("生命周期任务时间超出范围"));
    }
    let uuid = new_uuid_v4();
    let r = plan_insert_job_at(input, now, uuid.as_str());
    proof {
        reveal_strlit("life_job_");
    }
    r
}

/// How many due jobs one claim takes: 4 by default, between 1 and 20.
pub fn claim_limit(limit: Option<i64>) -> (r: i64)
    ensures
        r == clamp_spec(match limit { Some(l) => l as int, None => 4 }, 1, 20),
{
    clamp_i64(match limit { Some(l) => l, None => 4 }, 1, 20)
}

/// A claimed job is leased for ten minutes.
pub fn lease_until(now: i64) -> (r: i64)
    requires
        now <= i64::MAX - 600000,
    ensures
        r == now + 600000,
{
    now + 600000
}

/// A follow-up conditioned on the user not replying is dropped once the user wrote after
/// the job was created.
pub fn should_cancel_for_reply(job: &LifecycleJob, latest_user_timestamp: Option<i64>) -> (r: bool)
    ensures
        r == (match job.condition {
            Some(c) => c@ == "user_has_not_replied"@,
            None => false,
        } && match latest_user_timestamp {
            Some(t) => t > job.created_at,
            None => false,
        }),
{
    let conditional = match &job.condition {
        Some(c) => str_eq(c.as_str(), "user_has_not_replied"),
        None => false,
    };
    conditional && match latest_user_timestamp {
        Some(t) => t > job.created_at,
        None => false,
    }
}

/// The job as a claim returns it: running, one more attempt, updated now.
pub fn claimed_job(job: LifecycleJob, now: i64) -> (r: LifecycleJob)
    requires
        job.attempt_count < i64::MAX,
    ensures
        r.status@ == "running"@,
        r.attempt_count == job.attempt_count + 1,
        r.updated_at == now,
        r == (LifecycleJob {
            status: r.status,
            attempt_count: r.attempt_count,
            updated_at: r.updated_at,
            ..job
        }),
{
    LifecycleJob {
        status: String::from_str("running"),
        attempt_count: job.attempt_count + 1,
        updated_at: now,
        ..job
    }
}

/// Checks the id of the reply that completes a job; returns it trimmed.
pub fn completion_response_id(response_message_id: &str) -> (r: Result<String, String>)
    ensures
        match r {
            Ok(id) => id@ == trim(response_message_id@) && id@.len() > 0,
            Err(e) => trim(response_message_id@).len() == 0 && e@ == "生命周期任务缺少回复消息 ID"@,
        },
{
    let id = trim_str(response_message_id);
    if id.as_str().is_empty() {
        return Err(String::from_str("生命周期任务缺少回复消息 ID"));
    }
    Ok(id)
}

/// When a failed job is retried: 300 s by default, between 10 s and a day.
pub fn retry_at(now: i64, retry_delay_seconds: Option<i64>) -> (r: i64)
    requires
        now <= i64::MAX - 86400000,
    ensures
        r == now + clamp_spec(match retry_delay_seconds { Some(d) => d as int, None => 300 }, 10, 86400) * 1000,
{
    let delay = clamp_i64(match retry_delay_seconds { Some(d) => d, None => 300 }, 10, 86400);
    now + delay * 1000
}

} // verus!

verus! {

/// The characters that have a meaning in a regex (`regex_syntax::is_meta_character`).
pub open spec fn is_regex_meta(c: char) -> bool {
    c == '\\' || c == '.' || c == '+' || c == '*' || c == '?' || c == '(' || c == ')' || c == '|'
        || c == '[' || c == ']' || c == '{' || c == '}' || c == '^' || c == '$' || c == '#'
        || c == '&' || c == '-' || c == '~'
}

/// `regex::escape`: the pattern that matches `text` literally, each meta character preceded
/// by a backslash.
pub open spec fn regex_escaped(text: Seq<char>) -> Seq<char>
    decreases text.len(),
{
    if text.len() == 0 {
        Seq::empty()
    } else {
        let c = text.last();
        regex_escaped(text.drop_last()) + if is_regex_meta(c) {
            seq!['\\', c]
        } else {
            seq![c]
        }
    }
}

/// One entry for each non-overlapping match of `pattern` in `text`, in order: the text of
/// capture group 1, or `None` when that group took no part in the match; `None` as a whole
/// when the pattern does not compile.
pub uninterp spec fn regex_group1_matches(pattern: Seq<char>, text: Seq<char>) -> Option<
    Seq<Option<Seq<char>>>,
>;

/// `text` with every match of `pattern` replaced by the empty string; `None` when the
/// pattern does not compile.
pub uninterp spec fn regex_removed(pattern: Seq<char>, text: Seq<char>) -> Option<Seq<char>>;

/// The Unix time in milliseconds of an RFC 3339 timestamp, `None` when `text` is not one.
pub uninterp spec fn rfc3339_millis(text: Seq<char>) -> Option<i64>;

/// `regex::escape` (`regex_syntax::escape`), which pushes a backslash before each meta
/// character and then the character itself.
#[verifier::external_body]
fn regex_escape(text: &str) -> (r: String)
    ensures
        r@ == regex_escaped(text@),
{
    regex::escape(text)
}

/// `regex::Regex::new(pattern)` and `Regex::captures_iter(text)`, with `Captures::get(1)`
/// read for each match.
#[verifier::external_body]
fn regex_group1_all(pattern: &str, text: &str) -> (r: Result<Vec<Option<String>>, String>)
    ensures
        r is Ok <==> regex_group1_matches(pattern@, text@) is Some,
        r is Ok ==> r->Ok_0@.map_values(|o: Option<String>| opt_string_view(o))
            == regex_group1_matches(pattern@, text@)->0,
{
    let re = regex::Regex::new(pattern).map_err(|e| e.to_string())?;
    Ok(re.captures_iter(text).map(|c| c.get(1).map(|m| m.as_str().to_string())).collect())
}

/// `regex::Regex::new(pattern)` and `Regex::replace_all(text, "")`.
#[verifier::external_body]
fn regex_remove_all(pattern: &str, text: &str) -> (r: Result<String, String>)
    ensures
        r is Ok <==> regex_removed(pattern@, text@) is Some,
        r is Ok ==> r->Ok_0@ == regex_removed(pattern@, text@)->0,
{
    let re = regex::Regex::new(pattern).map_err(|e| e.to_string())?;
    Ok(re.replace_all(text, "").into_owned())
}

/// `chrono::DateTime::parse_from_rfc3339(text)` and `timestamp_millis`.
#[verifier::external_body]
fn parse_rfc3339_millis(text: &str) -> (r: Option<i64>)
    ensures
        r == rfc3339_millis(text@),
{
    chrono::DateTime::parse_from_rfc3339(text).ok().map(|t| t.timestamp_millis())
}

pub open spec fn directive_start() -> Seq<char> {
    "<<<[VCP_LIFECYCLE]>>>"@
}

/// The pattern that finds directive blocks: start marker, the body, end marker.
pub open spec fn directive_pattern() -> Seq<char> {
    "(?s)"@ + regex_escaped("<<<[VCP_LIFECYCLE]>>>"@) + "\\s*(.*?)\\s*"@ + regex_escaped(
        "<<<[END_VCP_LIFECYCLE]>>>"@,
    )
}

/// A lifecycle directive the model wrote into its reply.
pub struct LifecycleDirective {
    pub action: String,
    pub intent: String,
    pub delay_seconds: Option<i64>,
    pub scheduled_at: Option<String>,
    pub condition: Option<String>,
}

/// An optional string field: absent or null is `Some(None)`, a string `Some(Some(s))`,
/// anything else `None` (not a directive).
pub open spec fn opt_string_field(v: JsonNode, key: Seq<char>) -> Option<Option<Seq<char>>> {
    match field(v, key) {
        None => Some(None),
        Some(Some(JsonNode::Null)) => Some(None),
        Some(Some(JsonNode::Str(s))) => Some(Some(s@)),
        _ => None,
    }
}

/// An optional `i64` field, like `opt_string_field`.
pub open spec fn opt_i64_field(v: JsonNode, key: Seq<char>) -> Option<Option<int>> {
    match field(v, key) {
        None => Some(None),
        Some(Some(JsonNode::Null)) => Some(None),
        Some(Some(JsonNode::Number(n))) => match parse_i64_spec(n@) {
            Some(x) => Some(Some(x)),
            None => None,
        },
        _ => None,
    }
}

/// The directive a JSON text describes, as (action, intent, delay, time, condition).
pub open spec fn directive_spec(t: Seq<char>) -> Option<
    (Seq<char>, Seq<char>, Option<int>, Option<Seq<char>>, Option<Seq<char>>),
> {
    match json_parse(t) {
        Some(v) => if !(v is Object) {
            None
        } else {
            match (field(v, "action"@), field(v, "intent"@)) {
                (Some(Some(JsonNode::Str(a))), Some(Some(JsonNode::Str(i)))) => match (
                    opt_i64_field(v, "delaySeconds"@),
                    opt_string_field(v, "scheduledAt"@),
                    opt_string_field(v, "condition"@),
                ) {
                    (Some(d), Some(s), Some(c)) => Some((a@, i@, d, s, c)),
                    _ => None,
                },
                _ => None,
            }
        },
        None => None,
    }
}

pub open spec fn opt_string_view(o: Option<String>) -> Option<Seq<char>> {
    match o {
        Some(s) => Some(s@),
        None => None,
    }
}

pub open spec fn directive_view(d: LifecycleDirective) -> (Seq<char>, Seq<char>, Option<int>, Option<Seq<char>>, Option<Seq<char>>) {
    (
        d.action@,
        d.intent@,
        match d.delay_seconds {
            Some(x) => Some(x as int),
            None => None,
        },
        opt_string_view(d.scheduled_at),
        opt_string_view(d.condition),
    )
}

fn read_opt_string(v: &JsonNode, key: &str) -> (r: Option<Option<String>>)
    ensures
        match r {
            None => opt_string_field(*v, key@) is None,
            Some(o) => opt_string_field(*v, key@) == Some(opt_string_view(o)),
        },
{
    match get_field(v, key) {
        None => Some(None),
        Some(Some(JsonNode::Null)) => Some(None),
        Some(Some(JsonNode::Str(s))) => Some(Some(s)),
        _ => None,
    }
}

fn read_opt_i64(v: &JsonNode, key: &str) -> (r: Option<Option<i64>>)
    ensures
        match r {
            None => opt_i64_field(*v, key@) is None,
            Some(None) => opt_i64_field(*v, key@) == Some(None::<int>),
            Some(Some(x)) => opt_i64_field(*v, key@) == Some(Some(x as int)),
        },
{
    match get_field(v, key) {
        None => Some(None),
        Some(Some(JsonNode::Null)) => Some(None),
        Some(Some(JsonNode::Number(n))) => {
            let digits = chars_of(n.as_str());
            match parse_i64_chars(digits.as_slice()) {
                Some(x) => Some(Some(x)),
                None => None,
            }
        },
        _ => None,
    }
}

/// Reads a directive from its JSON text; `None` when the text does not describe one.
pub fn parse_directive(text: &str) -> (r: Option<LifecycleDirective>)
    ensures
        match r {
            Some(d) => directive_spec(text@) == Some(directive_view(d)),
            None => directive_spec(text@) is None,
        },
{
    let v = match parse_json(text) {
        Ok(v) => v,
        Err(_) => {
            return None;
        },
    };
    let is_obj = match &v {
        JsonNode::Object(_) => true,
        _ => false,
    };
    if !is_obj {
        return None;
    }
    let action = match get_field(&v, "action") {
        Some(Some(JsonNode::Str(a))) => a,
        _ => {
            return None;
        },
    };
    let intent = match get_field(&v, "intent") {
        Some(Some(JsonNode::Str(i))) => i,
        _ => {
            return None;
        },
    };
    let delay_seconds = read_opt_i64(&v, "delaySeconds")?;
    let scheduled_at = read_opt_string(&v, "scheduledAt")?;
    let condition = read_opt_string(&v, "condition")?;
    Some(LifecycleDirective { action, intent, delay_seconds, scheduled_at, condition })
}

/// When a directive's job runs: its RFC 3339 time (a minute from now when unreadable), or
/// after its delay (3 s for a continuation, 60 s otherwise, between 1 s and a year).
pub open spec fn directive_time(d: (Seq<char>, Seq<char>, Option<int>, Option<Seq<char>>, Option<Seq<char>>), now: i64) -> int {
    match d.3 {
        Some(raw) => match rfc3339_millis(raw) {
            Some(t) => t as int,
            None => now + 60000,
        },
        None => now + clamp_spec(
            match d.2 {
                Some(x) => x,
                None => if d.0 == "continue_message"@ {
                    3
                } else {
                    60
                },
            },
            1,
            31536000,
        ) * 1000,
    }
}

/// Computes when a directive's job runs (see `directive_time`).
pub fn directive_scheduled_at(d: &LifecycleDirective, now: i64) -> (r: i64)
    requires
        now <= i64::MAX - 31536000000,
    ensures
        r == directive_time(directive_view(*d), now),
{
    match &d.scheduled_at {
        Some(raw) => match parse_rfc3339_millis(raw.as_str()) {
            Some(t) => t,
            None => now + 60000,
        },
        None => {
            let default_delay: i64 = if str_eq(d.action.as_str(), "continue_message") {
                3
            } else {
                60
            };
            let delay = clamp_i64(
                match d.delay_seconds {
                    Some(x) => x,
                    None => default_delay,
                },
                1,
                31536000,
            );
            now + delay * 1000
        },
    }
}

/// The job request a directive becomes.
pub open spec fn directive_job_ok(
    job: CreateLifecycleJobInput,
    d: (Seq<char>, Seq<char>, Option<int>, Option<Seq<char>>, Option<Seq<char>>),
    owner_id: Seq<char>,
    owner_type: Seq<char>,
    topic_id: Seq<char>,
    responder: Option<Seq<char>>,
    source_message_id: Seq<char>,
    now: i64,
) -> bool {
    &&& job.owner_id@ == owner_id
    &&& job.owner_type@ == owner_type
    &&& job.topic_id@ == topic_id
    &&& opt_string_view(job.responder_agent_id) == responder
    &&& job.action@ == d.0
    &&& job.intent@ == d.1
    &&& opt_string_view(job.condition) == d.4
    &&& job.scheduled_at as int == directive_time(d, now)
    &&& opt_string_view(job.source_message_id) == Some(source_message_id)
    &&& job.max_attempts == Some(3i64)
}

/// The directives among the captured block bodies, in order (matches without a body and
/// unreadable bodies dropped).
pub open spec fn readable_directives(raws: Seq<Option<Seq<char>>>) -> Seq<
    (Seq<char>, Seq<char>, Option<int>, Option<Seq<char>>, Option<Seq<char>>),
>
    decreases raws.len(),
{
    if raws.len() == 0 {
        Seq::empty()
    } else {
        let prev = readable_directives(raws.drop_last());
        match raws.last() {
            Some(raw) => match directive_spec(trim(raw)) {
                Some(d) => prev.push(d),
                None => prev,
            },
            None => prev,
        }
    }
}

/// Finds the lifecycle directives in a reply. Returns the reply without them (trimmed) and
/// the job request each readable directive becomes, in order; the caller inserts them.
pub fn plan_directive_jobs(
    content: &str,
    owner_id: &str,
    owner_type: &str,
    topic_id: &str,
    responder_agent_id: Option<&str>,
    source_message_id: &str,
    now: i64,
) -> (r: Result<(String, Vec<CreateLifecycleJobInput>), String>)
    requires
        now <= i64::MAX - 31536000000,
    ensures
        !contains_seq(content@, directive_start()) ==> r is Ok && r->Ok_0.0@ == content@ && r->Ok_0.1@.len() == 0,
        contains_seq(content@, directive_start()) ==> match r {
            Err(_) => regex_group1_matches(directive_pattern(), content@) is None || regex_removed(
                directive_pattern(),
                content@,
            ) is None,
            Ok((stripped, jobs)) => regex_group1_matches(directive_pattern(), content@) is Some
                && regex_removed(directive_pattern(), content@) is Some && stripped@ == trim(
                regex_removed(directive_pattern(), content@)->0,
            ) && jobs@.len() == readable_directives(
                regex_group1_matches(directive_pattern(), content@)->0,
            ).len() && forall|k: int|
                0 <= k < jobs@.len() ==> directive_job_ok(
                    #[trigger] jobs@[k],
                    readable_directives(regex_group1_matches(directive_pattern(), content@)->0)[k],
                    owner_id@,
                    owner_type@,
                    topic_id@,
                    match responder_agent_id {
                        Some(s) => Some(s@),
                        None => None,
                    },
                    source_message_id@,
                    now,
                ),
        },
{
    if !contains_str(content, "<<<[VCP_LIFECYCLE]>>>") {
        let mut out = String::new();
        append_str(&mut out, content);
        return Ok((out, Vec::new()));
    }
    let mut pattern = String::from_str("(?s)");
    let start = regex_escape("<<<[VCP_LIFECYCLE]>>>");
    append_str(&mut pattern, start.as_str());
    append_str(&mut pattern, "\\s*(.*?)\\s*");
    let end = regex_escape("<<<[END_VCP_LIFECYCLE]>>>");
    append_str(&mut pattern, end.as_str());
    assert(pattern@ =~= directive_pattern());
    let raws = regex_group1_all(pattern.as_str(), content)?;
    let ghost rv = raws@.map_values(|o: Option<String>| opt_string_view(o));
    let mut jobs: Vec<CreateLifecycleJobInput> = Vec::new();
    let ghost resp = match responder_agent_id {
        Some(s) => Some(s@),
        None => None::<Seq<char>>,
    };
    let mut i: usize = 0;
    while i < raws.len()
        invariant
            i <= raws.len(),
            rv == raws@.map_values(|o: Option<String>| opt_string_view(o)),
            now <= i64::MAX - 31536000000,
            resp == match responder_agent_id {
                Some(s) => Some(s@),
                None => None::<Seq<char>>,
            },
            jobs@.len() == readable_directives(rv.take(i as int)).len(),
            forall|k: int|
                0 <= k < jobs@.len() ==> directive_job_ok(
                    #[trigger] jobs@[k],
                    readable_directives(rv.take(i as int))[k],
                    owner_id@,
                    owner_type@,
                    topic_id@,
                    resp,
                    source_message_id@,
                    now,
                ),
        decreases raws.len() - i,
    {
        proof {
            assert(rv.take((i + 1) as int).drop_last() =~= rv.take(i as int));
            assert(rv.take((i + 1) as int).last() == opt_string_view(raws@[i as int]));
        }
        let parsed = match &raws[i] {
            Some(body) => {
                let raw = trim_str(body.as_str());
                parse_directive(raw.as_str())
            },
            None => None,
        };
        match parsed {
            Some(d) => {
                let scheduled_at = directive_scheduled_at(&d, now);
                let job = CreateLifecycleJobInput {
                    owner_id: String::from_str(owner_id),
                    owner_type: String::from_str(owner_type),
                    topic_id: String::from_str(topic_id),
                    responder_agent_id: match responder_agent_id {
                        Some(s) => Some(String::from_str(s)),
                        None => None,
                    },
                    action: d.action,
                    intent: d.intent,
                    condition: d.condition,
                    scheduled_at,
                    source_message_id: Some(String::from_str(source_message_id)),
                    max_attempts: Some(3),
                };
                jobs.push(job);
            },
            None => {},
        }
        i = i + 1;
    }
    assert(rv.take(raws@.len() as int) =~= rv);
    let stripped = regex_remove_all(pattern.as_str(), content)?;
    Ok((trim_str(stripped.as_str()), jobs))
}

} // verus!

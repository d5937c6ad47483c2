use vstd::prelude::*;
use vstd::string::*;
use crate::json::{JsonNode, json_parse, field, field_str, get_field, get_field_str, parse_json};
use crate::text::{
    append_str, concat2, contains_string, decimal, push_decimal, insert_sorted, join, join_strings,
    lemma_views_push, newline_segments, split_newlines, strictly_sorted, trim, trim_chars,
    string_from_chars, views, starts_with,
};
use crate::batch_diff_handler::text_as_str;
use crate::text::{str_eq, contains_string_before};
use crate::urls::url_encode;
use crate::vcp_client::url_encoded;

verus! {

broadcast use vstd::string::group_string_axioms;

/// The outcome the desktop reported for pushing one topic's messages.
pub struct PushBatchResult {
    pub topic_id: String,
    pub success: bool,
    pub error: Option<String>,
}

pub open spec fn opt_view(o: Option<String>) -> Option<Seq<char>> {
    match o {
        Some(s) => Some(s@),
        None => None,
    }
}

pub open spec fn push_result_view(r: PushBatchResult) -> (Seq<char>, bool, Option<Seq<char>>) {
    (r.topic_id@, r.success, opt_view(r.error))
}

pub open spec fn push_results_view(v: Seq<PushBatchResult>) -> Seq<(Seq<char>, bool, Option<Seq<char>>)> {
    v.map_values(|r: PushBatchResult| push_result_view(r))
}

/// What the lines read so far have produced.
pub struct PushParse {
    pub results: Seq<(Seq<char>, bool, Option<Seq<char>>)>,
    pub seen: Seq<Seq<char>>,
    pub hashes: Seq<Seq<char>>,
}

/// A failure: the message, and whether the message is exactly that (`true`) or that
/// followed by the JSON parser's own description (`false`).
pub type PushFailure = (Seq<char>, bool);

/// Whether each element text is a non-empty JSON string.
pub open spec fn all_nonempty_strings(items: Seq<String>) -> bool {
    forall|i: int|
        0 <= i < items.len() ==> (#[trigger] text_as_str(items[i]@)) is Some && text_as_str(
            items[i]@,
        )->0.len() > 0
}

/// The attachment hashes a successful line asks for, or the failure.
pub open spec fn needed_hashes_spec(v: JsonNode, topic: Seq<char>) -> Result<Seq<Seq<char>>, PushFailure> {
    match field(v, "neededAttachmentHashes"@) {
        None => Ok(Seq::empty()),
        Some(Some(JsonNode::Null)) => Ok(Seq::empty()),
        Some(Some(JsonNode::Array(items))) => if all_nonempty_strings(items@) {
            Ok(items@.map_values(|t: String| text_as_str(t@)->0))
        } else {
            Err(("Batch push response for "@ + topic + " contains an invalid attachment hash"@, true))
        },
        _ => Err(("Batch push response for "@ + topic + " has invalid neededAttachmentHashes"@, true)),
    }
}

/// The effect of line `index` (0-based) of the response body.
pub open spec fn push_line_step(st: PushParse, index: nat, line: Seq<char>, expected: Seq<Seq<char>>) -> Result<
    PushParse,
    PushFailure,
> {
    let t = trim(line);
    let n = decimal(index + 1);
    if t.len() == 0 {
        Ok(st)
    } else {
        match json_parse(t) {
            None => Err(("Malformed batch push response at line "@ + n + ": "@, false)),
            Some(v) => if field(v, "_stream_error"@) is Some {
                Err(
                    (
                        "Batch push response stream error: "@ + match field(v, "_stream_error"@) {
                            Some(Some(JsonNode::Str(s))) => s@,
                            _ => "invalid stream error payload"@,
                        },
                        true,
                    ),
                )
            } else {
                match field_str(v, "topicId"@) {
                    Some(topic) if topic.len() > 0 => if !expected.contains(topic) {
                        Err(("Batch push response contains unexpected topicId: "@ + topic, true))
                    } else if st.seen.contains(topic) {
                        Err(("Batch push response contains duplicate topicId: "@ + topic, true))
                    } else {
                        match field(v, "success"@) {
                            Some(Some(JsonNode::Bool(success))) => {
                                let err: Result<Option<Seq<char>>, PushFailure> = match field(
                                    v,
                                    "error"@,
                                ) {
                                    None => Ok(None),
                                    Some(Some(JsonNode::Null)) => Ok(None),
                                    Some(Some(JsonNode::Str(s))) => Ok(Some(s@)),
                                    _ => Err(
                                        (
                                            "Batch push response for "@ + topic
                                                + " has a non-string error"@,
                                            true,
                                        ),
                                    ),
                                };
                                match err {
                                    Err(f) => Err(f),
                                    Ok(error) => {
                                        let hashes: Result<Seq<Seq<char>>, PushFailure> = if success {
                                            needed_hashes_spec(v, topic)
                                        } else {
                                            Ok(Seq::empty())
                                        };
                                        match hashes {
                                            Err(f) => Err(f),
                                            Ok(h) => Ok(
                                                PushParse {
                                                    results: st.results.push((topic, success, error)),
                                                    seen: st.seen.push(topic),
                                                    hashes: st.hashes + h,
                                                },
                                            ),
                                        }
                                    },
                                }
                            },
                            _ => Err(
                                (
                                    "Batch push response for "@ + topic
                                        + " is missing boolean success"@,
                                    true,
                                ),
                            ),
                        }
                    },
                    _ => Err(
                        (
                            "Batch push response line "@ + n + " is missing a valid topicId"@,
                            true,
                        ),
                    ),
                }
            },
        }
    }
}

/// The state after the first `k` lines.
pub open spec fn push_lines_prefix(lines: Seq<Seq<char>>, k: nat, expected: Seq<Seq<char>>) -> Result<
    PushParse,
    PushFailure,
>
    decreases k,
{
    if k == 0 {
        Ok(PushParse { results: Seq::empty(), seen: Seq::empty(), hashes: Seq::empty() })
    } else {
        match push_lines_prefix(lines, (k - 1) as nat, expected) {
            Err(f) => Err(f),
            Ok(st) => push_line_step(st, (k - 1) as nat, lines[k - 1], expected),
        }
    }
}

/// The expected topics no line reported.
pub open spec fn missing_topic_set(expected: Seq<Seq<char>>, seen: Seq<Seq<char>>) -> Set<Seq<char>> {
    expected.to_set().filter(|t: Seq<char>| !seen.contains(t))
}

proof fn lemma_push_prefix_error_stable(lines: Seq<Seq<char>>, k: nat, m: nat, expected: Seq<Seq<char>>)
    requires
        k <= m,
        push_lines_prefix(lines, k, expected) is Err,
    ensures
        push_lines_prefix(lines, m, expected) == push_lines_prefix(lines, k, expected),
    decreases m - k,
{
    if k < m {
        lemma_push_prefix_error_stable(lines, k, (m - 1) as nat, expected);
    }
}

/// The expected topics among the first `k` that no line reported.
pub open spec fn missing_in_prefix(ev: Seq<Seq<char>>, k: int, seen: Seq<Seq<char>>) -> Set<Seq<char>> {
    ev.take(k).to_set().filter(|t: Seq<char>| !seen.contains(t))
}

proof fn lemma_missing_step(ev: Seq<Seq<char>>, k: int, seen: Seq<Seq<char>>)
    requires
        0 <= k < ev.len(),
    ensures
        forall|e: Seq<char>|
            #[trigger] missing_in_prefix(ev, k + 1, seen).contains(e) <==> (missing_in_prefix(
                ev,
                k,
                seen,
            ).contains(e) || (e == ev[k] && !seen.contains(ev[k]))),
{
    assert(ev.take(k + 1) =~= ev.take(k).push(ev[k]));
    assert forall|e: Seq<char>|
        #[trigger] missing_in_prefix(ev, k + 1, seen).contains(e) <==> (missing_in_prefix(
            ev,
            k,
            seen,
        ).contains(e) || (e == ev[k] && !seen.contains(ev[k]))) by {
        if ev.take(k + 1).contains(e) && e != ev[k] {
            let j = choose|j: int| 0 <= j < k + 1 && #[trigger] ev.take(k + 1)[j] == e;
            assert(j < k);
            assert(ev.take(k)[j] == e);
        }
        if ev.take(k).contains(e) {
            let j = choose|j: int| 0 <= j < k && #[trigger] ev.take(k)[j] == e;
            assert(ev.take(k + 1)[j] == e);
        }
        if e == ev[k] {
            assert(ev.take(k + 1)[k] == e);
        }
    }
}

/// The error message for a failure, given the parser's description.
pub open spec fn failure_matches(f: PushFailure, msg: Seq<char>) -> bool {
    if f.1 {
        msg == f.0
    } else {
        starts_with(msg, f.0)
    }
}

} // verus!

verus! {

pub open spec fn parse_state(results: Seq<PushBatchResult>, seen: Seq<String>, hashes: Seq<String>) -> PushParse {
    PushParse { results: push_results_view(results), seen: views(seen), hashes: views(hashes) }
}

/// Reads the attachment hashes of a successful line.
fn needed_hashes(v: &JsonNode, topic: &str, hashes: &mut Vec<String>) -> (r: Result<(), String>)
    ensures
        match (r, needed_hashes_spec(*v, topic@)) {
            (Ok(()), Ok(h)) => views(final(hashes)@) == views(old(hashes)@) + h,
            (Err(e), Err(f)) => failure_matches(f, e@),
            _ => false,
        },
{
    match get_field(v, "neededAttachmentHashes") {
        None => {
            assert(views(hashes@) =~= views(hashes@) + Seq::<Seq<char>>::empty());
            Ok(())
        },
        Some(Some(JsonNode::Null)) => {
            assert(views(hashes@) =~= views(hashes@) + Seq::<Seq<char>>::empty());
            Ok(())
        },
        Some(Some(JsonNode::Array(items))) => {
            let ghost start = views(hashes@);
            let mut i: usize = 0;
            while i < items.len()
                invariant
                    i <= items.len(),
                    field(*v, "neededAttachmentHashes"@) == Some(Some(JsonNode::Array(items))),
                    start == views(old(hashes)@),
                    forall|k: int|
                        0 <= k < i ==> (#[trigger] text_as_str(items@[k]@)) is Some && text_as_str(
                            items@[k]@,
                        )->0.len() > 0,
                    views(hashes@) == start + items@.take(i as int).map_values(
                        |t: String| text_as_str(t@)->0,
                    ),
                decreases items.len() - i,
            {
                let parsed = parse_json(items[i].as_str());
                let good = match &parsed {
                    Ok(JsonNode::Str(h)) => !h.as_str().is_empty(),
                    _ => false,
                };
                if !good {
                    assert(!(text_as_str(items@[i as int]@) is Some && text_as_str(items@[i as int]@)->0.len() > 0));
                    assert(!all_nonempty_strings(items@));
                    let mut msg = concat2("Batch push response for ", topic);
                    append_str(&mut msg, " contains an invalid attachment hash");
                    return Err(msg);
                }
                match parsed {
                    Ok(JsonNode::Str(h)) => {
                        assert(text_as_str(items@[i as int]@) == Some(h@));
                        let ghost before = hashes@;
                        hashes.push(h);
                        proof {
                            lemma_views_push(before, h);
                            assert(items@.take((i + 1) as int).map_values(
                                |t: String| text_as_str(t@)->0,
                            ) =~= items@.take(i as int).map_values(|t: String| text_as_str(t@)->0).push(
                                h@,
                            ));
                        }
                    },
                    _ => {
                        let mut msg = concat2("Batch push response for ", topic);
                        append_str(&mut msg, " contains an invalid attachment hash");
                        return Err(msg);
                    },
                }
                i = i + 1;
            }
            assert(items@.take(items@.len() as int) =~= items@);
            Ok(())
        },
        _ => {
            let mut msg = concat2("Batch push response for ", topic);
            append_str(&mut msg, " has invalid neededAttachmentHashes");
            Err(msg)
        },
    }
}

/// Applies one response line.
fn push_line(
    results: &mut Vec<PushBatchResult>,
    seen: &mut Vec<String>,
    hashes: &mut Vec<String>,
    index: usize,
    line: &[char],
    expected: &[String],
) -> (r: Result<(), String>)
    requires
        index < usize::MAX,
    ensures
        match (r, push_line_step(parse_state(old(results)@, old(seen)@, old(hashes)@), index as nat, line@, views(expected@))) {
            (Ok(()), Ok(st)) => parse_state(final(results)@, final(seen)@, final(hashes)@) == st,
            (Err(e), Err(f)) => failure_matches(f, e@),
            _ => false,
        },
{
    let t = trim_chars(line);
    if t.len() == 0 {
        return Ok(());
    }
    let text = string_from_chars(t.as_slice());
    let number: u64 = (index as u64) + 1;
    let v = match parse_json(text.as_str()) {
        Ok(v) => v,
        Err(e) => {
            let mut msg = String::from_str("Malformed batch push response at line ");
            push_decimal(&mut msg, number);
            let ghost prefix = msg@;
            append_str(&mut msg, ": ");
            append_str(&mut msg, e.as_str());
            proof {
                let p = "Malformed batch push response at line "@ + decimal(index as nat + 1) + ": "@;
                assert(msg@.subrange(0, p.len() as int) =~= p);
            }
            return Err(msg);
        },
    };
    match get_field(&v, "_stream_error") {
        Some(Some(JsonNode::Str(s))) => {
            return Err(concat2("Batch push response stream error: ", s.as_str()));
        },
        Some(_) => {
            return Err(concat2("Batch push response stream error: ", "invalid stream error payload"));
        },
        None => {},
    }
    let topic = match get_field_str(&v, "topicId") {
        Some(t) if !t.as_str().is_empty() => t,
        _ => {
            let mut msg = String::from_str("Batch push response line ");
            push_decimal(&mut msg, number);
            append_str(&mut msg, " is missing a valid topicId");
            return Err(msg);
        },
    };
    if !contains_string(expected, topic.as_str()) {
        return Err(concat2("Batch push response contains unexpected topicId: ", topic.as_str()));
    }
    if contains_string(seen.as_slice(), topic.as_str()) {
        return Err(concat2("Batch push response contains duplicate topicId: ", topic.as_str()));
    }
    let success = match get_field(&v, "success") {
        Some(Some(JsonNode::Bool(b))) => b,
        _ => {
            let mut msg = concat2("Batch push response for ", topic.as_str());
            append_str(&mut msg, " is missing boolean success");
            return Err(msg);
        },
    };
    let error: Option<String> = match get_field(&v, "error") {
        None => None,
        Some(Some(JsonNode::Null)) => None,
        Some(Some(JsonNode::Str(s))) => Some(s),
        _ => {
            let mut msg = concat2("Batch push response for ", topic.as_str());
            append_str(&mut msg, " has a non-string error");
            return Err(msg);
        },
    };
    if success {
        needed_hashes(&v, topic.as_str(), hashes)?;
    } else {
        assert(views(hashes@) =~= views(hashes@) + Seq::<Seq<char>>::empty());
    }
    let ghost br = results@;
    let ghost bs = seen@;
    let item = PushBatchResult { topic_id: topic.clone(), success, error };
    results.push(item);
    seen.push(topic);
    proof {
        assert(push_results_view(results@) =~= push_results_view(br).push(push_result_view(item)));
        lemma_views_push(bs, topic);
    }
    Ok(())
}

/// Checks the NDJSON answer to a batch message push: one well-formed result line per
/// expected topic. Returns the results in line order and the attachment hashes the desktop
/// still needs.
pub fn parse_push_messages_batch_response(body: &str, expected_topic_ids: &[String]) -> (r: Result<
    (Vec<PushBatchResult>, Vec<String>),
    String,
>)
    ensures
        ({
            let lines = newline_segments(body@);
            let ev = views(expected_topic_ids@);
            match (r, push_lines_prefix(lines, lines.len(), ev)) {
                (Ok((results, hashes)), Ok(st)) => push_results_view(results@) == st.results && views(
                    hashes@,
                ) == st.hashes && missing_topic_set(ev, st.seen).is_empty(),
                (Err(e), Err(f)) => failure_matches(f, e@),
                (Err(e), Ok(st)) => exists|m: Seq<Seq<char>>|
                    strictly_sorted(m) && m.len() > 0 && m.to_set() == missing_topic_set(ev, st.seen)
                        && e@ == "Batch push response is missing topics: "@ + join(m, ", "@),
                _ => false,
            }
        }),
{
    let lines = split_newlines(body);
    let ghost lv = lines@.map_values(|v: Vec<char>| v@);
    let ghost ev = views(expected_topic_ids@);
    let mut results: Vec<PushBatchResult> = Vec::new();
    let mut seen: Vec<String> = Vec::new();
    let mut hashes: Vec<String> = Vec::new();
    proof {
        assert(push_results_view(results@) =~= Seq::<(Seq<char>, bool, Option<Seq<char>>)>::empty());
        assert(views(seen@) =~= Seq::<Seq<char>>::empty());
        assert(views(hashes@) =~= Seq::<Seq<char>>::empty());
    }
    let mut i: usize = 0;
    while i < lines.len()
        invariant
            i <= lines.len(),
            lv == lines@.map_values(|v: Vec<char>| v@),
            lv == newline_segments(body@),
            ev == views(expected_topic_ids@),
            push_lines_prefix(lv, i as nat, ev) is Ok,
            parse_state(results@, seen@, hashes@) == push_lines_prefix(lv, i as nat, ev)->Ok_0,
        decreases lines.len() - i,
    {
        assert(lv[i as int] == lines@[i as int]@);
        match push_line(&mut results, &mut seen, &mut hashes, i, lines[i].as_slice(), expected_topic_ids) {
            Ok(()) => {},
            Err(e) => {
                proof {
                    lemma_push_prefix_error_stable(lv, (i + 1) as nat, lv.len(), ev);
                }
                return Err(e);
            },
        }
        i = i + 1;
    }
    let ghost st = push_lines_prefix(lv, lv.len(), ev)->Ok_0;
    let mut missing: Vec<String> = Vec::new();
    let mut k: usize = 0;
    proof {
        assert(views(missing@).to_set() =~= missing_in_prefix(ev, 0, st.seen));
    }
    while k < expected_topic_ids.len()
        invariant
            k <= expected_topic_ids.len(),
            ev == views(expected_topic_ids@),
            views(seen@) == st.seen,
            strictly_sorted(views(missing@)),
            views(missing@).to_set() == missing_in_prefix(ev, k as int, st.seen),
        decreases expected_topic_ids.len() - k,
    {
        let id = &expected_topic_ids[k];
        assert(ev[k as int] == id@);
        proof {
            lemma_missing_step(ev, k as int, st.seen);
        }
        if !contains_string(seen.as_slice(), id.as_str()) && !contains_string(missing.as_slice(), id.as_str()) {
            insert_sorted(&mut missing, id.clone());
            proof {
                assert(views(missing@).to_set() =~= missing_in_prefix(ev, k + 1, st.seen));
            }
        } else {
            proof {
                if !views(seen@).contains(id@) {
                    assert(views(missing@).contains(id@));
                    assert(views(missing@).to_set().contains(id@));
                }
                assert(views(missing@).to_set() =~= missing_in_prefix(ev, k + 1, st.seen));
            }
        }
        k = k + 1;
    }
    proof {
        assert(ev.take(ev.len() as int) =~= ev);
        assert(missing_in_prefix(ev, ev.len() as int, st.seen) == missing_topic_set(ev, st.seen));
    }
    if missing.len() > 0 {
        let joined = join_strings(missing.as_slice(), ", ");
        return Err(concat2("Batch push response is missing topics: ", joined.as_str()));
    }
    proof {
        assert(views(missing@).len() == 0);
        assert(views(missing@).to_set() =~= Set::<Seq<char>>::empty());
    }
    Ok((results, hashes))
}

} // verus!

verus! {

// ------------------------------------------------------------------ attachments to upload

/// The attachment hashes a push must upload: the ones the desktop asked for, each once, in
/// the order first asked, leaving out those uploaded earlier in this sync.
pub open spec fn uploads_needed(needed: Seq<Seq<char>>, uploaded: Seq<Seq<char>>) -> Seq<Seq<char>>
    decreases needed.len(),
{
    if needed.len() == 0 {
        Seq::empty()
    } else {
        let p = uploads_needed(needed.drop_last(), uploaded);
        let h = needed.last();
        if uploaded.contains(h) || needed.drop_last().contains(h) {
            p
        } else {
            p.push(h)
        }
    }
}

proof fn lemma_push_contains(s: Seq<Seq<char>>, v: Seq<char>, x: Seq<char>)
    ensures
        s.push(v).contains(x) <==> (s.contains(x) || x == v),
{
    if s.push(v).contains(x) {
        let i = choose|i: int| 0 <= i < s.push(v).len() && s.push(v)[i] == x;
        if i < s.len() {
            assert(s[i] == x);
        }
    }
    if s.contains(x) {
        let i = choose|i: int| 0 <= i < s.len() && s[i] == x;
        assert(s.push(v)[i] == x);
    }
    if x == v {
        assert(s.push(v)[s.len() as int] == v);
    }
}

proof fn lemma_uploads_needed_members(needed: Seq<Seq<char>>, uploaded: Seq<Seq<char>>)
    ensures
        forall|h: Seq<char>|
            uploads_needed(needed, uploaded).contains(h) <==> (needed.contains(h) && !uploaded.contains(h)),
        uploads_needed(needed, uploaded).no_duplicates(),
    decreases needed.len(),
{
    if needed.len() > 0 {
        let init = needed.drop_last();
        let h = needed.last();
        lemma_uploads_needed_members(init, uploaded);
        let p = uploads_needed(init, uploaded);
        assert(needed =~= init.push(h));
        assert forall|x: Seq<char>|
            uploads_needed(needed, uploaded).contains(x) <==> (needed.contains(x) && !uploaded.contains(x)) by {
            lemma_push_contains(init, h, x);
            lemma_push_contains(p, h, x);
        }
        if !(uploaded.contains(h) || init.contains(h)) {
            assert forall|a: int, b: int|
                0 <= a < b < p.push(h).len() implies p.push(h)[a] != p.push(h)[b] by {
                if b == p.len() {
                    assert(p.contains(p[a]));
                }
            }
        }
    }
}

/// Uploads happen three at a time.
pub const MAX_CONCURRENT_UPLOADS: usize = 3;

/// The hashes of a round whose upload succeeded, in order.
pub open spec fn succeeded_hashes(hashes: Seq<String>, results: Seq<Result<(), String>>) -> Seq<Seq<char>>
    decreases hashes.len(),
{
    if hashes.len() == 0 || results.len() == 0 {
        Seq::empty()
    } else {
        let p = succeeded_hashes(hashes.drop_last(), results.drop_last());
        if results.last() is Ok {
            p.push(hashes.last()@)
        } else {
            p
        }
    }
}

// ------------------------------------------------------------------ messages and requests

/// Which DTO a message is sent as.
#[derive(PartialEq, Eq, Structural)]
pub enum MessageDtoKind {
    User,
    Group,
    Agent,
}

/// User messages as user DTOs; others by the kind of their topic's owner.
pub fn message_dto_kind(role: &str, owner_type: &str) -> (r: MessageDtoKind)
    ensures
        r == (if role@ == "user"@ {
            MessageDtoKind::User
        } else if owner_type@ == "group"@ {
            MessageDtoKind::Group
        } else {
            MessageDtoKind::Agent
        }),
{
    if str_eq(role, "user") {
        MessageDtoKind::User
    } else if str_eq(owner_type, "group") {
        MessageDtoKind::Group
    } else {
        MessageDtoKind::Agent
    }
}

/// The avatar color sent with a reply: the agent's, else a neutral gray.
pub fn avatar_color_or_default(color: Option<String>) -> (r: String)
    ensures
        r@ == match color {
            Some(c) => c@,
            None => "#6B7280"@,
        },
{
    match color {
        Some(c) => c,
        None => String::from_str("#6B7280"),
    }
}

/// Largest attachment a sync uploads (100 MiB).
pub const MAX_SYNC_ATTACHMENT_BYTES: u64 = 104857600;

/// The name an attachment is uploaded under: its first live display name, else `unnamed`.
pub fn attachment_display_name_or_default(name: Option<String>) -> (r: String)
    ensures
        r@ == match name {
            Some(n) => n@,
            None => "unnamed"@,
        },
{
    match name {
        Some(n) => n,
        None => String::from_str("unnamed"),
    }
}

/// Pushes entities, messages, attachments and avatars to the sync server. The requests run
/// in the application; what they send and how failures read is decided here.
pub struct PushExecutor;

impl PushExecutor {
    /// Chooses the attachments a push uploads (see `uploads_needed`).
    pub fn hashes_to_upload(needed: &Vec<String>, uploaded: &Vec<String>) -> (r: Vec<String>)
        ensures
            views(r@) == uploads_needed(views(needed@), views(uploaded@)),
            views(r@).no_duplicates(),
            forall|h: Seq<char>|
                views(r@).contains(h) <==> (views(needed@).contains(h) && !views(uploaded@).contains(h)),
    {
        let ghost nv = views(needed@);
        let ghost uv = views(uploaded@);
        let mut out: Vec<String> = Vec::new();
        let mut i: usize = 0;
        while i < needed.len()
            invariant
                i <= needed.len(),
                nv == views(needed@),
                uv == views(uploaded@),
                views(out@) == uploads_needed(nv.take(i as int), uv),
            decreases needed.len() - i,
        {
            proof {
                assert(nv.take(i + 1).drop_last() =~= nv.take(i as int));
                assert(nv.take(i + 1).last() == needed@[i as int]@);
                assert(nv.take(i as int) =~= views(needed@.take(i as int)));
            }
            let h = needed[i].as_str();
            let seen = contains_string_before(needed.as_slice(), i, h);
            if !seen && !contains_string(uploaded.as_slice(), h) {
                let c = needed[i].clone();
                proof {
                    lemma_views_push(out@, c);
                }
                out.push(c);
            }
            i = i + 1;
        }
        proof {
            assert(nv.take(needed.len() as int) =~= nv);
            lemma_uploads_needed_members(nv, uv);
        }
        out
    }

    /// Records the outcome of one round of uploads: the successful hashes join the uploaded
    /// set, in order; if any failed, the push fails with every failure listed as `hash: error`.
    pub fn record_upload_round(
        uploaded: &mut Vec<String>,
        hashes: &Vec<String>,
        results: &Vec<Result<(), String>>,
    ) -> (r: Result<(), String>)
        requires
            hashes@.len() == results@.len(),
        ensures
            views(final(uploaded)@) == views(old(uploaded)@) + succeeded_hashes(hashes@, results@),
            r is Ok <==> forall|k: int| 0 <= k < results@.len() ==> #[trigger] results@[k] is Ok,
            r is Err ==> starts_with(r->Err_0@, "Failed to upload required attachments: "@),
    {
        let ghost start = views(uploaded@);
        let mut errors: Vec<String> = Vec::new();
        let mut i: usize = 0;
        while i < hashes.len()
            invariant
                i <= hashes.len(),
                hashes@.len() == results@.len(),
                views(uploaded@) == start + succeeded_hashes(hashes@.take(i as int), results@.take(i as int)),
                errors@.len() == 0 <==> forall|k: int| 0 <= k < i ==> #[trigger] results@[k] is Ok,
            decreases hashes.len() - i,
        {
            proof {
                assert(hashes@.take(i + 1).drop_last() =~= hashes@.take(i as int));
                assert(results@.take(i + 1).drop_last() =~= results@.take(i as int));
                assert(hashes@.take(i + 1).last() == hashes@[i as int]);
                assert(results@.take(i + 1).last() == results@[i as int]);
            }
            match &results[i] {
                Ok(()) => {
                    let c = hashes[i].clone();
                    proof {
                        lemma_views_push(uploaded@, c);
                    }
                    uploaded.push(c);
                    assert(views(uploaded@) =~= start + succeeded_hashes(hashes@.take(i + 1), results@.take(i + 1)));
                },
                Err(e) => {
                    let mut m = hashes[i].clone();
                    append_str(&mut m, ": ");
                    append_str(&mut m, e.as_str());
                    errors.push(m);
                },
            }
            i = i + 1;
        }
        assert(hashes@.take(hashes.len() as int) =~= hashes@);
        assert(results@.take(results.len() as int) =~= results@);
        if errors.len() == 0 {
            Ok(())
        } else {
            let joined = join_strings(errors.as_slice(), "; ");
            let mut s = String::from_str("Failed to upload required attachments: ");
            let ghost prefix = s@;
            append_str(&mut s, joined.as_str());
            assert(s@.subrange(0, prefix.len() as int) =~= prefix);
            Err(s)
        }
    }

    /// The error of a request the server refused.
    pub fn http_failure(operation: &str, status: &str, body: &str) -> (r: String)
        ensures
            r@ == operation@ + " failed: HTTP "@ + status@ + " body="@ + body@,
    {
        let mut s = operation.to_string();
        append_str(&mut s, " failed: HTTP ");
        append_str(&mut s, status);
        append_str(&mut s, " body=");
        append_str(&mut s, body);
        s
    }

    /// Refuses an attachment that is not a regular file or exceeds the upload limit.
    pub fn check_attachment_upload(display_name: &str, is_file: bool, len: u64) -> (r: Result<(), String>)
        ensures
            r is Ok <==> (is_file && len <= MAX_SYNC_ATTACHMENT_BYTES),
            !is_file ==> r is Err && r->Err_0@ == "附件不是常规文件: "@ + display_name@,
            is_file && len > MAX_SYNC_ATTACHMENT_BYTES ==> r is Err && r->Err_0@ == "附件超过 100MB 同步上限: "@
                + display_name@ + " ("@ + decimal(len as nat) + " bytes)"@,
    {
        if !is_file {
            return Err(concat2("附件不是常规文件: ", display_name));
        }
        if len > MAX_SYNC_ATTACHMENT_BYTES {
            let mut s = String::from_str("附件超过 100MB 同步上限: ");
            append_str(&mut s, display_name);
            append_str(&mut s, " (");
            push_decimal(&mut s, len);
            append_str(&mut s, " bytes)");
            return Err(s);
        }
        Ok(())
    }

    /// `{base}/api/mobile-sync/upload-attachment?hash={hash}&type={mime}&name={name}`, with the
    /// type and the name URL-encoded.
    pub fn upload_attachment_url(http_url: &str, hash: &str, mime_type: &str, display_name: &str) -> (r: String)
        ensures
            r@ == http_url@ + "/api/mobile-sync/upload-attachment?hash="@ + hash@ + "&type="@
                + url_encoded(mime_type@) + "&name="@ + url_encoded(display_name@),
    {
        let mut s = http_url.to_string();
        append_str(&mut s, "/api/mobile-sync/upload-attachment?hash=");
        append_str(&mut s, hash);
        append_str(&mut s, "&type=");
        let m = url_encode(mime_type);
        append_str(&mut s, m.as_str());
        append_str(&mut s, "&name=");
        let n = url_encode(display_name);
        append_str(&mut s, n.as_str());
        s
    }

    /// The error of an avatar push without a live avatar.
    pub fn avatar_not_found(owner_type: &str, owner_id: &str) -> (r: String)
        ensures
            r@ == "Active avatar not found for "@ + owner_type@ + " "@ + owner_id@,
    {
        let mut s = String::from_str("Active avatar not found for ");
        append_str(&mut s, owner_type);
        append_str(&mut s, " ");
        append_str(&mut s, owner_id);
        s
    }
}

} // verus!

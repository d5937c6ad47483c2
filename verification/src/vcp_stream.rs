use vstd::prelude::*;
use vstd::string::*;
use crate::json::{JsonNode, json_parse, field, field_str, get_field, get_field_str, parse_json};
use crate::text::{
    append_str, concat2, is_blank, starts_with, starts_with_str, str_eq, strip_leading_all, take_chars,
    trim, trim_start_matches_str, trim_str,
};
use crate::vcp_client::{child, first_choice};

verus! {

broadcast use vstd::string::group_string_axioms;

/// What a streamed response has produced so far.
pub struct StreamState {
    /// The answer text, reasoning included inside `<think>` blocks.
    pub full_content: String,
    /// A `<think>` block is open.
    pub reasoning_open: bool,
    /// The last finish reason reported (`stop` recorded as `completed`).
    pub last_finish_reason: Option<String>,
}

/// A string field of an optional value.
pub open spec fn str_field(v: Option<JsonNode>, key: Seq<char>) -> Option<Seq<char>> {
    match v {
        Some(n) => field_str(n, key),
        None => None,
    }
}

/// The reasoning text of a delta: the first of its `reasoning_content`, `reasoningContent`
/// and `reasoning` strings, or empty.
pub open spec fn delta_reasoning(delta: Option<JsonNode>) -> Seq<char> {
    match str_field(delta, "reasoning_content"@) {
        Some(s) => s,
        None => match str_field(delta, "reasoningContent"@) {
            Some(s) => s,
            None => match str_field(delta, "reasoning"@) {
                Some(s) => s,
                None => Seq::empty(),
            },
        },
    }
}

/// The text that a chunk's first choice adds and whether a `<think>` block is open after it:
/// reasoning goes inside a `<think>` block (opened when needed), and non-empty content
/// closes an open block before it.
pub open spec fn delta_text(open: bool, choice: Option<JsonNode>) -> (Seq<char>, bool) {
    match choice {
        None => (Seq::empty(), open),
        Some(c) => {
            let delta = child(Some(c), "delta"@);
            let r = delta_reasoning(delta);
            let t1 = if r.len() > 0 {
                if open {
                    r
                } else {
                    "<think>"@ + r
                }
            } else {
                Seq::empty()
            };
            let open1 = open || r.len() > 0;
            match str_field(delta, "content"@) {
                Some(x) => if x.len() > 0 && open1 {
                    (t1 + "</think>"@ + x, false)
                } else {
                    (t1 + x, open1)
                },
                None => (t1, open1),
            }
        },
    }
}

/// What a chunk adds, piece by piece: `<think>` only when its delta carries reasoning and no
/// block is open yet; then the reasoning text itself; then `</think>` only when its delta
/// carries non-empty content while a block is open (already, or through this reasoning);
/// then the content. A block stays open after reasoning until content closes it.
pub proof fn lemma_think_block_opened_once(open: bool, choice: Option<JsonNode>)
    requires
        choice is Some,
    ensures
        ({
            let delta = child(choice, "delta"@);
            let r = delta_reasoning(delta);
            let x = match str_field(delta, "content"@) {
                Some(x) => x,
                None => Seq::<char>::empty(),
            };
            let open_before_content = open || r.len() > 0;
            &&& delta_text(open, choice).0 == (if r.len() > 0 && !open {
                "<think>"@
            } else {
                Seq::<char>::empty()
            }) + r + (if x.len() > 0 && open_before_content {
                "</think>"@
            } else {
                Seq::<char>::empty()
            }) + x
            &&& delta_text(open, choice).1 == (open_before_content && x.len() == 0)
        }),
{
    let delta = child(choice, "delta"@);
    let r = delta_reasoning(delta);
    let e = Seq::<char>::empty();
    assert(e + r =~= r);
    assert(r + e =~= r);
    assert(r + e + e =~= r);
    assert(("<think>"@ + r) + e =~= "<think>"@ + r);
    match str_field(delta, "content"@) {
        Some(x) => {
            assert(r + e + x =~= r + x);
            assert(e + r + e + x =~= r + x);
            assert(e + r + x =~= r + x);
            assert(e + r + "</think>"@ + x =~= r + "</think>"@ + x);
            assert(("<think>"@ + r) + e + x =~= "<think>"@ + r + x);
        },
        None => {
            assert(e + r + e + e =~= r);
            assert("<think>"@ + r + e + e =~= "<think>"@ + r);
            assert(e + e + e + e =~= e);
        },
    }
}

/// The finish reason a chunk's first choice reports, if any.
pub open spec fn delta_finish(choice: Option<JsonNode>) -> Option<Seq<char>> {
    match choice {
        Some(c) => match field_str(c, "finish_reason"@) {
            Some(r) => Some(
                if r == "stop"@ {
                    "completed"@
                } else {
                    r
                },
            ),
            None => None,
        },
        None => None,
    }
}

/// The payload of a `data: ` line: the prefix removed (every copy) and the rest trimmed.
pub open spec fn line_data(line: Seq<char>) -> Seq<char> {
    trim(strip_leading_all(line, "data: "@))
}

/// What one line of an event stream is.
pub enum SseLine {
    /// An empty line.
    Blank,
    /// The `[DONE]` marker: the stream finished normally.
    Done,
    /// A JSON chunk; `text_chunk` is what it added to the answer and `data` its JSON text.
    Chunk { text_chunk: String, data: String },
    /// Anything else, which is skipped.
    Ignored,
}

pub open spec fn state_view(s: StreamState) -> (Seq<char>, bool, Option<Seq<char>>) {
    (
        s.full_content@,
        s.reasoning_open,
        match s.last_finish_reason {
            Some(r) => Some(r@),
            None => None,
        },
    )
}

/// How a line changes the stream state.
pub open spec fn line_step(s: (Seq<char>, bool, Option<Seq<char>>), line: Seq<char>) -> (
    (Seq<char>, bool, Option<Seq<char>>),
    Option<Seq<char>>,
) {
    if trim(line).len() == 0 || !starts_with(line, "data: "@) || line_data(line) == "[DONE]"@
        || json_parse(line_data(line)) is None {
        (s, None)
    } else {
        let choice = first_choice(json_parse(line_data(line))->0);
        let (t, open) = delta_text(s.1, choice);
        let fin = match delta_finish(choice) {
            Some(f) => Some(f),
            None => s.2,
        };
        ((s.0 + t, open, fin), Some(t))
    }
}

fn str_field_exec(v: &Option<JsonNode>, key: &str) -> (r: Option<String>)
    ensures
        match r {
            Some(s) => str_field(*v, key@) == Some(s@),
            None => str_field(*v, key@) is None,
        },
{
    match v {
        Some(n) => get_field_str(n, key),
        None => None,
    }
}

fn first_choice_exec(v: &JsonNode) -> (r: Option<JsonNode>)
    ensures
        r == first_choice(*v),
{
    match get_field(v, "choices") {
        Some(Some(JsonNode::Array(items))) => {
            if items.len() > 0 {
                match parse_json(items[0].as_str()) {
                    Ok(c) => Some(c),
                    Err(_) => Some(JsonNode::Null),
                }
            } else {
                None
            }
        },
        _ => None,
    }
}

fn child_of(v: &Option<JsonNode>, key: &str) -> (r: Option<JsonNode>)
    ensures
        r == child(*v, key@),
{
    match v {
        Some(n) => match get_field(n, key) {
            Some(Some(c)) => Some(c),
            _ => None,
        },
        None => None,
    }
}

impl StreamState {
    /// Nothing received yet.
    pub fn new() -> (s: StreamState)
        ensures
            s.full_content@ == Seq::<char>::empty(),
            !s.reasoning_open,
            s.last_finish_reason is None,
    {
        StreamState { full_content: String::new(), reasoning_open: false, last_finish_reason: None }
    }

    /// Processes one line of the event stream.
    pub fn process_line(&mut self, line: &str) -> (r: SseLine)
        ensures
            state_view(*final(self)) == line_step(state_view(*old(self)), line@).0,
            match r {
                SseLine::Blank => trim(line@).len() == 0,
                SseLine::Done => trim(line@).len() > 0 && starts_with(line@, "data: "@)
                    && line_data(line@) == "[DONE]"@,
                SseLine::Chunk { text_chunk, data } => line_step(
                    state_view(*old(self)),
                    line@,
                ).1 == Some(text_chunk@) && data@ == line_data(line@),
                SseLine::Ignored => trim(line@).len() > 0 && line_step(
                    state_view(*old(self)),
                    line@,
                ).1 is None && !(starts_with(line@, "data: "@) && line_data(line@) == "[DONE]"@),
            },
    {
        if is_blank(line) {
            return SseLine::Blank;
        }
        if !starts_with_str(line, "data: ") {
            return SseLine::Ignored;
        }
        proof {
            reveal_strlit("data: ");
        }
        let stripped = trim_start_matches_str(line, "data: ");
        let data = trim_str(stripped.as_str());
        if str_eq(data.as_str(), "[DONE]") {
            return SseLine::Done;
        }
        let chunk = match parse_json(data.as_str()) {
            Ok(c) => c,
            Err(_) => {
                return SseLine::Ignored;
            },
        };
        let choice = first_choice_exec(&chunk);
        let mut text_chunk = String::new();
        match &choice {
            Some(_) => {
                let delta = child_of(&choice, "delta");
                let reasoning = match str_field_exec(&delta, "reasoning_content") {
                    Some(s) => s,
                    None => match str_field_exec(&delta, "reasoningContent") {
                        Some(s) => s,
                        None => match str_field_exec(&delta, "reasoning") {
                            Some(s) => s,
                            None => String::new(),
                        },
                    },
                };
                if reasoning.unicode_len() > 0 {
                    if !self.reasoning_open {
                        append_str(&mut text_chunk, "<think>");
                        self.reasoning_open = true;
                    }
                    append_str(&mut text_chunk, reasoning.as_str());
                }
                match str_field_exec(&delta, "content") {
                    Some(text) => {
                        if text.unicode_len() > 0 && self.reasoning_open {
                            append_str(&mut text_chunk, "</think>");
                            self.reasoning_open = false;
                        }
                        append_str(&mut text_chunk, text.as_str());
                    },
                    None => {},
                }
                match get_field_str(choice.as_ref().unwrap(), "finish_reason") {
                    Some(reason) => {
                        self.last_finish_reason = Some(
                            if str_eq(reason.as_str(), "stop") {
                                String::from_str("completed")
                            } else {
                                reason
                            },
                        );
                    },
                    None => {},
                }
            },
            None => {},
        }
        append_str(&mut self.full_content, text_chunk.as_str());
        SseLine::Chunk { text_chunk, data }
    }

    /// Closes an open `<think>` block, as happens before the stream is finalized; returns
    /// what was appended (`</think>` or nothing).
    pub fn close_reasoning_block(&mut self) -> (r: String)
        ensures
            !final(self).reasoning_open,
            r@ == (if old(self).reasoning_open {
                "</think>"@
            } else {
                Seq::<char>::empty()
            }),
            final(self).full_content@ == old(self).full_content@ + r@,
            final(self).last_finish_reason == old(self).last_finish_reason,
    {
        if self.reasoning_open {
            append_str(&mut self.full_content, "</think>");
            self.reasoning_open = false;
            String::from_str("</think>")
        } else {
            assert(self.full_content@ =~= self.full_content@ + Seq::<char>::empty());
            String::new()
        }
    }
}

/// A line adds exactly the text it reports to the answer; lines that report nothing leave
/// the state as it was.
pub proof fn lemma_line_appends_its_chunk(s: (Seq<char>, bool, Option<Seq<char>>), line: Seq<char>)
    ensures
        line_step(s, line).1 is Some ==> line_step(s, line).0.0 == s.0 + line_step(s, line).1->0,
        line_step(s, line).1 is None ==> line_step(s, line).0 == s,
{
}

/// Reasoning never leaves a block open across content: after a line whose delta carries
/// non-empty content, no `<think>` block is open.
pub proof fn lemma_content_closes_reasoning(open: bool, choice: Option<JsonNode>)
    requires
        choice is Some,
        str_field(child(choice, "delta"@), "content"@) is Some,
        str_field(child(choice, "delta"@), "content"@)->0.len() > 0,
    ensures
        !delta_text(open, choice).1,
{
}

/// How a stream that ended without `[DONE]` is reported.
pub enum StreamEnd {
    /// Content or a finish reason arrived: a normal end with the last finish reason.
    Normal(Option<String>),
    /// Nothing arrived: the connection broke.
    Error(String),
}

/// Decides how a stream that ended without `[DONE]` is reported.
pub fn stream_end_without_done(state: &StreamState) -> (r: StreamEnd)
    ensures
        (state.full_content@.len() > 0 || state.last_finish_reason is Some) ==> (r matches StreamEnd::Normal(f) && match (f, state.last_finish_reason) {
            (Some(a), Some(b)) => a@ == b@,
            (None, None) => true,
            _ => false,
        }),
        !(state.full_content@.len() > 0 || state.last_finish_reason is Some) ==> (r matches StreamEnd::Error(m) && m@ == "网络连接意外断开"@),
{
    if state.full_content.unicode_len() > 0 || state.last_finish_reason.is_some() {
        let f = match &state.last_finish_reason {
            Some(s) => Some(s.clone()),
            None => None,
        };
        StreamEnd::Normal(f)
    } else {
        StreamEnd::Error(String::from_str("网络连接意外断开"))
    }
}

/// Least time between two parses of the answer tail, by its projected size: small tails at
/// 80 ms, medium at 120 ms, large at 200 ms.
pub fn adaptive_parse_interval_ms(tail_len: usize) -> (r: u64)
    ensures
        r == (if tail_len <= 8191 {
            80u64
        } else if tail_len <= 24575 {
            120u64
        } else {
            200u64
        }),
{
    if tail_len <= 8191 {
        80
    } else if tail_len <= 24575 {
        120
    } else {
        200
    }
}

/// Pending bytes that force a parse regardless of the interval, by projected tail size.
pub fn adaptive_force_bytes(tail_len: usize) -> (r: usize)
    ensures
        r == (if tail_len <= 8191 {
            1024usize
        } else if tail_len <= 24575 {
            4096usize
        } else {
            8192usize
        }),
{
    if tail_len <= 8191 {
        1024
    } else if tail_len <= 24575 {
        4096
    } else {
        8192
    }
}

/// Whether pending text is parsed now: never when nothing is pending; always when forced;
/// otherwise once the interval has passed or enough bytes are pending.
pub fn should_parse_now(force: bool, elapsed_ms: u64, pending_len: usize, tail_len: usize) -> (r: bool)
    requires
        tail_len + pending_len <= usize::MAX,
    ensures
        r == (pending_len > 0 && (force || elapsed_ms >= (if tail_len + pending_len <= 8191 {
            80u64
        } else if tail_len + pending_len <= 24575 {
            120u64
        } else {
            200u64
        }) || pending_len >= (if tail_len + pending_len <= 8191 {
            1024usize
        } else if tail_len + pending_len <= 24575 {
            4096usize
        } else {
            8192usize
        }))),
{
    if pending_len == 0 {
        return false;
    }
    let projected = tail_len + pending_len;
    if !force && elapsed_ms < adaptive_parse_interval_ms(projected) && pending_len
        < adaptive_force_bytes(projected) {
        return false;
    }
    true
}

/// The error reported for a failed non-streamed request: the HTTP status and the first
/// 512 characters of the body, when they are not blank.
pub fn non_stream_http_error(status: &str, body: &str) -> (r: String)
    ensures
        ({
            let detail = body@.take(if 512 < body@.len() { 512 } else { body@.len() as int });
            r@ == if trim(detail).len() == 0 {
                "VCP non-stream response failed with HTTP "@ + status@
            } else {
                "VCP non-stream response failed with HTTP "@ + status@ + ": "@ + detail
            }
        }),
{
    let detail = take_chars(body, 512);
    let mut s = String::from_str("VCP non-stream response failed with HTTP ");
    append_str(&mut s, status);
    if !is_blank(detail.as_str()) {
        append_str(&mut s, ": ");
        append_str(&mut s, detail.as_str());
    }
    s
}

// ------------------------------------------------------------------ failures

/// How a request failed outside its stream of lines.
pub enum RequestFailure {
    /// A streamed request was answered with a failing HTTP status (and this body).
    StreamHttp(String, String),
    /// A streamed request could not be made.
    StreamNetwork(String),
    /// A non-streamed request could not be made.
    Send(String),
    /// The body of a non-streamed response could not be read.
    Read(String),
    /// The body of a non-streamed response is not JSON.
    Parse(String),
}

/// What a failure is reported as: the text of the error event sent to the caller, and the
/// error the request returns.
pub struct FailureReport {
    pub event_error: String,
    pub returned_error: String,
}

pub open spec fn failure_report_spec(f: RequestFailure) -> (Seq<char>, Seq<char>) {
    match f {
        RequestFailure::StreamHttp(status, body) => (
            "VCP服务器错误: "@ + status@ + " - "@ + body@,
            "VCP Error: "@ + status@,
        ),
        RequestFailure::StreamNetwork(e) => ("网络请求异常: "@ + e@, e@),
        RequestFailure::Send(e) => (
            "VCP non-stream request failed: "@ + e@,
            "VCP non-stream request failed: "@ + e@,
        ),
        RequestFailure::Read(e) => (
            "VCP non-stream response read failed: "@ + e@,
            "VCP non-stream response read failed: "@ + e@,
        ),
        RequestFailure::Parse(e) => (
            "VCP non-stream JSON parse failed: "@ + e@,
            "VCP non-stream JSON parse failed: "@ + e@,
        ),
    }
}

/// Reports a failed request (see `failure_report_spec`).
pub fn failure_report(f: RequestFailure) -> (r: FailureReport)
    ensures
        (r.event_error@, r.returned_error@) == failure_report_spec(f),
{
    match f {
        RequestFailure::StreamHttp(status, body) => {
            let mut event_error = String::from_str("VCP服务器错误: ");
            append_str(&mut event_error, status.as_str());
            append_str(&mut event_error, " - ");
            append_str(&mut event_error, body.as_str());
            let mut returned_error = String::from_str("VCP Error: ");
            append_str(&mut returned_error, status.as_str());
            FailureReport { event_error, returned_error }
        },
        RequestFailure::StreamNetwork(e) => {
            let mut event_error = String::from_str("网络请求异常: ");
            append_str(&mut event_error, e.as_str());
            FailureReport { event_error, returned_error: e }
        },
        RequestFailure::Send(e) => {
            let msg = concat2("VCP non-stream request failed: ", e.as_str());
            FailureReport { event_error: msg.clone(), returned_error: msg }
        },
        RequestFailure::Read(e) => {
            let msg = concat2("VCP non-stream response read failed: ", e.as_str());
            FailureReport { event_error: msg.clone(), returned_error: msg }
        },
        RequestFailure::Parse(e) => {
            let msg = concat2("VCP non-stream JSON parse failed: ", e.as_str());
            FailureReport { event_error: msg.clone(), returned_error: msg }
        },
    }
}

/// Why a stream stopped before its end.
pub enum StreamStop {
    /// The user cancelled the request.
    Aborted,
    /// Reading the stream failed.
    ReadError(String),
}

/// The finish reason and error text the final update of a stopped stream carries.
pub fn stream_stop_report(stop: StreamStop) -> (r: (String, String))
    ensures
        match stop {
            StreamStop::Aborted => r.0@ == "cancelled_by_user"@ && r.1@ == "请求已中止"@,
            StreamStop::ReadError(e) => r.0@ == "error"@ && r.1@ == "流读取错误: "@ + e@,
        },
{
    match stop {
        StreamStop::Aborted => (String::from_str("cancelled_by_user"), String::from_str("请求已中止")),
        StreamStop::ReadError(e) => (String::from_str("error"), concat2("流读取错误: ", e.as_str())),
    }
}

} // verus!

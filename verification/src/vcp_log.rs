use vstd::prelude::*;
use vstd::string::*;
use std::collections::VecDeque;
use crate::json::{JsonNode, json_parse, parse_json};
use crate::text::{
    append_str, contains_seq, contains_str, decimal, ends_with, ends_with_str, push_decimal,
    strip_trailing, trim_end_char,
};
use crate::urls::{UrlParts, parse_url, serialize_url, url_parse_parts, url_serialization};

verus! {

broadcast use vstd::string::group_string_axioms;

// ------------------------------------------------------------------ connection results

/// Combines the outcomes of acting on the VCPLog and VCPInfo connections into one.
pub fn combine_connection_results(
    action: &str,
    log_result: Result<(), String>,
    info_result: Result<(), String>,
) -> (r: Result<(), String>)
    ensures
        match (log_result, info_result) {
            (Ok(()), Ok(())) => r is Ok,
            (Err(l), Ok(())) => r is Err && r->Err_0@ == "Failed to "@ + action@ + " VCPLog: "@ + l@,
            (Ok(()), Err(i)) => r is Err && r->Err_0@ == "Failed to "@ + action@ + " VCPInfo: "@ + i@,
            (Err(l), Err(i)) => r is Err && r->Err_0@ == "Failed to "@ + action@ + " VCPLog ("@ + l@
                + ") and VCPInfo ("@ + i@ + ")"@,
        },
{
    match (log_result, info_result) {
        (Ok(()), Ok(())) => Ok(()),
        (Err(l), Ok(())) => {
            let mut s = String::from_str("Failed to ");
            append_str(&mut s, action);
            append_str(&mut s, " VCPLog: ");
            append_str(&mut s, l.as_str());
            Err(s)
        },
        (Ok(()), Err(i)) => {
            let mut s = String::from_str("Failed to ");
            append_str(&mut s, action);
            append_str(&mut s, " VCPInfo: ");
            append_str(&mut s, i.as_str());
            Err(s)
        },
        (Err(l), Err(i)) => {
            let mut s = String::from_str("Failed to ");
            append_str(&mut s, action);
            append_str(&mut s, " VCPLog (");
            append_str(&mut s, l.as_str());
            append_str(&mut s, ") and VCPInfo (");
            append_str(&mut s, i.as_str());
            append_str(&mut s, ")");
            Err(s)
        },
    }
}

// ------------------------------------------------------------------ heartbeat

/// Shortest heartbeat period of the log connection, in milliseconds.
pub const MIN_VCP_LOG_HEARTBEAT_MS: u64 = 5000;

/// The heartbeat period requested for the app's state: 15 s in the foreground, 2 min in
/// the background.
pub fn foreground_heartbeat_ms(is_foreground: bool) -> (r: u64)
    ensures
        r == (if is_foreground {
            15000u64
        } else {
            120000u64
        }),
{
    if is_foreground {
        15000
    } else {
        120000
    }
}

/// The heartbeat period actually used: the requested one, at least the minimum.
pub fn log_heartbeat_interval_ms(raw_ms: u64) -> (r: u64)
    ensures
        r == (if raw_ms < MIN_VCP_LOG_HEARTBEAT_MS {
            MIN_VCP_LOG_HEARTBEAT_MS
        } else {
            raw_ms
        }),
        r >= MIN_VCP_LOG_HEARTBEAT_MS,
{
    if raw_ms < MIN_VCP_LOG_HEARTBEAT_MS {
        MIN_VCP_LOG_HEARTBEAT_MS
    } else {
        raw_ms
    }
}

// ------------------------------------------------------------------ background cache

/// Most log events kept while the app is in the background.
pub const MAX_BACKGROUND_LOG_EVENTS: usize = 500;

/// Log events (as JSON text) received while the app was in the background, oldest first.
pub struct BackgroundLogCache {
    pub events: VecDeque<String>,
}

/// The cache after one more event: the event appended, the oldest dropped when full.
pub open spec fn cache_push_spec(events: Seq<Seq<char>>, payload: Seq<char>) -> Seq<Seq<char>> {
    if events.len() >= MAX_BACKGROUND_LOG_EVENTS {
        events.drop_first().push(payload)
    } else {
        events.push(payload)
    }
}

impl BackgroundLogCache {
    pub open spec fn view_events(&self) -> Seq<Seq<char>> {
        self.events@.map_values(|s: String| s@)
    }

    pub fn new() -> (c: BackgroundLogCache)
        ensures
            c.view_events() == Seq::<Seq<char>>::empty(),
    {
        let c = BackgroundLogCache { events: VecDeque::new() };
        assert(c.view_events() =~= Seq::<Seq<char>>::empty());
        c
    }

    /// Keeps an event for later, dropping the oldest when the cache is full.
    pub fn push(&mut self, payload: String)
        requires
            old(self).events@.len() <= MAX_BACKGROUND_LOG_EVENTS,
        ensures
            final(self).view_events() == cache_push_spec(old(self).view_events(), payload@),
            final(self).events@.len() <= MAX_BACKGROUND_LOG_EVENTS,
    {
        let ghost before = self.events@;
        if self.events.len() >= MAX_BACKGROUND_LOG_EVENTS {
            let _ = self.events.pop_front();
        }
        let ghost mid = self.events@;
        self.events.push_back(payload);
        proof {
            if before.len() >= MAX_BACKGROUND_LOG_EVENTS {
                assert(mid =~= before.drop_first());
                assert(before.drop_first().map_values(|s: String| s@) =~= before.map_values(
                    |s: String| s@,
                ).drop_first());
            }
            assert(self.view_events() =~= mid.map_values(|s: String| s@).push(payload@));
        }
    }

    /// Takes every cached event, oldest first, leaving the cache empty.
    pub fn drain(&mut self) -> (r: Vec<String>)
        ensures
            r@.map_values(|s: String| s@) == old(self).view_events(),
            final(self).view_events() == Seq::<Seq<char>>::empty(),
    {
        let ghost start = self.events@;
        let mut out: Vec<String> = Vec::new();
        while self.events.len() > 0
            invariant
                out@ + self.events@ == start,
            decreases self.events@.len(),
        {
            let ghost before = self.events@;
            match self.events.pop_front() {
                Some(e) => {
                    out.push(e);
                    assert(out@ + self.events@ =~= start);
                },
                None => {},
            }
        }
        assert(out@ =~= start);
        assert(self.view_events() =~= Seq::<Seq<char>>::empty());
        out
    }
}

/// What happens to a log event: shown at once in the foreground, cached in the background.
/// Returns the event to emit now, if any.
pub fn route_log_event(is_foreground: bool, cache: &mut BackgroundLogCache, payload: String) -> (r:
    Option<String>)
    requires
        old(cache).events@.len() <= MAX_BACKGROUND_LOG_EVENTS,
    ensures
        is_foreground ==> r == Some(payload) && final(cache).view_events() == old(cache).view_events(),
        !is_foreground ==> r is None && final(cache).view_events() == cache_push_spec(
            old(cache).view_events(),
            payload@,
        ),
        final(cache).events@.len() <= MAX_BACKGROUND_LOG_EVENTS,
{
    if is_foreground {
        Some(payload)
    } else {
        cache.push(payload);
        None
    }
}

/// The background cache never holds more than its limit, and keeps the newest events: after
/// a push the pushed event is the last one.
pub proof fn lemma_cache_bounded_and_keeps_newest(events: Seq<Seq<char>>, payload: Seq<char>)
    requires
        events.len() <= MAX_BACKGROUND_LOG_EVENTS,
    ensures
        cache_push_spec(events, payload).len() <= MAX_BACKGROUND_LOG_EVENTS,
        cache_push_spec(events, payload).last() == payload,
        events.len() < MAX_BACKGROUND_LOG_EVENTS ==> cache_push_spec(events, payload).len()
            == events.len() + 1,
{
}

// ------------------------------------------------------------------ incoming messages

/// A text frame as it is passed on: its JSON value, or the raw text when it is not JSON.
pub enum IncomingPayload {
    Json(JsonNode),
    RawText(String),
}

/// Reads a text frame of the log connection.
pub fn incoming_payload(text: &str) -> (r: IncomingPayload)
    ensures
        match r {
            IncomingPayload::Json(v) => json_parse(text@) == Some(v),
            IncomingPayload::RawText(t) => json_parse(text@) is None && t@ == text@,
        },
{
    match parse_json(text) {
        Ok(v) => IncomingPayload::Json(v),
        Err(_) => IncomingPayload::RawText(text.to_string()),
    }
}

// ------------------------------------------------------------------ the log URL

/// The text of the log URL: the configured URL without trailing slashes, with `/VCPlog`
/// appended unless present, and `VCP_Key={key}` appended (after a `/`) unless a key is
/// already in it.
pub open spec fn log_url_text(url: Seq<char>, key: Seq<char>) -> Seq<char> {
    let b0 = strip_trailing(url, '/');
    let b1 = if contains_seq(b0, "/VCPlog"@) {
        b0
    } else {
        b0 + "/VCPlog"@
    };
    if contains_seq(b1, "VCP_Key="@) {
        b1
    } else {
        let b2 = if ends_with(b1, "/"@) {
            b1
        } else {
            b1.push('/')
        };
        b2 + "VCP_Key="@ + key
    }
}

/// Builds the log URL and parses it; the result is its serialization.
pub fn parse_log_url(url: &str, key: &str) -> (r: Result<String, String>)
    ensures
        r is Ok <==> url_serialization(log_url_text(url@, key@)) is Some,
        r is Ok ==> url_serialization(log_url_text(url@, key@)) == Some(r->Ok_0@),
{
    let mut base = trim_end_char(url, '/');
    if !contains_str(base.as_str(), "/VCPlog") {
        append_str(&mut base, "/VCPlog");
    }
    let with_key = if contains_str(base.as_str(), "VCP_Key=") {
        base
    } else {
        let mut b = base;
        if !ends_with_str(b.as_str(), "/") {
            crate::text::push_char(&mut b, '/');
        }
        append_str(&mut b, "VCP_Key=");
        append_str(&mut b, key);
        b
    };
    assert(with_key@ == log_url_text(url@, key@));
    match serialize_url(with_key.as_str()) {
        Ok(u) => Ok(u),
        Err(e) => {
            let mut s = String::from_str("Invalid URL: ");
            append_str(&mut s, e.as_str());
            Err(s)
        },
    }
}

/// The user agent the log connection presents.
pub const MOBILE_USER_AGENT: &'static str =
    "Mozilla/5.0 (Linux; Android 10; K) AppleWebKit/537.36 (KHTML, like Gecko) Chrome/120.0.0.0 Mobile Safari/537.36";

/// `host[:port]`.
pub open spec fn host_with_port(host: Seq<char>, port: Option<u16>) -> Seq<char> {
    match port {
        Some(p) => host + ":"@ + decimal(p as nat),
        None => host,
    }
}

/// The headers the log connection's request carries besides the WebSocket ones: `Host` and
/// `Origin` (`https` for `wss`, else `http`) when the URL has a host, and the user agent.
pub open spec fn ws_headers_spec(p: UrlParts) -> Seq<(Seq<char>, Seq<char>)> {
    let ua = ("User-Agent"@, MOBILE_USER_AGENT@);
    match p.host {
        Some(h) => {
            let scheme = if p.scheme@ == "wss"@ {
                "https"@
            } else {
                "http"@
            };
            seq![
                ("Host"@, host_with_port(h@, p.port)),
                ("Origin"@, scheme + "://"@ + host_with_port(h@, p.port)),
                ua,
            ]
        },
        None => seq![ua],
    }
}

fn push_host_with_port(s: &mut String, host: &str, port: Option<u16>)
    ensures
        final(s)@ == old(s)@ + host_with_port(host@, port),
{
    append_str(s, host);
    match port {
        Some(p) => {
            append_str(s, ":");
            push_decimal(s, p as u64);
        },
        None => {},
    }
}

/// The extra headers of the log connection's request to a URL (see `ws_headers_spec`);
/// `None` when the text is not a URL.
pub fn ws_request_headers(url: &str) -> (r: Option<Vec<(String, String)>>)
    ensures
        r is Some <==> url_parse_parts(url@) is Some,
        r matches Some(h) ==> h@.map_values(|h: (String, String)| (h.0@, h.1@)) == ws_headers_spec(
            url_parse_parts(url@)->0,
        ),
{
    match parse_url(url) {
        Some(p) => Some(headers_for(&p)),
        None => None,
    }
}

fn headers_for(p: &UrlParts) -> (r: Vec<(String, String)>)
    ensures
        r@.map_values(|h: (String, String)| (h.0@, h.1@)) == ws_headers_spec(*p),
{
    let mut out: Vec<(String, String)> = Vec::new();
    match &p.host {
        Some(h) => {
            let mut host = String::new();
            push_host_with_port(&mut host, h.as_str(), p.port);
            let mut origin = if str_is(p.scheme.as_str(), "wss") {
                String::from_str("https")
            } else {
                String::from_str("http")
            };
            append_str(&mut origin, "://");
            push_host_with_port(&mut origin, h.as_str(), p.port);
            out.push((String::from_str("Host"), host));
            out.push((String::from_str("Origin"), origin));
        },
        None => {},
    }
    out.push((String::from_str("User-Agent"), MOBILE_USER_AGENT.to_string()));
    assert(out@.map_values(|h: (String, String)| (h.0@, h.1@)) =~= ws_headers_spec(*p));
    out
}

fn str_is(a: &str, b: &str) -> (r: bool)
    ensures
        r == (a@ == b@),
{
    crate::text::str_eq(a, b)
}

// ------------------------------------------------------------------ the listener

/// First wait before reconnecting, in milliseconds.
pub const INITIAL_RETRY_DELAY_MS: u64 = 1000;

/// Longest wait before reconnecting, in milliseconds.
pub const MAX_RETRY_DELAY_MS: u64 = 60000;

/// The wait after `delay`: doubled, at most the maximum.
pub open spec fn next_delay(delay: u64) -> u64 {
    if delay * 2 > MAX_RETRY_DELAY_MS {
        MAX_RETRY_DELAY_MS
    } else {
        (delay * 2) as u64
    }
}

/// What happened to the log connection.
pub enum ListenerEvent {
    /// A URL is set and a connection attempt starts.
    Attempt,
    /// The request could not be built from the URL.
    RequestFailed(String),
    /// The WebSocket connected.
    Connected,
    /// The connection attempt failed.
    ConnectFailed(String),
    /// The connection attempt took longer than ten seconds.
    TimedOut,
    /// An established connection ended (closed, failed, or its URL changed).
    Disconnected,
}

/// A notice card shown in the log panel about the connection.
pub struct LogCard {
    pub status: String,
    pub tool_name: String,
    pub content: String,
}

/// What the listener does in answer to an event.
pub struct ListenerActions {
    /// The new connection status, reported to the app with its message.
    pub status: String,
    pub status_message: String,
    /// A notice card, if one is shown.
    pub card: Option<LogCard>,
    /// Whether outgoing messages may now be sent (only while connected).
    pub sender_available: bool,
    /// How long to wait (unless the URL changes) before the next attempt, if one follows.
    pub wait_ms: Option<u64>,
}

/// The state of the log connection's listener.
pub struct LogListener {
    /// `closed`, `connecting`, `connected` or `error`.
    pub status: String,
    /// The wait before the next reconnection attempt.
    pub retry_delay_ms: u64,
}

pub open spec fn listener_wf(l: LogListener) -> bool {
    INITIAL_RETRY_DELAY_MS <= l.retry_delay_ms <= MAX_RETRY_DELAY_MS
}

/// The status an event leaves the connection in.
pub open spec fn status_after(ev: ListenerEvent) -> Seq<char> {
    match ev {
        ListenerEvent::Attempt => "connecting"@,
        ListenerEvent::Connected => "connected"@,
        ListenerEvent::Disconnected => "closed"@,
        _ => "error"@,
    }
}

/// The message reported with a status.
pub open spec fn status_message(status: Seq<char>) -> Seq<char> {
    if status == "connecting"@ {
        "连接中..."@
    } else if status == "connected"@ {
        "已连接"@
    } else if status == "closed"@ {
        "连接已断开"@
    } else {
        "连接错误"@
    }
}

/// Whether an event ends an attempt, so that a wait follows.
pub open spec fn ends_attempt(ev: ListenerEvent) -> bool {
    match ev {
        ListenerEvent::Attempt => false,
        ListenerEvent::Connected => false,
        _ => true,
    }
}

fn status_text(status: &str) -> (r: String)
    ensures
        r@ == status_message(status@),
{
    if str_is(status, "connecting") {
        String::from_str("连接中...")
    } else if str_is(status, "connected") {
        String::from_str("已连接")
    } else if str_is(status, "closed") {
        String::from_str("连接已断开")
    } else {
        String::from_str("连接错误")
    }
}

/// The notice card an event shows, as (status, tool name, content).
pub open spec fn card_after(ev: ListenerEvent) -> Option<(Seq<char>, Seq<char>, Seq<char>)> {
    match ev {
        ListenerEvent::Attempt => None,
        ListenerEvent::Disconnected => None,
        ListenerEvent::Connected => Some(
            ("success"@, "VCPLog"@, "✅ VCPLog 连接成功！已建立实时数据通道。"@),
        ),
        ListenerEvent::RequestFailed(e) => Some(
            (
                "error"@,
                "VCPLog 请求异常"@,
                "❌ 无法构造请求: "@ + e@ + "\n\n提示：请检查配置的 URL 格式是否正确。"@,
            ),
        ),
        ListenerEvent::ConnectFailed(e) => Some(
            (
                "error"@,
                "VCPLog 连接失败"@,
                "❌ 连接错误: "@ + e@
                    + "\n\n提示：\n1. 请检查桌面端 VCP 是否已开启且 VCPLog 服务正常。\n2. 检查 VCP API 地址和 Key 配置是否正确。"@,
            ),
        ),
        ListenerEvent::TimedOut => Some(
            (
                "error"@,
                "VCPLog 连接超时"@,
                "❌ 连接 VCPLog 超时 (10s)。\n\n提示：\n1. 请检查桌面端是否处于运行状态。\n2. 确认手机与电脑是否处于同一局域网。"@,
            ),
        ),
    }
}

pub open spec fn card_view(c: Option<LogCard>) -> Option<(Seq<char>, Seq<char>, Seq<char>)> {
    match c {
        Some(c) => Some((c.status@, c.tool_name@, c.content@)),
        None => None,
    }
}

fn card(status: &str, tool_name: &str, content: String) -> (r: LogCard)
    ensures
        r.status@ == status@,
        r.tool_name@ == tool_name@,
        r.content == content,
{
    LogCard { status: status.to_string(), tool_name: tool_name.to_string(), content }
}

impl LogListener {
    /// A listener that has not connected yet.
    pub fn new() -> (l: LogListener)
        ensures
            l.status@ == "closed"@,
            l.retry_delay_ms == INITIAL_RETRY_DELAY_MS,
            listener_wf(l),
    {
        LogListener { status: String::from_str("closed"), retry_delay_ms: INITIAL_RETRY_DELAY_MS }
    }

    /// Advances the listener by one event.
    pub fn on_event(&mut self, ev: ListenerEvent) -> (a: ListenerActions)
        requires
            listener_wf(*old(self)),
        ensures
            listener_wf(*final(self)),
            final(self).status@ == status_after(ev),
            a.status@ == status_after(ev),
            a.status_message@ == status_message(status_after(ev)),
            a.sender_available == (ev is Connected),
            card_view(a.card) == card_after(ev),
            ev is Connected ==> final(self).retry_delay_ms == INITIAL_RETRY_DELAY_MS,
            ends_attempt(ev) ==> a.wait_ms == Some(old(self).retry_delay_ms)
                && final(self).retry_delay_ms == next_delay(old(self).retry_delay_ms),
            ev is Attempt ==> a.wait_ms is None && final(self).retry_delay_ms
                == old(self).retry_delay_ms,
            ev is Connected ==> a.wait_ms is None,
    {
        proof {
            reveal_strlit("connecting");
            reveal_strlit("connected");
            reveal_strlit("closed");
            reveal_strlit("error");
        }
        let delay = self.retry_delay_ms;
        let doubled = if delay > MAX_RETRY_DELAY_MS / 2 {
            MAX_RETRY_DELAY_MS
        } else {
            delay * 2
        };
        match ev {
            ListenerEvent::Attempt => {
                self.status = String::from_str("connecting");
                ListenerActions {
                    status: String::from_str("connecting"),
                    status_message: status_text("connecting"),
                    card: None,
                    sender_available: false,
                    wait_ms: None,
                }
            },
            ListenerEvent::RequestFailed(e) => {
                self.status = String::from_str("error");
                self.retry_delay_ms = doubled;
                let mut content = String::from_str("❌ 无法构造请求: ");
                append_str(&mut content, e.as_str());
                append_str(&mut content, "\n\n提示：请检查配置的 URL 格式是否正确。");
                ListenerActions {
                    status: String::from_str("error"),
                    status_message: status_text("error"),
                    card: Some(card("error", "VCPLog 请求异常", content)),
                    sender_available: false,
                    wait_ms: Some(delay),
                }
            },
            ListenerEvent::Connected => {
                self.status = String::from_str("connected");
                self.retry_delay_ms = INITIAL_RETRY_DELAY_MS;
                ListenerActions {
                    status: String::from_str("connected"),
                    status_message: status_text("connected"),
                    card: Some(
                        card(
                            "success",
                            "VCPLog",
                            String::from_str("✅ VCPLog 连接成功！已建立实时数据通道。"),
                        ),
                    ),
                    sender_available: true,
                    wait_ms: None,
                }
            },
            ListenerEvent::ConnectFailed(e) => {
                self.status = String::from_str("error");
                self.retry_delay_ms = doubled;
                let mut content = String::from_str("❌ 连接错误: ");
                append_str(&mut content, e.as_str());
                append_str(
                    &mut content,
                    "\n\n提示：\n1. 请检查桌面端 VCP 是否已开启且 VCPLog 服务正常。\n2. 检查 VCP API 地址和 Key 配置是否正确。",
                );
                ListenerActions {
                    status: String::from_str("error"),
                    status_message: status_text("error"),
                    card: Some(card("error", "VCPLog 连接失败", content)),
                    sender_available: false,
                    wait_ms: Some(delay),
                }
            },
            ListenerEvent::TimedOut => {
                self.status = String::from_str("error");
                self.retry_delay_ms = doubled;
                ListenerActions {
                    status: String::from_str("error"),
                    status_message: status_text("error"),
                    card: Some(
                        card(
                            "error",
                            "VCPLog 连接超时",
                            String::from_str(
                                "❌ 连接 VCPLog 超时 (10s)。\n\n提示：\n1. 请检查桌面端是否处于运行状态。\n2. 确认手机与电脑是否处于同一局域网。",
                            ),
                        ),
                    ),
                    sender_available: false,
                    wait_ms: Some(delay),
                }
            },
            ListenerEvent::Disconnected => {
                self.status = String::from_str("closed");
                self.retry_delay_ms = doubled;
                ListenerActions {
                    status: String::from_str("closed"),
                    status_message: status_text("closed"),
                    card: None,
                    sender_available: false,
                    wait_ms: Some(delay),
                }
            },
        }
    }
}

/// The reconnection wait never leaves its bounds, and after `k` failures in a row from the
/// first wait it is `min(1000 * 2^k, 60000)`: it doubles and then stays at the maximum.
pub proof fn lemma_retry_delay_bounded(delay: u64)
    requires
        INITIAL_RETRY_DELAY_MS <= delay <= MAX_RETRY_DELAY_MS,
    ensures
        INITIAL_RETRY_DELAY_MS <= next_delay(delay) <= MAX_RETRY_DELAY_MS,
        next_delay(delay) >= delay,
        delay == MAX_RETRY_DELAY_MS ==> next_delay(delay) == MAX_RETRY_DELAY_MS,
{
}

} // verus!

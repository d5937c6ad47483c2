use vcp_mobile::json::JsonNode;
use vcp_mobile::lifecycle_controller::Settings;
use vcp_mobile::vcp_request::{
    attachment_display_name, attachment_fallback_text, attachment_media_kind, content_rewrite,
    has_inline_images, has_system_message, latest_image_user_message_index, local_file_path,
    request_url, stream_requested, tool_injection_enabled, ContentRewrite,
};
use vcp_mobile::vcp_stream::{
    failure_report, stream_stop_report, RequestFailure, StreamStop,
};
use vcp_mobile::vcp_request::{attachment_action, skips_attachment, AttachmentAction, Conversion};
use vcp_mobile::vcp_stream::{
    adaptive_force_bytes, adaptive_parse_interval_ms, non_stream_http_error, should_parse_now,
    stream_end_without_done, SseLine, StreamEnd, StreamState,
};

fn json_node(text: &str) -> Result<JsonNode, String> {
    let value = serde_json::from_str::<serde_json::Value>(text).map_err(|e| e.to_string())?;
    Ok(match value {
        serde_json::Value::Null => JsonNode::Null,
        serde_json::Value::Bool(b) => JsonNode::Bool(b),
        serde_json::Value::Number(n) => JsonNode::Number(n.to_string()),
        serde_json::Value::String(s) => JsonNode::Str(s),
        serde_json::Value::Array(a) => JsonNode::Array(a.iter().map(|x| x.to_string()).collect()),
        serde_json::Value::Object(o) => {
            JsonNode::Object(o.into_iter().map(|(k, x)| (k, x.to_string())).collect())
        }
    })
}

#[test]
fn reasoning_is_wrapped_and_closed_by_content() {
    let mut s = StreamState::new();
    let r = s.process_line(r#"data: {"choices":[{"delta":{"reasoning_content":"hmm"}}]}"#);
    assert!(matches!(r, SseLine::Chunk { ref text_chunk, .. } if text_chunk == "<think>hmm"));
    assert!(s.reasoning_open);
    let r = s.process_line(r#"data: {"choices":[{"delta":{"content":"Hi"},"finish_reason":"stop"}]}"#);
    assert!(matches!(r, SseLine::Chunk { ref text_chunk, .. } if text_chunk == "</think>Hi"));
    assert!(!s.reasoning_open);
    assert_eq!(s.full_content, "<think>hmm</think>Hi");
    assert_eq!(s.last_finish_reason.as_deref(), Some("completed"));
}

#[test]
fn other_lines_are_classified() {
    let mut s = StreamState::new();
    assert!(matches!(s.process_line("   "), SseLine::Blank));
    assert!(matches!(s.process_line("event: ping"), SseLine::Ignored));
    assert!(matches!(s.process_line("data: {oops"), SseLine::Ignored));
    assert!(matches!(s.process_line("data: [DONE]"), SseLine::Done));
    assert!(matches!(s.process_line("data: data: [DONE] "), SseLine::Done));
    assert_eq!(s.full_content, "");
}

#[test]
fn closing_reasoning_appends_the_tag_once() {
    let mut s = StreamState::new();
    s.process_line(r#"data: {"choices":[{"delta":{"reasoning":"x"}}]}"#);
    assert_eq!(s.close_reasoning_block(), "</think>");
    assert_eq!(s.close_reasoning_block(), "");
    assert_eq!(s.full_content, "<think>x</think>");
}

#[test]
fn stream_end_without_done_depends_on_what_arrived() {
    let s = StreamState::new();
    assert!(matches!(stream_end_without_done(&s), StreamEnd::Error(ref m) if m == "网络连接意外断开"));
    let mut s = StreamState::new();
    s.process_line(r#"data: {"choices":[{"delta":{"content":"a"}}]}"#);
    assert!(matches!(stream_end_without_done(&s), StreamEnd::Normal(None)));
}

#[test]
fn parse_pacing_follows_tail_size() {
    assert_eq!(adaptive_parse_interval_ms(0), 80);
    assert_eq!(adaptive_parse_interval_ms(8192), 120);
    assert_eq!(adaptive_parse_interval_ms(24576), 200);
    assert_eq!(adaptive_force_bytes(8191), 1024);
    assert_eq!(adaptive_force_bytes(24575), 4096);
    assert_eq!(adaptive_force_bytes(30000), 8192);
    assert!(!should_parse_now(true, 0, 0, 0));
    assert!(should_parse_now(true, 0, 1, 0));
    assert!(!should_parse_now(false, 79, 10, 0));
    assert!(should_parse_now(false, 80, 10, 0));
    assert!(should_parse_now(false, 0, 1024, 0));
}

#[test]
fn http_error_includes_non_blank_detail() {
    assert_eq!(
        non_stream_http_error("502 Bad Gateway", "  "),
        "VCP non-stream response failed with HTTP 502 Bad Gateway"
    );
    assert_eq!(
        non_stream_http_error("500", "boom"),
        "VCP non-stream response failed with HTTP 500: boom"
    );
    let long = "y".repeat(600);
    assert_eq!(non_stream_http_error("500", &long).len(), 46 + 512);
}

#[test]
fn latest_image_message_is_found_from_the_end() {
    let img = r#"{"role":"user","content":[{"type":"local_file","mime":"image/png","path":"/a"}]}"#;
    let text = r#"{"role":"user","content":"hi"}"#;
    let asst = r#"{"role":"assistant","content":[{"type":"local_file","mime":"image/png"}]}"#;
    let msgs = vec![
        json_node(img).unwrap(),
        json_node(img).unwrap(),
        json_node(text).unwrap(),
        json_node(asst).unwrap(),
    ];
    assert_eq!(latest_image_user_message_index(&msgs), Some(1));
    let rest = vec![json_node(text).unwrap(), json_node(asst).unwrap()];
    assert_eq!(latest_image_user_message_index(&rest), None);
}

#[test]
fn media_kind_and_display_names() {
    assert_eq!(attachment_media_kind("audio/ogg", "/x/y.png"), "audio");
    assert_eq!(attachment_media_kind("", "/x/y.PNG"), "image");
    assert_eq!(attachment_media_kind("", "/x/y.M4A"), "audio");
    assert_eq!(attachment_media_kind("", "/x/clip.mkv"), "video");
    assert_eq!(attachment_media_kind("", "/x/doc.pdf"), "application");
    assert_eq!(attachment_media_kind("", "/x/noext"), "application");
    assert_eq!(local_file_path("file:///data/a.png"), "/data/a.png");
    assert_eq!(attachment_display_name(Some("n".to_string()), "/d/f.txt"), "n");
    assert_eq!(attachment_display_name(Some(String::new()), "/d/f.txt"), "f.txt");
    assert_eq!(attachment_display_name(None, ""), "附件文件");
    assert_eq!(attachment_fallback_text("f.txt"), "[附件文件: f.txt]");
}

#[test]
fn contents_are_rewritten_by_kind() {
    let m = json_node(r#"{"role":"user","content":{"text":"inner"}}"#).unwrap();
    assert!(matches!(content_rewrite(&m), ContentRewrite::Json(ref t) if t == "\"inner\""));
    let m = json_node(r#"{"content":{"a":1}}"#).unwrap();
    assert!(matches!(content_rewrite(&m), ContentRewrite::Text(ref t) if t == "{\"a\":1}"));
    let m = json_node(r#"{"content":12}"#).unwrap();
    assert!(matches!(content_rewrite(&m), ContentRewrite::Text(ref t) if t == "12"));
    let m = json_node(r#"{"content":"s"}"#).unwrap();
    assert!(matches!(content_rewrite(&m), ContentRewrite::Keep));
    let m = json_node(r#"{"content":[]}"#).unwrap();
    assert!(matches!(content_rewrite(&m), ContentRewrite::Parts));
}

#[test]
fn routing_and_flags() {
    let settings = Settings {
        extra: json_node(r#"{"enableVcpToolInjection":true}"#).unwrap(),
        ..Settings::default()
    };
    assert!(tool_injection_enabled(&settings));
    assert!(!tool_injection_enabled(&Settings::default()));
    assert_eq!(
        request_url("http://h/v1/chat/completions", true, false),
        "http://h/v1/chatvcp/completions"
    );
    assert_eq!(
        request_url("http://h/v1/chatvcp/completions", true, true),
        "http://h/v1/chat/completions"
    );
    let msgs = vec![
        json_node(r#"{"role":"user","content":[{"type":"image_url","image_url":{"url":"data:image/png;base64,AA"}}]}"#)
            .unwrap(),
    ];
    assert!(has_inline_images(&msgs));
    assert!(!has_system_message(&msgs));
    let msgs = vec![json_node(r#"{"role":"system","content":""}"#).unwrap()];
    assert!(has_system_message(&msgs));
    assert!(!has_inline_images(&msgs));
    assert!(stream_requested(&json_node(r#"{"stream":true}"#).unwrap()));
    assert!(!stream_requested(&json_node(r#"{"stream":"yes"}"#).unwrap()));
}

fn action_text(a: AttachmentAction) -> (u8, String, String) {
    match a {
        AttachmentAction::Skip => (0, String::new(), String::new()),
        AttachmentAction::Image(u) => (1, u, String::new()),
        AttachmentAction::Video(u) => (2, u, String::new()),
        AttachmentAction::Audio(d, f) => (3, d, f),
        AttachmentAction::Text(t) => (4, t, String::new()),
        AttachmentAction::Refuse(e) => (5, e, String::new()),
    }
}

#[test]
fn historical_images_are_not_replayed() {
    assert!(skips_attachment(true, false));
    assert!(!skips_attachment(true, true));
    assert!(!skips_attachment(false, false));
}

#[test]
fn attachment_outcomes_follow_their_conversion() {
    let url = "data:image/jpeg;base64,AAAA".to_string();
    assert_eq!(
        action_text(attachment_action("image", "a.png", true, true, Conversion::Converted(url.clone()))),
        (1, url, String::new())
    );
    assert_eq!(
        action_text(attachment_action("image", "a.png", true, true, Conversion::Failed("bad".to_string()))),
        (5, "图片附件“a.png”转换为 Base64 失败，消息未发送：bad".to_string(), String::new())
    );
    assert_eq!(
        action_text(attachment_action("image", "a.png", true, true, Conversion::Crashed("join".to_string()))),
        (5, "图片附件“a.png”转换任务失败，消息未发送：join".to_string(), String::new())
    );
    assert_eq!(
        action_text(attachment_action("image", "a.png", true, true, Conversion::NotAttempted)),
        (5, "图片附件“a.png”未能转换为 Base64，消息未发送；请重新选择图片后重试".to_string(), String::new())
    );
    assert_eq!(
        action_text(attachment_action("image", "a.png", false, false, Conversion::Failed("bad".to_string()))),
        (4, "[附件文件: a.png]".to_string(), String::new())
    );
    assert_eq!(
        action_text(attachment_action("video", "v.mp4", false, true, Conversion::Failed("too big".to_string()))),
        (4, "[视频附件发送失败: v.mp4] (原因: too big)".to_string(), String::new())
    );
    assert_eq!(
        action_text(attachment_action("video", "v.mp4", false, true, Conversion::Converted("data:video/mp4;base64,AA".to_string()))),
        (2, "data:video/mp4;base64,AA".to_string(), String::new())
    );
    assert_eq!(
        action_text(attachment_action("audio", "s.wav", false, true, Conversion::Converted("data:audio/wav;base64,UklG".to_string()))),
        (3, "UklG".to_string(), "wav".to_string())
    );
    assert_eq!(
        action_text(attachment_action("audio", "s.wav", false, true, Conversion::Failed("x".to_string()))),
        (4, "[附件文件: s.wav]".to_string(), String::new())
    );
    assert_eq!(
        action_text(attachment_action("application", "d.pdf", false, true, Conversion::NotAttempted)),
        (4, "[附件文件: d.pdf]".to_string(), String::new())
    );
}

#[test]
fn failures_are_reported_with_their_texts() {
    let r = failure_report(RequestFailure::StreamHttp(
        "500 Internal Server Error".to_string(),
        "boom".to_string(),
    ));
    assert_eq!(r.event_error, "VCP服务器错误: 500 Internal Server Error - boom");
    assert_eq!(r.returned_error, "VCP Error: 500 Internal Server Error");
    let r = failure_report(RequestFailure::StreamNetwork("dns".to_string()));
    assert_eq!(r.event_error, "网络请求异常: dns");
    assert_eq!(r.returned_error, "dns");
    let r = failure_report(RequestFailure::Send("refused".to_string()));
    assert_eq!(r.event_error, "VCP non-stream request failed: refused");
    assert_eq!(r.returned_error, r.event_error);
    let r = failure_report(RequestFailure::Read("eof".to_string()));
    assert_eq!(r.returned_error, "VCP non-stream response read failed: eof");
    let r = failure_report(RequestFailure::Parse("line 1".to_string()));
    assert_eq!(r.returned_error, "VCP non-stream JSON parse failed: line 1");
    assert_eq!(
        stream_stop_report(StreamStop::Aborted),
        ("cancelled_by_user".to_string(), "请求已中止".to_string())
    );
    assert_eq!(
        stream_stop_report(StreamStop::ReadError("reset".to_string())),
        ("error".to_string(), "流读取错误: reset".to_string())
    );
}

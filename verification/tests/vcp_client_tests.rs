use vcp_mobile::json::JsonNode;
use vcp_mobile::lifecycle_controller::Settings;
use vcp_mobile::request_control::{
    interrupt_retry_step, ActiveRequestControl, ActiveRequests, CancelledGroupTurns, RetryStep,
};
use vcp_mobile::vcp_client::{
    extract_text_for_hash, image_extension_for_mime, image_mime_for_path,
    check_upload_mime, connection_refused_error, model_count, models_url, upload_http_error,
    upload_parse_error, upload_result, ImageUploadResponse,
    interrupt_url_for_request, mask_image_url_for_log, non_stream_content_event, normalize_image_upload_location,
    normalize_non_stream_completion, normalize_vcp_url, safe_upload_file_name,
    split_audio_data_url, trim_upload_error_body, ImageHostConfig,
};

fn json_node(text: &str) -> Result<JsonNode, String> {
    let value = serde_json::from_str::<serde_json::Value>(text).map_err(|e| e.to_string())?;
    Ok(match value {
        serde_json::Value::Null => JsonNode::Null,
        serde_json::Value::Bool(b) => JsonNode::Bool(b),
        serde_json::Value::Number(n) => JsonNode::Number(n.to_string()),
        serde_json::Value::String(s) => JsonNode::Str(s),
        serde_json::Value::Array(a) => JsonNode::Array(a.iter().map(|x| x.to_string()).collect()),
        serde_json::Value::Object(o) => {
            JsonNode::Object(o.into_iter().map(|(k, x)| (k, x.to_string())).collect())
        }
    })
}

fn json(text: &str) -> JsonNode {
    json_node(text).unwrap()
}

#[test]
fn normalizes_openai_non_stream_completion() {
    let normalized = normalize_non_stream_completion(json(
        r#"{"choices":[{"message":{"role":"assistant","content":"final answer"},"finish_reason":"stop"}]}"#,
    ))
    .unwrap();

    assert_eq!(normalized.full_content, "final answer");
    assert_eq!(normalized.finish_reason.as_deref(), Some("completed"));
    assert_eq!(normalized.streaming_started, false);
    assert!(normalized.response == json(
        r#"{"choices":[{"message":{"role":"assistant","content":"final answer"},"finish_reason":"stop"}]}"#,
    ));
}

#[test]
fn preserves_reasoning_and_structured_text_content() {
    let normalized = normalize_non_stream_completion(json(
        r#"{"choices":[{"message":{"reasoning_content":"private reasoning","content":[{"type":"text","text":"first"},{"type":"output_text","text":"second"}]},"finish_reason":"length"}]}"#,
    ))
    .unwrap();

    assert_eq!(
        normalized.full_content,
        "<think>private reasoning</think>first\nsecond"
    );
    assert_eq!(normalized.finish_reason.as_deref(), Some("length"));
}

#[test]
fn rejects_non_completion_json() {
    let error = normalize_non_stream_completion(json(r#"{"error":"bad gateway"}"#))
        .err()
        .unwrap();

    assert!(error.contains("completion choice"));
    assert!(error.contains("bad gateway"));
}

#[test]
fn rejects_empty_non_stream_completion() {
    let error = normalize_non_stream_completion(json(
        r#"{"choices":[{"message":{"role":"assistant","content":null},"finish_reason":"stop"}]}"#,
    ))
    .err()
    .unwrap();

    assert!(error.contains("no assistant content"));
}

#[test]
fn accepts_delta_and_refusal_fallbacks() {
    let delta = normalize_non_stream_completion(json(
        r#"{"choices":[{"delta":{"content":"provider fallback"},"finish_reason":"stop"}]}"#,
    ))
    .unwrap();
    assert_eq!(delta.full_content, "provider fallback");

    let refusal = normalize_non_stream_completion(json(
        r#"{"choices":[{"message":{"content":null,"refusal":"request refused"},"finish_reason":"stop"}]}"#,
    ))
    .unwrap();
    assert_eq!(refusal.full_content, "request refused");
}

#[test]
fn builds_data_event_for_non_stream_content() {
    let normalized = normalize_non_stream_completion(json(
        r#"{"choices":[{"message":{"content":"one-shot answer"},"finish_reason":"stop"}]}"#,
    ))
    .unwrap();
    let context = json(r#"{"agentId":"agent-1","topicId":"topic-1"}"#);

    let event =
        non_stream_content_event(&normalized, "message-1".to_string(), Some(context)).unwrap();

    assert_eq!(event.kind, "data");
    assert_eq!(event.message_id, "message-1");
    assert_eq!(event.chunk, "one-shot answer");
    assert!(matches!(event.context, Some(JsonNode::Object(_))));
}

#[test]
fn reasoning_alone_is_wrapped_and_missing_choices_reported() {
    let r = normalize_non_stream_completion(json(
        r#"{"choices":[{"message":{"reasoning":"only thinking"}}]}"#,
    ))
    .unwrap();
    assert_eq!(r.full_content, "<think>only thinking</think>");
    assert_eq!(r.finish_reason, None);
    let e = normalize_non_stream_completion(json(r#"{"choices":[]}"#))
        .err()
        .unwrap();
    assert_eq!(
        e,
        "VCP non-stream response did not contain a completion choice: missing choices[0]"
    );
}

#[test]
fn text_for_hash_reads_strings_parts_and_objects() {
    assert_eq!(extract_text_for_hash(&json(r#""plain""#)), "plain");
    assert_eq!(
        extract_text_for_hash(&json(
            r#"[{"type":"text","text":"a"},{"type":"image_url"},{"type":"output_text","text":"b"}]"#
        )),
        "a\nb"
    );
    assert_eq!(extract_text_for_hash(&json(r#"{"text":"t"}"#)), "t");
    assert_eq!(extract_text_for_hash(&json("42")), "");
}

#[test]
fn cancellation_is_idempotent_and_visible_to_late_subscribers() {
    let mut control = ActiveRequestControl::new();
    assert!(control.cancel().first);
    assert!(!control.cancel().first);
    assert!(control.is_cancelled());
}

#[test]
fn stale_guard_does_not_remove_replacement_request() {
    let mut requests = ActiveRequests::new();
    let old_generation = requests.register("same-id");
    let replacement = requests.register("same-id");

    requests.release("same-id", old_generation);

    assert_eq!(requests.entries.len(), 1);
    assert_eq!(requests.entries[0].generation, replacement);
    requests.release("same-id", replacement);
    assert!(requests.entries.is_empty());
}

#[test]
fn remote_interrupt_is_sent_once_whatever_the_order() {
    let mut control = ActiveRequestControl::new();
    assert!(control
        .bind_remote_interrupt("m1", "https://vcp.example.com/v1/chat/completions?x=1", "k")
        .is_none());
    let first = control.cancel();
    let ctx = first.post_interrupt.unwrap();
    assert_eq!(ctx.interrupt_url, "https://vcp.example.com/v1/interrupt");
    assert_eq!(ctx.api_key, "k");
    assert_eq!(ctx.request_id, "m1");
    assert!(control.cancel().post_interrupt.is_none());

    let mut late = ActiveRequestControl::new();
    assert!(late.cancel().post_interrupt.is_none());
    assert!(late
        .bind_remote_interrupt("m2", "http://h:1/v1/chat/completions", "k")
        .is_some());
    assert!(late
        .bind_remote_interrupt("m2", "http://h:1/v1/chat/completions", "k")
        .is_none());
}

#[test]
fn interrupt_request_reports_status() {
    let mut requests = ActiveRequests::new();
    requests.register("m");
    let r = requests.interrupt_request("m".to_string());
    assert!(r.success);
    assert_eq!(r.status, "interrupted");
    let r = requests.interrupt_request("m".to_string());
    assert_eq!(r.status, "already_cancelled");
    let r = requests.interrupt_request("other".to_string());
    assert!(!r.success);
    assert_eq!(r.status, "not_found");
    assert!(requests.is_cancelled("m"));
}

#[test]
fn group_turn_key_prefers_turn_id() {
    let mut turns = CancelledGroupTurns::new();
    let r = turns.interrupt_group_turn("topic".to_string(), Some("turn".to_string()));
    assert_eq!(r.status, "cancelled");
    assert_eq!(r.turn_id, "turn");
    let r = turns.interrupt_group_turn("topic".to_string(), None);
    assert_eq!(r.turn_id, "topic");
    assert!(turns.is_cancelled("turn") && turns.is_cancelled("topic"));
    turns.interrupt_group_turn("topic".to_string(), None);
    assert_eq!(turns.keys.len(), 2);
}

#[test]
fn retry_schedule_waits_then_gives_up() {
    assert!(interrupt_retry_step(0, true) == RetryStep::Cancel);
    assert!(interrupt_retry_step(0, false) == RetryStep::WaitMillis(250));
    assert!(interrupt_retry_step(18, false) == RetryStep::WaitMillis(250));
    assert!(interrupt_retry_step(19, false) == RetryStep::GiveUp);
}

fn image_host_config() -> ImageHostConfig {
    ImageHostConfig {
        base_url: "https://images.example.com".to_string(),
        image_key: "read key".to_string(),
        upload_key: "upload key".to_string(),
    }
}

#[test]
fn image_host_uses_dedicated_upload_key() {
    assert_eq!(
        image_host_config().upload_url(),
        "https://images.example.com/pw=upload%20key/images/upload"
    );
}

#[test]
fn keeps_absolute_image_upload_url() {
    assert_eq!(
        normalize_image_upload_location(&image_host_config(), "https://cdn.example.com/folder/a.jpg"),
        Some("https://cdn.example.com/folder/a.jpg".to_string())
    );
}

#[test]
fn expands_relative_image_upload_file_name() {
    assert_eq!(
        normalize_image_upload_location(&image_host_config(), "8923.jpg"),
        Some("https://images.example.com/pw=read%20key/images/8923.jpg".to_string())
    );
}

#[test]
fn expands_root_relative_image_upload_url() {
    assert_eq!(
        normalize_image_upload_location(&image_host_config(), "/pw=read%20key/images/8923.jpg"),
        Some("https://images.example.com/pw=read%20key/images/8923.jpg".to_string())
    );
}

#[test]
fn encodes_nested_image_upload_key() {
    assert_eq!(
        normalize_image_upload_location(&image_host_config(), "folder/a b.jpg"),
        Some("https://images.example.com/pw=read%20key/images/folder/a%20b.jpg".to_string())
    );
}

#[test]
fn blank_upload_location_is_none() {
    assert_eq!(normalize_image_upload_location(&image_host_config(), "   "), None);
}

#[test]
fn image_host_config_reads_settings() {
    let extra = json(r#"{"imageKey":" rk ","imageServerUrl":"https://img.example.com:8443/x/"}"#);
    let settings = Settings {
        extra,
        file_key: "fk".to_string(),
        ..Settings::default()
    };
    let c = ImageHostConfig::from_settings("http://vcp.example.com/v1", &settings).unwrap();
    assert_eq!(c.base_url, "https://img.example.com:8443");
    assert_eq!(c.image_key, "rk");
    assert_eq!(c.upload_key, "rk");
    assert_eq!(c.cache_scope(), "https://img.example.com:8443|rk");

    let settings = Settings {
        file_key: " fk ".to_string(),
        ..Settings::default()
    };
    let c = ImageHostConfig::from_settings("http://vcp.example.com:6005/v1", &settings).unwrap();
    assert_eq!(c.base_url, "http://vcp.example.com:6005");
    assert_eq!(c.image_key, "fk");

    assert!(ImageHostConfig::from_settings("http://h", &Settings::default()).is_none());
}

#[test]
fn audio_data_url_is_split_by_format() {
    let (data, format) = split_audio_data_url("data:audio/wav;base64,AAAA");
    assert_eq!(data, "AAAA");
    assert_eq!(format, "wav");
    let (data, format) = split_audio_data_url("data:audio/m4a;base64,BB,CC");
    assert_eq!(data, "BB,CC");
    assert_eq!(format, "mp4");
    let (data, format) = split_audio_data_url("raw");
    assert_eq!(data, "raw");
    assert_eq!(format, "mp3");
}

#[test]
fn mime_extensions_and_upload_names() {
    assert_eq!(image_extension_for_mime("IMAGE/JPEG"), "jpg");
    assert_eq!(image_extension_for_mime("video/quicktime"), "mov");
    assert_eq!(image_extension_for_mime("application/x"), "png");
    assert_eq!(safe_upload_file_name("/tmp/dir/photo", "image/webp"), "photo.webp");
    assert_eq!(safe_upload_file_name("/tmp/dir/photo.heic", "image/webp"), "photo.heic");
    assert_eq!(safe_upload_file_name("", "image/gif"), "upload.gif");
}

#[test]
fn image_mime_prefers_declared_then_guess() {
    assert_eq!(image_mime_for_path("a.bin", "image/heic"), "image/heic");
    assert_eq!(image_mime_for_path("a.gif", ""), "image/gif");
    assert_eq!(image_mime_for_path("a.txt", "text/plain"), "image/png");
}

#[test]
fn upload_error_body_is_compacted_and_clipped() {
    assert_eq!(trim_upload_error_body("  a\nb  "), "a b");
    let long = "x".repeat(300);
    let t = trim_upload_error_body(&long);
    assert_eq!(t.len(), 243);
    assert!(t.ends_with("..."));
}

#[test]
fn request_urls_are_normalized() {
    assert_eq!(
        normalize_vcp_url("http://h:6005"),
        "http://h:6005/v1/chat/completions"
    );
    assert_eq!(
        normalize_vcp_url("http://h/v1/chatvcp/completions"),
        "http://h/v1/chat/completions"
    );
    assert_eq!(
        normalize_vcp_url("http://h/v1/chat/completions"),
        "http://h/v1/chat/completions"
    );
    assert_eq!(normalize_vcp_url("not a url"), "not a url");
    assert_eq!(
        interrupt_url_for_request("http://h:6005/v1/chat/completions?a=1#f"),
        Some("http://h:6005/v1/interrupt".to_string())
    );
    assert_eq!(interrupt_url_for_request("nope"), None);
}

#[test]
fn password_segments_are_masked_in_logged_urls() {
    assert_eq!(
        mask_image_url_for_log("https://img.example.com/pw=secret/images/a.png?x=1"),
        "https://img.example.com/pw=***/images/a.png?x=1"
    );
    assert_eq!(
        mask_image_url_for_log("http://host:6005/v1/interrupt"),
        "http://host:6005/v1/interrupt"
    );
    assert_eq!(
        mask_image_url_for_log("not a url/pw=abc/x"),
        "not a url/pw=***abc/x"
    );
}

#[test]
fn only_images_and_videos_are_uploaded() {
    assert_eq!(check_upload_mime("image/png"), Ok(()));
    assert_eq!(check_upload_mime("video/mp4"), Ok(()));
    assert_eq!(
        check_upload_mime("audio/wav"),
        Err("unsupported media MIME: audio/wav".to_string())
    );
}

#[test]
fn upload_answers_are_resolved_to_a_location() {
    let c = image_host_config();
    let ok = |url: Option<&str>, key: Option<&str>| ImageUploadResponse {
        success: Some(true),
        url: url.map(str::to_string),
        key: key.map(str::to_string),
        error: None,
    };
    assert_eq!(
        upload_result(&c, ok(Some("https://cdn.example.com/a.jpg"), Some("k.jpg"))),
        Ok("https://cdn.example.com/a.jpg".to_string())
    );
    assert_eq!(
        upload_result(&c, ok(Some("  "), Some("k.jpg"))),
        Ok("https://images.example.com/pw=read%20key/images/k.jpg".to_string())
    );
    assert_eq!(
        upload_result(&c, ok(None, None)),
        Err("image host upload response did not include url/key".to_string())
    );
    let failed = ImageUploadResponse {
        success: Some(false),
        url: Some("https://cdn.example.com/a.jpg".to_string()),
        key: None,
        error: None,
    };
    assert_eq!(
        upload_result(&c, failed),
        Err("image host reported upload failure".to_string())
    );
    let failed = ImageUploadResponse {
        success: Some(false),
        url: None,
        key: None,
        error: Some("quota".to_string()),
    };
    assert_eq!(upload_result(&c, failed), Err("quota".to_string()));
    assert_eq!(
        upload_http_error(413, "  too\nbig  "),
        "image host returned HTTP 413: too big"
    );
    assert_eq!(
        upload_parse_error("expected value", "<html>"),
        "image host JSON parse failed: expected value (<html>)"
    );
}

#[test]
fn connection_test_asks_the_model_list() {
    assert_eq!(
        models_url("http://host:6005/v1/chat/completions?x=1"),
        Ok("http://host:6005/v1/models".to_string())
    );
    assert_eq!(
        models_url("https://vcp.example.com/"),
        Ok("https://vcp.example.com/v1/models".to_string())
    );
    assert!(models_url("not a url").unwrap_err().starts_with("URL 解析失败: "));
    assert_eq!(model_count(&json(r#"{"data":[{"id":"a"},{"id":"b"}]}"#)), 2);
    assert_eq!(model_count(&json(r#"{"data":"none"}"#)), 0);
    assert_eq!(model_count(&json(r#"[1,2]"#)), 0);
    assert_eq!(connection_refused_error(401, "no"), "验证失败 (401): no");
}

#[test]
fn normalizing_a_vcp_url_twice_changes_nothing() {
    for url in [
        "http://localhost:6005",
        "http://localhost:6005/",
        "https://example.com/base/chatvcp/completions",
        "https://example.com/v1/chat/completions?x=1",
        "http://host/a b",
        "not a url",
    ] {
        let once = normalize_vcp_url(url);
        assert_eq!(normalize_vcp_url(&once), once);
    }
    assert_eq!(
        normalize_vcp_url("https://example.com/base/chatvcp/completions"),
        "https://example.com/base/chat/completions"
    );
}

use vcp_mobile::json::JsonNode;
use vcp_mobile::vcp_log::{
    combine_connection_results, foreground_heartbeat_ms, incoming_payload,
    log_heartbeat_interval_ms, parse_log_url, route_log_event, ws_request_headers,
    BackgroundLogCache, IncomingPayload, ListenerEvent, LogListener, MAX_BACKGROUND_LOG_EVENTS,
};

#[test]
fn connection_results_are_combined() {
    assert!(combine_connection_results("reconnect", Ok(()), Ok(())).is_ok());
    assert_eq!(
        combine_connection_results("reconnect", Err("a".to_string()), Ok(())).err().unwrap(),
        "Failed to reconnect VCPLog: a"
    );
    assert_eq!(
        combine_connection_results("disconnect", Ok(()), Err("b".to_string())).err().unwrap(),
        "Failed to disconnect VCPInfo: b"
    );
    assert_eq!(
        combine_connection_results("reconnect", Err("a".to_string()), Err("b".to_string()))
            .err()
            .unwrap(),
        "Failed to reconnect VCPLog (a) and VCPInfo (b)"
    );
}

#[test]
fn heartbeat_has_a_floor() {
    assert_eq!(foreground_heartbeat_ms(true), 15000);
    assert_eq!(foreground_heartbeat_ms(false), 120000);
    assert_eq!(log_heartbeat_interval_ms(1000), 5000);
    assert_eq!(log_heartbeat_interval_ms(9000), 9000);
}

#[test]
fn background_cache_keeps_the_newest_events() {
    let mut cache = BackgroundLogCache::new();
    for i in 0..(MAX_BACKGROUND_LOG_EVENTS + 3) {
        assert!(route_log_event(false, &mut cache, format!("{}", i)).is_none());
    }
    assert_eq!(cache.events.len(), MAX_BACKGROUND_LOG_EVENTS);
    assert_eq!(
        route_log_event(true, &mut cache, "now".to_string()),
        Some("now".to_string())
    );
    let drained = cache.drain();
    assert_eq!(drained.len(), MAX_BACKGROUND_LOG_EVENTS);
    assert_eq!(drained[0], "3");
    assert_eq!(drained[MAX_BACKGROUND_LOG_EVENTS - 1], format!("{}", MAX_BACKGROUND_LOG_EVENTS + 2));
    assert!(cache.drain().is_empty());
}

#[test]
fn incoming_text_is_json_or_raw() {
    assert!(matches!(incoming_payload(r#"{"a":1}"#), IncomingPayload::Json(JsonNode::Object(_))));
    assert!(matches!(incoming_payload("hello"), IncomingPayload::RawText(ref t) if t == "hello"));
}

#[test]
fn log_url_gets_path_and_key() {
    assert_eq!(
        parse_log_url("ws://192.168.1.2:6005/", "k1").unwrap(),
        "ws://192.168.1.2:6005/VCPlog/VCP_Key=k1"
    );
    assert_eq!(
        parse_log_url("wss://h/VCPlog/VCP_Key=abc", "k").unwrap(),
        "wss://h/VCPlog/VCP_Key=abc"
    );
    assert!(parse_log_url("not a url", "k").err().unwrap().starts_with("Invalid URL: "));
}

#[test]
fn websocket_headers_follow_the_url() {
    let h = ws_request_headers("wss://h.example.com:8443/VCPlog").unwrap();
    assert_eq!(h[0], ("Host".to_string(), "h.example.com:8443".to_string()));
    assert_eq!(h[1], ("Origin".to_string(), "https://h.example.com:8443".to_string()));
    assert_eq!(h[2].0, "User-Agent");
    let h = ws_request_headers("ws://h/").unwrap();
    assert!(ws_request_headers("not a url").is_none());
    assert_eq!(h[1], ("Origin".to_string(), "http://h".to_string()));
}

#[test]
fn listener_backs_off_and_resets_on_connect() {
    let mut l = LogListener::new();
    let a = l.on_event(ListenerEvent::Attempt);
    assert_eq!(a.status, "connecting");
    assert_eq!(a.status_message, "连接中...");
    let a = l.on_event(ListenerEvent::TimedOut);
    assert_eq!(a.wait_ms, Some(1000));
    assert_eq!(a.status, "error");
    assert!(a.card.is_some());
    let a = l.on_event(ListenerEvent::ConnectFailed("refused".to_string()));
    assert_eq!(a.wait_ms, Some(2000));
    assert!(a.card.unwrap().content.contains("refused"));
    for _ in 0..10 {
        l.on_event(ListenerEvent::TimedOut);
    }
    assert_eq!(l.retry_delay_ms, 60000);
    let a = l.on_event(ListenerEvent::Connected);
    assert!(a.sender_available);
    assert_eq!(a.status, "connected");
    assert_eq!(l.retry_delay_ms, 1000);
    let a = l.on_event(ListenerEvent::Disconnected);
    assert_eq!(a.status, "closed");
    assert_eq!(a.wait_ms, Some(1000));
    assert_eq!(l.retry_delay_ms, 2000);
}

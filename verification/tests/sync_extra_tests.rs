use vcp_mobile::affect_recognizer::{
    model_input, recognizer_provenance, timeout_message, validated_identity,
};
use vcp_mobile::db_write_queue::{
    batch_accepts_more, chunk_ranges, eligible_message_indices, message_batch_consistent,
    owner_check, repeat_join_str, rows_per_statement, split_affected_owners, values_rows,
    write_failure, FlushLatch, OwnerCheck,
};
use vcp_mobile::pull_executor::{
    attachment_location, supplied_content_hash, AvatarReader, AvatarRetry, PullExecutor,
    BatchPullResult, FrameAction, NdjsonSplitter, TopicFrame,
};
use vcp_mobile::push_executor::{
    attachment_display_name_or_default, avatar_color_or_default, message_dto_kind,
    MessageDtoKind, PushExecutor,
};

fn strings(v: &[&str]) -> Vec<String> {
    v.iter().map(|s| s.to_string()).collect()
}

#[test]
fn classifier_input_is_trimmed_and_limited() {
    assert_eq!(model_input("   "), None);
    assert_eq!(model_input("  hi "), Some(("hi".to_string(), false)));
    let long = "好".repeat(1200);
    let (t, cut) = model_input(&long).unwrap();
    assert!(cut);
    assert_eq!(t.chars().count(), 1000);
    assert_eq!(
        validated_identity(" m ", " 1 "),
        Some(("m".to_string(), "1".to_string()))
    );
    assert_eq!(validated_identity("", "1"), None);
    assert_eq!(validated_identity(&"x".repeat(200), "1").unwrap().0.len(), 128);
    assert_eq!(recognizer_provenance("m", "2"), "m@2");
    assert_eq!(timeout_message(10), "affect classifier timed out after 10ms");
}

#[test]
fn flush_reports_the_first_error_once() {
    let mut l = FlushLatch::new();
    l.record(None);
    l.record(Some("first".to_string()));
    l.record(Some("second".to_string()));
    assert_eq!(l.flush(), Err("first".to_string()));
    assert_eq!(l.flush(), Ok(()));
    assert_eq!(write_failure("x", false), "Database write failed: x");
    assert_eq!(write_failure("x", true), "Database write worker failed: x");
}

#[test]
fn batching_limits_and_owner_checks() {
    assert!(batch_accepts_more(199, 4999));
    assert!(!batch_accepts_more(200, 0));
    assert!(!batch_accepts_more(1, 5000));
    assert!(owner_check("agent") == OwnerCheck::AgentRow);
    assert!(owner_check("group") == OwnerCheck::GroupRow);
    assert!(owner_check("user") == OwnerCheck::Always);
    assert!(owner_check("system") == OwnerCheck::Always);
    assert!(owner_check("other") == OwnerCheck::Never);
    let owners = vec![
        ("a".to_string(), "agent".to_string()),
        ("g".to_string(), "group".to_string()),
        ("a".to_string(), "agent".to_string()),
        ("x".to_string(), "user".to_string()),
    ];
    let (agents, groups) = split_affected_owners(&owners);
    assert_eq!(agents, strings(&["a"]));
    assert_eq!(groups, strings(&["g"]));
}

#[test]
fn message_batches_and_sql_text() {
    assert!(message_batch_consistent(2, 2, 2, 2));
    assert!(!message_batch_consistent(2, 1, 2, 2));
    assert_eq!(
        eligible_message_indices(&strings(&["m1", "m2", "m3"]), &strings(&["m2"])),
        vec![0, 2]
    );
    assert_eq!(repeat_join_str("?", ",", 3), "?,?,?");
    assert_eq!(values_rows(2, 3), "(?, ?, ?), (?, ?, ?)");
    assert_eq!(rows_per_statement(13), 76);
    assert_eq!(rows_per_statement(8), 124);
    assert_eq!(chunk_ranges(5, 2), vec![(0, 2), (2, 4), (4, 5)]);
    assert!(chunk_ranges(0, 3).is_empty());
}

#[test]
fn ndjson_lines_survive_arbitrary_chunking() {
    let mut s = NdjsonSplitter::new();
    let mut lines = Vec::new();
    lines.extend(s.push_chunk(b"{\"a\":1}\n\n{\"b\""));
    lines.extend(s.push_chunk(b":2}\n{\"c\":3"));
    assert_eq!(lines, vec![b"{\"a\":1}\n".to_vec(), b"{\"b\":2}\n".to_vec()]);
    assert_eq!(s.finish(), Some(b"{\"c\":3".to_vec()));
    assert_eq!(s.finish(), None);
}

#[test]
fn frames_lead_to_results_or_processing() {
    assert!(matches!(PullExecutor::frame_action(Err("bad".to_string())), FrameAction::Failed(ref b) if b.topic_id.is_empty() && b.error.as_deref() == Some("bad")));
    let f = TopicFrame {
        topic_id: "t".to_string(),
        messages: vec![],
        error: Some("boom".to_string()),
    };
    assert!(matches!(PullExecutor::frame_action(Ok(f)), FrameAction::Done(ref b) if !b.success && b.error.as_deref() == Some("Desktop error: boom")));
    let f = TopicFrame {
        topic_id: "t".to_string(),
        messages: vec![],
        error: None,
    };
    assert!(matches!(PullExecutor::frame_action(Ok(f)), FrameAction::Done(ref b) if b.success && b.parsed_count == 0));
    let f = TopicFrame {
        topic_id: "t".to_string(),
        messages: vec!["{}".to_string()],
        error: None,
    };
    assert!(matches!(PullExecutor::frame_action(Ok(f)), FrameAction::Process(ref t, ref m) if t == "t" && m.len() == 1));
    let r = PullExecutor::processed_result("t".to_string(), Ok((3, 0)));
    assert!(r.success && r.parsed_count == 3);
    let r = PullExecutor::processed_result("t".to_string(), Err("e".to_string()));
    assert!(!r.success && r.error.as_deref() == Some("e"));
    let results = vec![
        BatchPullResult { topic_id: "a".into(), success: true, parsed_count: 1, failed_count: 0, error: None },
        BatchPullResult { topic_id: "b".into(), success: false, parsed_count: 0, failed_count: 0, error: Some("x".into()) },
    ];
    assert_eq!(PullExecutor::pull_counts(&results), (1, 1));
}

#[test]
fn pulled_attachments_and_hashes() {
    assert_eq!(
        attachment_location("h1", Some("/data/a.png")),
        ("/data/a.png".to_string(), "file:///data/a.png".to_string())
    );
    assert_eq!(
        attachment_location("h1", None),
        ("attachments/h1".to_string(), "file://attachments/h1".to_string())
    );
    assert_eq!(supplied_content_hash(&Some("abc".to_string())), Some("abc".to_string()));
    assert_eq!(supplied_content_hash(&Some(String::new())), None);
    assert_eq!(supplied_content_hash(&None), None);
}

#[test]
fn avatars_are_bounded_and_retried() {
    assert!(AvatarReader::start(Some(16 * 1024 * 1024 + 1)).is_err());
    let mut r = AvatarReader::start(None).unwrap();
    assert!(r.push_chunk(&vec![0u8; 16 * 1024 * 1024]).is_ok());
    assert_eq!(r.push_chunk(&[1]).err().unwrap(), "Avatar exceeds the 16MB limit");
    assert_eq!(r.bytes.len(), 16 * 1024 * 1024);
    assert!(matches!(PullExecutor::avatar_retry(0, 200, true, "e"), AvatarRetry::Retry(200)));
    assert!(matches!(PullExecutor::avatar_retry(3, 1600, false, "e"), AvatarRetry::Fail(ref m) if m == "Pull avatar request failed after 3 retries: e"));
    assert_eq!(
        PullExecutor::download_entity_url("http://h", "a1", "agent"),
        "http://h/api/mobile-sync/download-entity?id=a1&type=agent"
    );
    assert_eq!(
        PullExecutor::download_avatar_url("http://h", "a1", "group"),
        "http://h/api/mobile-sync/download-avatar?id=a1&type=group"
    );
}

#[test]
fn uploads_are_deduplicated_and_recorded() {
    let needed = strings(&["h1", "h2", "h1", "h3", "h2"]);
    let uploaded = strings(&["h3"]);
    assert_eq!(PushExecutor::hashes_to_upload(&needed, &uploaded), strings(&["h1", "h2"]));

    let mut tracker = strings(&["h0"]);
    let round = strings(&["h1", "h2"]);
    let r = PushExecutor::record_upload_round(&mut tracker, &round, &vec![Ok(()), Err("timeout".to_string())]);
    assert_eq!(r.err().unwrap(), "Failed to upload required attachments: h2: timeout");
    assert_eq!(tracker, strings(&["h0", "h1"]));
    assert!(PushExecutor::record_upload_round(&mut tracker, &strings(&["h4"]), &vec![Ok(())]).is_ok());
}

#[test]
fn push_messages_and_requests() {
    assert!(message_dto_kind("user", "group") == MessageDtoKind::User);
    assert!(message_dto_kind("assistant", "group") == MessageDtoKind::Group);
    assert!(message_dto_kind("assistant", "agent") == MessageDtoKind::Agent);
    assert_eq!(avatar_color_or_default(None), "#6B7280");
    assert_eq!(PushExecutor::http_failure("Push agent", "500", "x"), "Push agent failed: HTTP 500 body=x");
    assert!(PushExecutor::check_attachment_upload("a", true, 100).is_ok());
    assert_eq!(PushExecutor::check_attachment_upload("a", false, 1).err().unwrap(), "附件不是常规文件: a");
    assert_eq!(
        PushExecutor::check_attachment_upload("a", true, 104857601).err().unwrap(),
        "附件超过 100MB 同步上限: a (104857601 bytes)"
    );
    assert_eq!(
        PushExecutor::upload_attachment_url("http://h", "abc", "image/png", "my file.png"),
        "http://h/api/mobile-sync/upload-attachment?hash=abc&type=image%2Fpng&name=my%20file.png"
    );
    assert_eq!(attachment_display_name_or_default(None), "unnamed");
    assert_eq!(PushExecutor::avatar_not_found("agent", "a1"), "Active avatar not found for agent a1");
}

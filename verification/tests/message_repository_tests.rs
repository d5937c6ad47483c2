use vcp_mobile::message_repository::{
    cached_content_text, rebuild_concurrency, render_batch_full, ContentCompressor,
    MessageRenderCompiler, MessageRepository, RebuildProgress,
};

#[test]
fn render_cache_key_requires_current_compiler_version() {
    let content_hash = "message-fingerprint";
    let current = MessageRenderCompiler::cache_key(content_hash);

    assert!(MessageRenderCompiler::cache_matches(&current, content_hash));
    assert!(!MessageRenderCompiler::cache_matches(content_hash, content_hash));
    assert!(!MessageRenderCompiler::cache_matches("render-v1:message-fingerprint", content_hash));
    assert!(!MessageRenderCompiler::cache_matches("render-v2:message-fingerprint", content_hash));
    assert!(!MessageRenderCompiler::cache_matches("render-v3:message-fingerprint", content_hash));
    assert!(!MessageRenderCompiler::cache_matches("render-v4:message-fingerprint", content_hash));
}

#[test]
fn compressed_content_round_trips_past_the_legacy_16_mib_limit() {
    let marker = "VCP_LARGE_MESSAGE_TAIL";
    let content = format!("{}{}", "x".repeat(17 * 1024 * 1024), marker);

    let compressed = ContentCompressor::compress(&content).unwrap();
    let restored = ContentCompressor::decompress(&compressed).unwrap();

    assert_eq!(restored.len(), content.len());
    assert!(restored.ends_with(marker));
}

#[test]
fn cache_key_is_versioned_prefix() {
    assert_eq!(MessageRenderCompiler::cache_key("abc"), "render-v5:abc");
}

#[test]
fn decompress_rejects_garbage() {
    assert!(ContentCompressor::decompress(b"not zstd").is_err());
    assert!(ContentCompressor::decompress(b"not zstd")
        .unwrap_err()
        .starts_with("zstd message content decompression failed: "));
}

#[test]
fn round_trip_small_unicode_text() {
    let text = "你好, world";
    let c = ContentCompressor::compress(text).unwrap();
    assert_eq!(ContentCompressor::decompress(&c).unwrap(), text);
}

#[test]
fn rebuild_progress_reports_on_interval_or_completion() {
    assert!(RebuildProgress::should_emit(32, 1, 10));
    assert!(!RebuildProgress::should_emit(31, 1, 10));
    assert!(RebuildProgress::should_emit(0, 10, 10));
    let done = RebuildProgress::complete(7);
    assert_eq!((done.current, done.total), (7, 7));
}

#[test]
fn attachment_hash_prefers_declared_non_empty_hash() {
    assert_eq!(
        MessageRepository::attachment_hash(&Some("abc".to_string()), "digest"),
        "abc"
    );
    assert_eq!(MessageRepository::attachment_hash(&Some(String::new()), "digest"), "digest");
    assert_eq!(MessageRepository::attachment_hash(&None, "digest"), "digest");
}

#[test]
fn fingerprint_skips_tombstoned_attachment_hashes() {
    let hashes = vec!["a".to_string(), "b".to_string(), "c".to_string()];
    let tomb = vec!["b".to_string()];
    assert_eq!(
        MessageRepository::fingerprint_attachment_hashes(&hashes, &tomb),
        vec!["a".to_string(), "c".to_string()]
    );
}

#[test]
fn attachment_orders_skip_tombstoned_hashes_and_reserved_orders() {
    let hashes = vec![
        "a".to_string(),
        "dead".to_string(),
        "b".to_string(),
        "c".to_string(),
    ];
    let tomb = vec!["dead".to_string()];
    let reserved = vec![0, 2];
    assert_eq!(
        MessageRepository::plan_attachment_orders(&hashes, &tomb, &reserved),
        vec![(0, 1), (2, 3), (3, 4)]
    );
    assert_eq!(
        MessageRepository::plan_attachment_orders(&hashes, &Vec::new(), &Vec::new()),
        vec![(0, 0), (1, 1), (2, 2), (3, 3)]
    );
}

#[test]
fn render_blocks_round_trip_through_the_cache_form() {
    let json = br#"[{"type":"text","content":"hi"}]"#;
    let packed = MessageRenderCompiler::serialize_json(json).unwrap();
    assert_ne!(packed.as_slice(), &json[..]);
    assert_eq!(MessageRenderCompiler::deserialize_json(&packed).unwrap(), json.to_vec());
    assert!(MessageRenderCompiler::deserialize_json(b"not zstd").is_err());
}

#[test]
fn rebuild_runs_a_bounded_number_of_compilers() {
    assert_eq!(rebuild_concurrency(None), 4);
    assert_eq!(rebuild_concurrency(Some(1)), 2);
    assert_eq!(rebuild_concurrency(Some(8)), 8);
    assert_eq!(rebuild_concurrency(Some(64)), 12);
    assert!(!render_batch_full(49));
    assert!(render_batch_full(50));
}

#[test]
fn stored_content_is_read_back_for_rendering() {
    let packed = ContentCompressor::compress("你好 world").unwrap();
    assert_eq!(cached_content_text(&packed), "你好 world");
    assert_eq!(cached_content_text(b"plain"), "plain");
    assert_eq!(cached_content_text(&[b'a', 0xff, b'b']), "a\u{fffd}b");
}

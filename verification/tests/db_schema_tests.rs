use vcp_mobile::db_manager::{
    add_column_sql, column_missing, legacy_backup_pattern, legacy_content_blob,
    legacy_topic_for_message, migrate_legacy_row, rename_table_sql, LegacyContent,
    LegacyMessageRow, TopicSpans,
};
use vcp_mobile::message_repository::ContentCompressor;

fn empty_row() -> LegacyMessageRow {
    LegacyMessageRow {
        rowid: None,
        msg_id: None,
        id: None,
        role: None,
        name: None,
        agent_id: None,
        group_id: None,
        is_group_message: None,
        timestamp: None,
        created_at: None,
        updated_at: None,
        deleted_at: None,
        finish_reason: None,
        content_hash: None,
        topic_id: None,
        owner_type: None,
        owner_id: None,
        title: None,
    }
}

#[test]
fn schema_statements_quote_identifiers() {
    assert_eq!(
        add_column_sql("messages", "owner_type", "TEXT"),
        "ALTER TABLE \"messages\" ADD COLUMN \"owner_type\" TEXT"
    );
    assert_eq!(
        rename_table_sql("messages", "messages_legacy_backup_5_7"),
        "ALTER TABLE \"messages\" RENAME TO \"messages_legacy_backup_5_7\""
    );
    assert_eq!(
        add_column_sql("we\"ird", "c", "INTEGER"),
        "ALTER TABLE \"we\"\"ird\" ADD COLUMN \"c\" INTEGER"
    );
    assert_eq!(legacy_backup_pattern("topics"), "topics_legacy_backup_%");
}

#[test]
fn missing_columns_are_detected() {
    let cols = vec!["msg_id".to_string(), "topic_id".to_string()];
    assert!(!column_missing(&cols, "msg_id"));
    assert!(column_missing(&cols, "owner_id"));
    assert!(column_missing(&Vec::new(), "msg_id"));
}

#[test]
fn legacy_row_with_nothing_gets_every_fallback() {
    let mut row = empty_row();
    row.rowid = Some(42);
    row.agent_id = Some("   ".to_string());
    let m = migrate_legacy_row(&row, 1000);
    assert_eq!(m.msg_id, "legacy_msg_42");
    assert_eq!(m.role, "assistant");
    assert_eq!(m.agent_id, None);
    assert_eq!(m.group_id, None);
    assert!(!m.is_group_message);
    assert_eq!(m.timestamp, 1000);
    assert_eq!(m.created_at, 1000);
    assert_eq!(m.updated_at, 1000);
    assert_eq!(m.content_hash, "");
    let (topic, owner_type, owner_id) = legacy_topic_for_message(&None, &None, false);
    assert_eq!(m.topic_id, topic);
    assert_eq!(m.owner_type, owner_type);
    assert_eq!(m.owner_type, "agent");
    assert_eq!(m.owner_id, owner_id);
    assert_eq!(m.owner_id, "legacy_agent");
    assert!(m.topic_id.starts_with("legacy_migrated_agent_"));
    assert_eq!(m.title, "Migrated chat");
}

#[test]
fn legacy_row_keeps_its_own_values_trimmed() {
    let mut row = empty_row();
    row.msg_id = Some("  ".to_string());
    row.id = Some(" m1 ".to_string());
    row.role = Some(" user ".to_string());
    row.group_id = Some(" g1 ".to_string());
    row.timestamp = Some(5);
    row.updated_at = Some(9);
    row.deleted_at = Some(11);
    row.topic_id = Some("t1".to_string());
    row.title = Some(" Hello ".to_string());
    let m = migrate_legacy_row(&row, 1000);
    assert_eq!(m.msg_id, "m1");
    assert_eq!(m.role, "user");
    assert_eq!(m.group_id, Some("g1".to_string()));
    assert!(m.is_group_message);
    assert_eq!(m.timestamp, 5);
    assert_eq!(m.created_at, 5);
    assert_eq!(m.updated_at, 9);
    assert_eq!(m.deleted_at, Some(11));
    assert_eq!(m.topic_id, "t1");
    assert_eq!(m.owner_type, "group");
    assert_eq!(m.owner_id, "g1");
    assert_eq!(m.title, "Hello");
}

#[test]
fn topic_spans_widen_and_keep_first_appearance_order() {
    let mut spans = TopicSpans::new();
    spans.record("a", 10);
    spans.record("b", 7);
    spans.record("a", 3);
    spans.record("a", 12);
    assert_eq!(
        spans.spans,
        vec![("a".to_string(), 3, 12), ("b".to_string(), 7, 7)]
    );
}

#[test]
fn legacy_content_is_stored_compressed() {
    let b = legacy_content_blob(LegacyContent::Text("hello".to_string())).unwrap();
    assert_eq!(ContentCompressor::decompress(&b).unwrap(), "hello");
    let kept = legacy_content_blob(LegacyContent::Bytes(b.clone())).unwrap();
    assert_eq!(kept, b);
    let plain = legacy_content_blob(LegacyContent::Bytes(b"plain text".to_vec())).unwrap();
    assert_eq!(ContentCompressor::decompress(&plain).unwrap(), "plain text");
    let junk = legacy_content_blob(LegacyContent::Bytes(vec![0xff, 0xfe, 0x00])).unwrap();
    assert_eq!(ContentCompressor::decompress(&junk).unwrap(), "");
    let none = legacy_content_blob(LegacyContent::Unreadable).unwrap();
    assert_eq!(ContentCompressor::decompress(&none).unwrap(), "");
}

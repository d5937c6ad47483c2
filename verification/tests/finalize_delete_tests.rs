use vcp_mobile::delete_executor::{DeleteExecutor, DeletedTarget, OwnerScope};
use vcp_mobile::request_control::CancelledGroupTurns;
use vcp_mobile::sync_finalize::{SyncFinalizer, TopicBubbleMeta};

fn meta(topic: &str, owner: &str, kind: &str) -> TopicBubbleMeta {
    TopicBubbleMeta {
        topic_id: topic.to_string(),
        owner_id: owner.to_string(),
        owner_type: kind.to_string(),
        title: String::new(),
        created_at: 0,
        locked: false,
        unread: false,
    }
}

#[test]
fn empty_message_id_is_refused() {
    assert_eq!(
        DeleteExecutor::check_message_id(""),
        Err("Message id cannot be empty".to_string())
    );
    assert_eq!(DeleteExecutor::check_message_id("m1"), Ok(()));
}

#[test]
fn owner_scope_follows_owner_type() {
    assert_eq!(DeleteExecutor::owner_scope("agent"), Some(OwnerScope::Agent));
    assert_eq!(DeleteExecutor::owner_scope("group"), Some(OwnerScope::Group));
    assert_eq!(DeleteExecutor::owner_scope("other"), None);
    assert_eq!(OwnerScope::Agent.owner_type(), "agent");
    assert_eq!(OwnerScope::Group.owner_type(), "group");
}

#[test]
fn cascades_cancel_jobs_with_their_reason() {
    assert_eq!(DeleteExecutor::cancel_reason(DeletedTarget::Agent), "所属 Agent 已删除");
    assert_eq!(DeleteExecutor::cancel_reason(DeletedTarget::Group), "所属群组已删除");
    assert_eq!(DeleteExecutor::cancel_reason(DeletedTarget::Topic), "所属话题已删除");
    assert_eq!(
        DeleteExecutor::scope_target(OwnerScope::Group),
        DeletedTarget::Group
    );
    assert_eq!(DeleteExecutor::cleared_content(), "[已清空]");
}

#[test]
fn cleanup_threshold_is_days_before_now() {
    assert_eq!(DeleteExecutor::cleanup_threshold(10_000_000_000, 30), 10_000_000_000 - 2_592_000_000);
    assert_eq!(DeleteExecutor::cleanup_threshold(5, 0), 5);
}

#[test]
fn cancelled_turns_are_recorded_once() {
    let mut turns = CancelledGroupTurns::new();
    DeleteExecutor::record_cancelled_turns(
        &mut turns,
        &vec!["t1".to_string(), "t2".to_string(), "t1".to_string()],
    );
    assert!(turns.is_cancelled("t1"));
    assert!(turns.is_cancelled("t2"));
    assert!(!turns.is_cancelled("t3"));
    assert_eq!(turns.keys.len(), 2);
}

#[test]
fn finalizer_statements_cover_each_topic() {
    assert_eq!(SyncFinalizer::refresh_counts_sql(0), None);
    let sql = SyncFinalizer::refresh_counts_sql(2).unwrap();
    assert!(sql.ends_with("WHERE topic_id IN (?,?) AND deleted_at IS NULL"));
    assert!(sql.starts_with("UPDATE topics SET\n            msg_count = (SELECT COUNT(*)"));
    assert_eq!(
        SyncFinalizer::load_topics_sql(3),
        "SELECT topic_id, owner_id, owner_type, title, created_at, locked, unread FROM topics WHERE topic_id IN (?,?,?) AND deleted_at IS NULL"
    );
    assert_eq!(SyncFinalizer::progress_message(4), "正在校验 4 个话题的一致性...");
    assert_eq!(
        SyncFinalizer::bubble_failure("agent", "a1", "boom"),
        "[SyncFinalizer] Failed to bubble agent a1: boom"
    );
}

#[test]
fn bubble_plan_skips_deleted_topics_and_dedups_owners() {
    let modified = vec![
        "t1".to_string(),
        "t2".to_string(),
        "gone".to_string(),
        "t3".to_string(),
        "t1".to_string(),
    ];
    let metas = vec![
        meta("t1", "a1", "agent"),
        meta("t2", "a1", "agent"),
        meta("t3", "g1", "group"),
    ];
    let plan = SyncFinalizer::bubble_plan(&modified, &metas);
    assert_eq!(plan.topics, vec!["t1".to_string(), "t2".to_string(), "t3".to_string()]);
    assert_eq!(plan.agents, vec!["a1".to_string()]);
    assert_eq!(plan.groups, vec!["g1".to_string()]);
}

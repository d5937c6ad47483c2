use vcp_mobile::batch_diff_handler::{parse_topic_actions, BatchDiffHandler};
use vcp_mobile::json::JsonNode;
use vcp_mobile::pull_executor::{
    parse_entity_batch_results, parse_entity_request_keys, parse_topic_ndjson_frame,
    validate_batch_pull_results, BatchPullResult,
};
use vcp_mobile::push_executor::parse_push_messages_batch_response;

fn json_node(text: &str) -> Result<JsonNode, String> {
    let value = serde_json::from_str::<serde_json::Value>(text).map_err(|e| e.to_string())?;
    Ok(match value {
        serde_json::Value::Null => JsonNode::Null,
        serde_json::Value::Bool(b) => JsonNode::Bool(b),
        serde_json::Value::Number(n) => JsonNode::Number(n.to_string()),
        serde_json::Value::String(s) => JsonNode::Str(s),
        serde_json::Value::Array(a) => JsonNode::Array(a.iter().map(|x| x.to_string()).collect()),
        serde_json::Value::Object(o) => {
            JsonNode::Object(o.into_iter().map(|(k, x)| (k, x.to_string())).collect())
        }
    })
}

fn json(text: &str) -> vcp_mobile::json::JsonNode {
    json_node(text).unwrap()
}

#[test]
fn rejects_malformed_batch_topic_actions() {
    let wrong_pull_shape = json(r#"{ "toPull": "message-1", "toPush": false }"#);
    assert!(parse_topic_actions("topic-1", &wrong_pull_shape).is_err());

    let wrong_push_shape = json(r#"{ "toPull": [], "toPush": "yes" }"#);
    assert!(parse_topic_actions("topic-1", &wrong_push_shape).is_err());

    let non_string_message_id = json(r#"{ "toPull": [42], "toPush": false }"#);
    assert!(parse_topic_actions("topic-1", &non_string_message_id).is_err());
}

#[test]
fn accepts_missing_optional_batch_topic_actions() {
    assert_eq!(
        parse_topic_actions("topic-1", &json("{}")).unwrap(),
        (false, Vec::<String>::new())
    );
}

#[test]
fn diff_batch_plan_sorts_topics() {
    let payload = json(
        r#"{"results": {"a": {"toPush": true}, "b": {}, "c": {"toPull": ["m1"], "toPush": true}}}"#,
    );
    let plan = BatchDiffHandler::plan_diff_batch(&payload);
    assert!(plan.error.is_none());
    assert_eq!(plan.completed_topic_ids, vec!["b".to_string()]);
    assert_eq!(plan.push_topic_ids, vec!["a".to_string(), "c".to_string()]);
    assert_eq!(plan.pull_batch, vec![("c".to_string(), vec!["m1".to_string()])]);
}

#[test]
fn diff_batch_plan_stops_at_malformed_topic() {
    let payload = json(r#"{"results": {"a": {}, "b": {"toPush": 1}, "c": {}}}"#);
    let plan = BatchDiffHandler::plan_diff_batch(&payload);
    assert_eq!(plan.completed_topic_ids, vec!["a".to_string()]);
    assert_eq!(plan.error.as_deref(), Some("toPush must be a boolean for topic b"));
    let not_object = BatchDiffHandler::plan_diff_batch(&json(r#"{"results": []}"#));
    assert_eq!(
        not_object.error.as_deref(),
        Some("SYNC_DIFF_RESULTS_BATCH.results must be an object")
    );
}

fn successful_result(topic_id: &str) -> BatchPullResult {
    BatchPullResult {
        topic_id: topic_id.to_string(),
        success: true,
        parsed_count: 0,
        failed_count: 0,
        error: None,
    }
}

#[test]
fn ndjson_parser_recognizes_stream_errors_after_reassembly() {
    let mut reassembled = br#"{"_stream_error":"desktop failed"}"#.to_vec();
    reassembled.push(b'\n');
    let error = parse_topic_ndjson_frame(&reassembled).err().unwrap();
    assert_eq!(error, "Desktop stream error: desktop failed");
}

#[test]
fn ndjson_frame_reads_topic_messages_and_error() {
    let frame = parse_topic_ndjson_frame(br#"{"topicId":"t1","messages":[{"id":"m"}],"_error":null}"#).ok().unwrap();
    assert_eq!(frame.topic_id, "t1");
    assert_eq!(frame.messages.len(), 1);
    assert!(frame.error.is_none());
    let empty = parse_topic_ndjson_frame(br#"{"topicId":"","messages":[]}"#).err().unwrap();
    assert_eq!(empty, "Batch pull response contains an empty topicId");
    assert!(parse_topic_ndjson_frame(b"{oops").err().unwrap().starts_with("Malformed NDJSON frame: "));
}

#[test]
fn batch_pull_validation_rejects_missing_duplicate_and_protocol_results() {
    let requests = vec![
        ("topic-1".to_string(), Vec::new()),
        ("topic-2".to_string(), Vec::new()),
    ];

    let missing = vec![successful_result("topic-1")];
    assert!(validate_batch_pull_results(&requests, &missing)
        .unwrap_err()
        .contains("topic-2"));

    let duplicate = vec![
        successful_result("topic-1"),
        successful_result("topic-1"),
        successful_result("topic-2"),
    ];
    assert!(validate_batch_pull_results(&requests, &duplicate)
        .unwrap_err()
        .contains("Duplicate topic"));

    let protocol = vec![
        successful_result("topic-1"),
        BatchPullResult {
            topic_id: String::new(),
            success: false,
            parsed_count: 0,
            failed_count: 0,
            error: Some("Malformed NDJSON frame".to_string()),
        },
    ];
    assert_eq!(
        validate_batch_pull_results(&requests, &protocol).unwrap_err(),
        "Malformed NDJSON frame"
    );
}

#[test]
fn batch_pull_validation_accepts_complete_results() {
    let requests = vec![("topic-1".to_string(), Vec::new())];
    assert!(validate_batch_pull_results(&requests, &[successful_result("topic-1")]).is_ok());
    let bad = vec![(String::new(), Vec::new())];
    assert_eq!(
        validate_batch_pull_results(&bad, &[]).unwrap_err(),
        "Batch pull request contains an empty topic id"
    );
}

#[test]
fn entity_batch_rejects_missing_and_malformed_responses_before_writes() {
    let requests = vec![
        json(r#"{ "id": "agent-1", "type": "agent" }"#),
        json(r#"{ "id": "group-1", "type": "group" }"#),
    ];
    let expected = parse_entity_request_keys(&requests).unwrap();

    let missing = parse_entity_batch_results(
        &[json(r#"{"id": "agent-1", "type": "agent", "data": {"name": "Agent", "systemPrompt": "", "model": "model", "temperature": 0.7, "contextTokenLimit": 4096, "maxOutputTokens": 1024, "streamOutput": true}}"#)],
        &expected,
    )
    .err()
    .unwrap();
    assert!(missing.contains("group:group-1"));

    let malformed = parse_entity_batch_results(
        &[
            json(r#"{ "id": "agent-1", "type": "agent", "data": {} }"#),
            json(r#"{ "id": "group-1", "type": "group", "data": {} }"#),
        ],
        &expected,
    )
    .err()
    .unwrap();
    assert!(malformed.contains("Invalid agent DTO"));
}

#[test]
fn entity_batch_accepts_well_formed_dtos() {
    let requests = vec![
        json(r#"{ "id": "agent-1", "type": "agent" }"#),
        json(r#"{ "id": "group-1", "type": "group" }"#),
        json(r#"{ "id": "topic-1", "type": "group_topic" }"#),
        json(r#"{ "id": "default", "type": "agent_topic" }"#),
    ];
    let expected = parse_entity_request_keys(&requests).unwrap();
    let items = parse_entity_batch_results(
        &[
            json(r#"{"id": "agent-1", "type": "agent", "data": {"name": "Agent", "systemPrompt": "", "model": "model", "temperature": 1, "contextTokenLimit": 4096, "maxOutputTokens": 1024, "streamOutput": false, "extra": 1}}"#),
            json(r#"{"id": "group-1", "type": "group", "data": {"name": "G", "members": ["a", "b"], "mode": "sequential", "groupPrompt": null, "useUnifiedModel": false, "createdAt": 1}}"#),
            json(r#"{"id": "topic-1", "type": "group_topic", "data": {"id": "topic-1", "name": "T", "createdAt": 2, "ownerId": "group-1"}}"#),
            json(r#"{"id": "default", "type": "agent_topic", "data": {}}"#),
        ],
        &expected,
    )
    .unwrap();
    assert_eq!(items.len(), 4);
}

#[test]
fn entity_batch_names_the_invalid_dto_field() {
    let requests = vec![json(r#"{ "id": "group-1", "type": "group" }"#)];
    let expected = parse_entity_request_keys(&requests).unwrap();
    let error = parse_entity_batch_results(
        &[json(r#"{"id": "group-1", "type": "group", "data": {"name": "G", "members": ["a", 2], "mode": "m", "useUnifiedModel": false, "createdAt": 1}}"#)],
        &expected,
    )
    .err()
    .unwrap();
    assert_eq!(error, "Invalid group DTO for group-1: missing or invalid field `members`");

    let requests = vec![json(r#"{ "id": "topic-1", "type": "agent_topic" }"#)];
    let expected = parse_entity_request_keys(&requests).unwrap();
    let error = parse_entity_batch_results(
        &[json(r#"{"id": "topic-1", "type": "agent_topic", "data": {"id": "topic-1", "name": "T", "createdAt": 1.5, "locked": true, "unread": false, "ownerId": "a"}}"#)],
        &expected,
    )
    .err()
    .unwrap();
    assert_eq!(error, "Invalid agent topic DTO for topic-1: missing or invalid field `createdAt`");

    let error = parse_entity_batch_results(
        &[json(r#"{"id": "topic-1", "type": "agent_topic", "data": [1]}"#)],
        &expected,
    )
    .err()
    .unwrap();
    assert_eq!(error, "Invalid agent topic DTO for topic-1: expected a JSON object");
}

#[test]
fn entity_batch_rejects_topic_id_mismatch() {
    let requests = vec![json(r#"{ "id": "topic-1", "type": "agent_topic" }"#)];
    let expected = parse_entity_request_keys(&requests).unwrap();
    let error = parse_entity_batch_results(
        &[json(r#"{"id": "topic-1", "type": "agent_topic", "data": {"id": "topic-other", "name": "Topic", "createdAt": 1, "locked": true, "unread": false, "ownerId": "agent-1"}}"#)],
        &expected,
    )
    .err()
    .unwrap();
    assert!(error.contains("DTO id mismatch"));
}

#[test]
fn entity_request_keys_reject_duplicates_and_bad_types() {
    let dup = vec![
        json(r#"{ "id": "a", "type": "agent" }"#),
        json(r#"{ "id": "a", "type": "agent" }"#),
    ];
    assert_eq!(parse_entity_request_keys(&dup).unwrap_err(), "Duplicate batch entity request: agent:a");
    let bad = vec![json(r#"{ "id": "a", "type": "robot" }"#)];
    assert_eq!(parse_entity_request_keys(&bad).unwrap_err(), "Unsupported batch entity request type for a");
}

fn expected_topics() -> Vec<String> {
    vec!["topic-a".to_string(), "topic-b".to_string()]
}

#[test]
fn batch_push_response_requires_one_valid_result_per_topic() {
    let body = &[r#"{"topicId":"topic-a","success":true,"neededAttachmentHashes":["hash-a"]}"#, "\n", r#"{"topicId":"topic-b","success":false,"error":"rejected"}"#, "\n"].concat();

    let (results, hashes) = parse_push_messages_batch_response(body, &expected_topics()).ok().unwrap();

    assert_eq!(results.len(), 2);
    assert!(results[0].success);
    assert!(!results[1].success);
    assert_eq!(results[1].error.as_deref(), Some("rejected"));
    assert_eq!(hashes, vec!["hash-a"]);
}

#[test]
fn batch_push_response_rejects_malformed_missing_duplicate_and_unexpected_topics() {
    let expected = expected_topics();

    assert!(parse_push_messages_batch_response("not-json", &expected).is_err());
    assert!(parse_push_messages_batch_response(r#"{"topicId":"topic-a","success":true}"#, &expected)
        .err()
        .unwrap()
        .contains("missing topics"));
    assert!(parse_push_messages_batch_response(
        &[r#"{"topicId":"topic-a","success":true}"#, "\n", r#"{"topicId":"topic-a","success":true}"#, "\n"].concat(),
        &expected,
    )
    .err()
    .unwrap()
    .contains("duplicate"));
    assert!(parse_push_messages_batch_response(
        &[r#"{"topicId":"topic-a","success":true}"#, "\n", r#"{"topicId":"topic-c","success":true}"#, "\n"].concat(),
        &expected,
    )
    .err()
    .unwrap()
    .contains("unexpected"));
}

#[test]
fn batch_push_response_rejects_stream_errors_and_invalid_attachment_hashes() {
    let expected = vec!["topic-a".to_string()];

    assert!(parse_push_messages_batch_response(r#"{"_stream_error":"connection reset"}"#, &expected)
        .err()
        .unwrap()
        .contains("stream error"));
    assert!(parse_push_messages_batch_response(
        r#"{"topicId":"topic-a","success":true,"neededAttachmentHashes":[42]}"#,
        &expected,
    )
    .err()
    .unwrap()
    .contains("invalid attachment hash"));
}

#[test]
fn batch_push_missing_topics_are_sorted() {
    let expected = vec!["zeta".to_string(), "alpha".to_string(), "mid".to_string()];
    let err = parse_push_messages_batch_response("", &expected).err().unwrap();
    assert_eq!(err, "Batch push response is missing topics: alpha, mid, zeta");
    let err = parse_push_messages_batch_response("\n\n{bad", &expected).err().unwrap();
    assert!(err.starts_with("Malformed batch push response at line 3: "));
}

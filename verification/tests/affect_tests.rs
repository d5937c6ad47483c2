use vcp_mobile::affect_engine::{
    appraisal_clauses, check_event_identity, contains_any, is_disagreement_clause,
    is_joke_clause, is_metalinguistic_clause, is_reported_speech_clause, is_user_affect_signal,
    negated_before, reaction_jitter_permille, split_rule_signals, turn_variant,
    unnegated_match_count, validate_agent_id, RecordAffectEventInput,
};

fn reference_fnv(parts: &[&str], separator: bool) -> u64 {
    let mut hash = 0xcbf29ce484222325_u64;
    for part in parts {
        for byte in part.bytes() {
            hash = (hash ^ byte as u64).wrapping_mul(0x100000001b3);
        }
        if separator {
            hash = (hash ^ 0xff).wrapping_mul(0x100000001b3);
        }
    }
    hash
}

#[test]
fn clauses_are_split_on_punctuation_and_trimmed() {
    assert_eq!(
        appraisal_clauses(" 我很难过， 但是没事！\n好吧;;"),
        vec!["我很难过".to_string(), "但是没事".to_string(), "好吧".to_string()]
    );
    assert!(appraisal_clauses("，。!?").is_empty());
}

#[test]
fn phrase_lists_match_by_containment() {
    assert!(contains_any("我真的很喜欢你", &["喜欢", "爱"]));
    assert!(!contains_any("你好", &["喜欢", "爱"]));
    assert!(is_metalinguistic_clause("讨厌是什么意思"));
    assert!(is_disagreement_clause("我不同意你"));
    assert!(is_joke_clause("我只是开玩笑"));
    assert!(is_reported_speech_clause("他说他讨厌你"));
    assert!(!is_reported_speech_clause("我讨厌你"));
}

#[test]
fn negation_is_looked_for_just_before_the_phrase() {
    let text: Vec<char> = "我不讨厌你".chars().collect();
    assert!(negated_before(&text, 2));
    let plain: Vec<char> = "我讨厌你".chars().collect();
    assert!(!negated_before(&plain, 1));
}

#[test]
fn user_affect_signals_are_split_from_relationship_signals() {
    let signals = vec![
        "用户低落".to_string(),
        "被关心".to_string(),
        "共享喜悦".to_string(),
        "冲突".to_string(),
    ];
    assert!(is_user_affect_signal("用户愤怒"));
    assert!(!is_user_affect_signal("冲突"));
    let (relation, user) = split_rule_signals(&signals);
    assert_eq!(relation, vec!["被关心".to_string(), "冲突".to_string()]);
    assert_eq!(user, vec!["用户低落".to_string(), "共享喜悦".to_string()]);
}

#[test]
fn agent_ids_are_trimmed_and_bounded() {
    assert_eq!(validate_agent_id("  a1 "), Ok("a1".to_string()));
    assert_eq!(validate_agent_id("   "), Err("agentId 不能为空".to_string()));
    assert_eq!(validate_agent_id(&"x".repeat(257)), Err("agentId 过长".to_string()));
    assert_eq!(validate_agent_id(&"x".repeat(256)), Ok("x".repeat(256)));
}

#[test]
fn event_identity_errors_follow_the_path_language() {
    let mut input = RecordAffectEventInput {
        agent_id: "a1".to_string(),
        source_message_id: " ".to_string(),
        source: "user_message".to_string(),
        text: String::new(),
        topic_id: None,
    };
    assert_eq!(
        check_event_identity(&input, true).err(),
        Some("sourceMessageId cannot be empty".to_string())
    );
    assert_eq!(
        check_event_identity(&input, false).err(),
        Some("sourceMessageId 不能为空".to_string())
    );
    input.source_message_id = "m1".to_string();
    input.source = "mail".to_string();
    assert_eq!(
        check_event_identity(&input, true).err(),
        Some("source must be user_message, lifecycle, or group".to_string())
    );
    input.source = " group ".to_string();
    let id = check_event_identity(&input, false).unwrap();
    assert_eq!(id.agent_id, "a1");
    assert_eq!(id.source_message_id, "m1");
    assert_eq!(id.source, "group");
}

#[test]
fn turn_variant_is_a_stable_hash_of_the_turn() {
    assert_eq!(turn_variant("a", "t", 1), 0);
    assert_eq!(turn_variant("a", "t", 0), 0);
    let expected = reference_fnv(&["agent-1", "turn-7"], false) as usize % 5;
    assert_eq!(turn_variant("agent-1", "turn-7", 5), expected);
    assert_eq!(turn_variant("agent-1", "turn-7", 5), turn_variant("agent-1", "turn-7", 5));
}

#[test]
fn reaction_jitter_is_deterministic_and_bounded() {
    let expected = reference_fnv(&["agent-1", "turn-7", "喜悦"], true) % 2001;
    let got = reaction_jitter_permille("agent-1", "turn-7", "喜悦");
    assert_eq!(got, expected);
    assert!(got <= 2000);
}

fn chars(s: &str) -> Vec<char> {
    s.chars().collect()
}

#[test]
fn unnegated_matches_skip_negations_and_stop_at_two() {
    assert_eq!(unnegated_match_count(&chars("not like it"), &chars("like")), 0);
    assert_eq!(unnegated_match_count(&chars("i like it, not like it"), &chars("like")), 1);
    assert_eq!(unnegated_match_count(&chars("like, like, like"), &chars("like")), 2);
    assert_eq!(unnegated_match_count(&chars("我不喜欢你，我喜欢他"), &chars("喜欢")), 1);
    assert_eq!(unnegated_match_count(&chars("nothing here"), &chars("like")), 0);
}

#[test]
fn unnegated_matches_do_not_overlap() {
    assert_eq!(unnegated_match_count(&chars("aaa"), &chars("aa")), 1);
    assert_eq!(unnegated_match_count(&chars("aaaa"), &chars("aa")), 2);
}

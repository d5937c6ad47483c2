use vcp_mobile::diary_manager::{
    admin_ctx, diary_url, folder_suffix, folders_from_response, interpret_admin_response,
    note_content_from_response, note_suffix, notes_from_response, search_query, AdminCtx,
};
use vcp_mobile::json::JsonNode;
use vcp_mobile::lifecycle_controller::Settings;

fn json_node(text: &str) -> Result<JsonNode, String> {
    let value = serde_json::from_str::<serde_json::Value>(text).map_err(|e| e.to_string())?;
    Ok(match value {
        serde_json::Value::Null => JsonNode::Null,
        serde_json::Value::Bool(b) => JsonNode::Bool(b),
        serde_json::Value::Number(n) => JsonNode::Number(n.to_string()),
        serde_json::Value::String(s) => JsonNode::Str(s),
        serde_json::Value::Array(a) => JsonNode::Array(a.iter().map(|x| x.to_string()).collect()),
        serde_json::Value::Object(o) => {
            JsonNode::Object(o.into_iter().map(|(k, x)| (k, x.to_string())).collect())
        }
    })
}

fn admin_settings(url: &str) -> Settings {
    Settings {
        vcp_server_url: url.to_string(),
        admin_username: "admin".to_string(),
        admin_password: "secret".to_string(),
        ..Settings::default()
    }
}

#[test]
fn admin_ctx_derives_origin_with_port() {
    let ctx = admin_ctx(&admin_settings("http://example.com:6005/v1/chat/completions")).unwrap();
    assert_eq!(ctx.base, "http://example.com:6005");
    assert_eq!(ctx.user, "admin");
    assert_eq!(ctx.pass, "secret");
    let ctx = admin_ctx(&admin_settings("https://example.com/v1")).unwrap();
    assert_eq!(ctx.base, "https://example.com");
}

#[test]
fn admin_ctx_reports_missing_settings_in_order() {
    let err = admin_ctx(&Settings::default()).err().unwrap();
    assert!(err.contains("服务器地址未配置"));
    let mut s = admin_settings("http://h");
    s.admin_password = String::new();
    assert!(admin_ctx(&s).err().unwrap().contains("管理员账号或密码未配置"));
    assert_eq!(admin_ctx(&admin_settings("not a url")).err().unwrap(), "VCP 服务器地址无效");
}

#[test]
fn diary_paths_encode_segments() {
    let ctx = AdminCtx {
        base: "http://h:1".to_string(),
        user: String::new(),
        pass: String::new(),
    };
    assert_eq!(diary_url(&ctx, "/folders"), "http://h:1/admin_api/dailynotes/folders");
    assert_eq!(folder_suffix("my notes"), "/folder/my%20notes");
    assert_eq!(note_suffix("日记", "2026.03.02.txt"), "/note/%E6%97%A5%E8%AE%B0/2026.03.02.txt");
    assert_eq!(folder_suffix("a/b_c-d~"), "/folder/a%2Fb_c-d%7E");
}

#[test]
fn failed_response_prefers_server_message() {
    let e = interpret_admin_response(false, "404 Not Found", "u", r#"{"message":"gone"}"#);
    assert_eq!(e.err().unwrap(), "gone");
    let e = interpret_admin_response(false, "500", "u", r#"{"message":1,"error":"bad"}"#);
    assert_eq!(e.err().unwrap(), "bad");
    let e = interpret_admin_response(false, "500 Internal Server Error", "http://x", "oops");
    assert_eq!(e.err().unwrap(), "接口返回 500 Internal Server Error — http://x");
}

#[test]
fn successful_response_is_null_when_blank_and_json_otherwise() {
    assert!(matches!(
        interpret_admin_response(true, "200", "u", "  \n"),
        Ok(JsonNode::Null)
    ));
    assert!(matches!(
        interpret_admin_response(true, "200", "u", "true"),
        Ok(JsonNode::Bool(true))
    ));
    assert!(interpret_admin_response(true, "200", "u", "{oops")
        .err()
        .unwrap()
        .starts_with("解析响应失败: "));
}

#[test]
fn folders_skip_non_strings() {
    let v = json_node(r#"{"folders":["a",1,"b",null]}"#).unwrap();
    assert_eq!(folders_from_response(&v), vec!["a".to_string(), "b".to_string()]);
    let v = json_node(r#"{"other":[]}"#).unwrap();
    assert!(folders_from_response(&v).is_empty());
}

#[test]
fn notes_follow_the_entry_shape() {
    let v = json_node(
        r#"{"notes":[{"name":"a.txt","lastModified":"2026","preview":"p"},{"name":"b.txt"},["c.txt","t"]]}"#,
    )
    .unwrap();
    let notes = notes_from_response(&v).unwrap();
    assert_eq!(notes.len(), 3);
    assert_eq!(notes[0].name, "a.txt");
    assert_eq!(notes[0].last_modified, "2026");
    assert_eq!(notes[0].preview, "p");
    assert_eq!(notes[1].name, "b.txt");
    assert_eq!(notes[1].last_modified, "");
    assert_eq!(notes[2].name, "c.txt");
    assert_eq!(notes[2].last_modified, "t");

    let missing = json_node(r#"{"other":1}"#).unwrap();
    assert!(notes_from_response(&missing).err().unwrap().starts_with("解析日记列表失败: "));
    let bad = json_node(r#"{"notes":[{"preview":"x"}]}"#).unwrap();
    assert!(notes_from_response(&bad).is_err());
    let null_field = json_node(r#"{"notes":[{"name":"a","preview":null}]}"#).unwrap();
    assert!(notes_from_response(&null_field).is_err());
}

#[test]
fn note_content_defaults_to_empty() {
    let v = json_node(r#"{"content":"hello"}"#).unwrap();
    assert_eq!(note_content_from_response(&v), "hello");
    let v = json_node(r#"{"content":3}"#).unwrap();
    assert_eq!(note_content_from_response(&v), "");
}

#[test]
fn search_query_includes_folder_only_when_non_empty() {
    let q = search_query("t".to_string(), Some(String::new()), None);
    assert_eq!(
        q,
        vec![
            ("term".to_string(), "t".to_string()),
            ("limit".to_string(), "200".to_string())
        ]
    );
    let q = search_query("t".to_string(), Some("f".to_string()), Some(5));
    assert_eq!(q[1], ("folder".to_string(), "f".to_string()));
    assert_eq!(q[2], ("limit".to_string(), "5".to_string()));
}

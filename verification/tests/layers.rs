use bettercursor::bubble::{Bubble, BubbleToolUse};
use bettercursor::canonical::{extract_workspace_path, read_store_db_meta};
use bettercursor::json::{Json, JsonNumber};
use bettercursor::layer1::{
    jsonl_lines, read_jsonl_indexable, read_jsonl_preview, read_layer1_bubbles_from_body, JsonlLine,
    INDEXABLE_MAX_CHARS,
};
use bettercursor::layer2::{decode_l2_blob, read_layer2_bubbles};
use bettercursor::layer3::{decode_l3_bubble_blob, read_layer3_bubbles, read_layer3_bubbles_ordered};
use bettercursor::merge::merge_bubbles_three_way;

fn to_json(v: serde_json::Value) -> Json {
    match v {
        serde_json::Value::Null => Json::Null,
        serde_json::Value::Bool(b) => Json::Bool(b),
        serde_json::Value::Number(n) => Json::Number(if let Some(u) = n.as_u64() {
            JsonNumber::PosInt(u)
        } else if let Some(i) = n.as_i64() {
            JsonNumber::NegInt(i)
        } else {
            JsonNumber::Float(n.to_string())
        }),
        serde_json::Value::String(s) => Json::Str(s),
        serde_json::Value::Array(a) => Json::Array(a.into_iter().map(to_json).collect()),
        serde_json::Value::Object(m) => {
            Json::Object(m.into_iter().map(|(k, x)| (k, to_json(x))).collect())
        }
    }
}

fn j(text: &str) -> Json {
    to_json(serde_json::from_str(text).unwrap())
}

fn bubble(id: &str, role: &str, text: &str, ts: i64) -> Bubble {
    Bubble {
        id: id.into(),
        role: role.into(),
        text: text.into(),
        tool_calls: vec![],
        files: vec![],
        images: vec![],
        created_at_ms: ts,
        parent_bubble_id: None,
    }
}

fn preview_of(body: &str) -> String {
    read_jsonl_preview(&jsonl_lines(body)).0
}

#[test]
fn parse_nested_message_content() {
    let body = r#"{"role":"user","message":{"content":[{"type":"text","text":"<user_query>\n你现在用的是什么模型?\n</user_query>"}]}}
{"role":"assistant","message":{"content":[{"type":"text","text":"I'm Composer."},{"type":"tool_use","name":"Glob","input":{}}]}}
{"role":"user","message":{"content":[{"type":"text","text":"our sessions stored where?"}]}}
"#;
    assert_eq!(preview_of(body), "你现在用的是什么模型?");
}

#[test]
fn parse_root_string_content() {
    let body = r#"{"role":"user","content":"hello legacy"}
{"role":"assistant","content":"hi"}
"#;
    assert_eq!(preview_of(body), "hello legacy");
}

#[test]
fn parse_root_array_content() {
    let body = r#"{"role":"user","content":[{"type":"text","text":"hi from array"}]}
"#;
    assert_eq!(preview_of(body), "hi from array");
}

#[test]
fn parse_skips_orphan_events() {
    let body = r#"{"type":"turn_ended","status":"error","error":"usage limit"}
{"role":"user","message":{"content":[{"type":"text","text":"<user_query>the real question</user_query>"}]}}
"#;
    assert_eq!(preview_of(body), "the real question");
}

#[test]
fn parse_caps_preview_at_120() {
    let big = "X".repeat(300);
    let body = format!(
        r#"{{"role":"user","message":{{"content":[{{"type":"text","text":"{big}"}}]}}}}"#,
    );
    let preview = preview_of(&body);
    assert_eq!(preview.chars().count(), 121);
    assert!(preview.ends_with('…'));
}

#[test]
fn parse_strips_timestamp_block() {
    let body = r#"{"role":"user","message":{"content":[{"type":"text","text":"<timestamp>2026-07-03T10:00:00Z</timestamp>\n<user_query>\nreal q\n</user_query>"}]}}
"#;
    assert_eq!(preview_of(body), "real q");
}

#[test]
fn parse_no_user_message_yields_empty() {
    let body = r#"{"type":"turn_ended","status":"error","error":"usage limit"}
{"role":"assistant","message":{"content":[{"type":"text","text":"hi"}]}}
"#;
    assert_eq!(preview_of(body), "");
}

#[test]
fn preview_collects_attachment_names() {
    let body = r#"{"role":"user","content":"q","attachments":[{"name":"a.py"},{"size":1}]}
{"role":"assistant","content":"a","attachments":[{"name":"b.rs"}]}
"#;
    let (preview, files) = read_jsonl_preview(&jsonl_lines(body));
    assert_eq!(preview, "q");
    assert_eq!(files, vec!["a.py".to_string(), "b.rs".to_string()]);
}

#[test]
fn conv_user_then_assistant_with_tool_use() {
    let body = r#"{"role":"user","message":{"content":[{"type":"text","text":"<user_query>\nhi\n</user_query>"}]}}
{"role":"assistant","message":{"content":[{"type":"text","text":"**hi** back"},{"type":"tool_use","name":"Glob","input":{"pattern":"*"}},{"type":"tool_use","name":"Read","input":{"path":"/etc/hostname"}}]}}
"#;
    let (bubbles, _, _) = read_layer1_bubbles_from_body("abc", &jsonl_lines(body));
    assert_eq!(bubbles.len(), 2);
    assert_eq!(bubbles[0].role, "user");
    assert_eq!(bubbles[0].text, "hi");
    assert_eq!(bubbles[1].role, "assistant");
    assert_eq!(bubbles[1].text, "**hi** back");
    assert_eq!(bubbles[1].tool_calls.len(), 2);
    assert_eq!(bubbles[1].tool_calls[0].name, "Glob");
    assert_eq!(bubbles[1].tool_calls[0].input.as_ref().unwrap().get_str("pattern"), Some("*".to_string()));
}

#[test]
fn conv_orphan_events_dropped() {
    let body = r#"{"type":"turn_ended","status":"error","error":"usage limit"}
{"role":"user","message":{"content":[{"type":"text","text":"<user_query>\nq\n</user_query>"}]}}
"#;
    let (bubbles, _, _) = read_layer1_bubbles_from_body("zzz", &jsonl_lines(body));
    assert_eq!(bubbles.len(), 1);
    assert_eq!(bubbles[0].role, "user");
}

#[test]
fn conv_empty_string_content_drops_bubble() {
    let body = r#"{"role":"user","message":{"content":[{"type":"text","text":""}]}}
{"role":"user","message":{"content":[{"type":"text","text":"<user_query>\ngenuine\n</user_query>"}]}}
"#;
    let (bubbles, _, _) = read_layer1_bubbles_from_body("ww", &jsonl_lines(body));
    assert_eq!(bubbles.len(), 1);
    assert_eq!(bubbles[0].text, "genuine");
}

#[test]
fn layer1_counts_lines_and_parse_errors() {
    let body = "{\"role\":\"user\",\"content\":\"a\"}\n\nnot json\n";
    let lines = jsonl_lines(body);
    assert!(matches!(lines[1], JsonlLine::Blank));
    assert!(matches!(lines[2], JsonlLine::Malformed));
    let (bubbles, total, errors) = read_layer1_bubbles_from_body("u", &lines);
    assert_eq!(bubbles.len(), 1);
    assert_eq!(total, 2);
    assert_eq!(errors, 1);
}

#[test]
fn indexable_joins_user_and_assistant_text() {
    let body = r#"{"role":"user","message":{"content":[{"type":"text","text":"<user_query>\nfind me a graphql server\n</user_query>"}]}}
{"role":"assistant","message":{"content":[{"type":"text","text":"Try yoga or mercurius"},{"type":"tool_use","name":"Glob","input":{}}]}}
"#;
    let text = read_jsonl_indexable(&jsonl_lines(body));
    assert!(text.contains("graphql server"), "got: {text:?}");
    assert!(text.contains("yoga or mercurius"), "got: {text:?}");
    assert!(!text.contains("<user_query>"), "wrappers leaked: {text:?}");
    assert_eq!(text, "find me a graphql server\nTry yoga or mercurius");
}

#[test]
fn indexable_caps_at_max() {
    let big = "X".repeat(5000);
    let body = format!(
        r#"{{"role":"user","message":{{"content":[{{"type":"text","text":"{big}"}}]}}}}"#,
    );
    let text = read_jsonl_indexable(&jsonl_lines(&body));
    assert_eq!(text.len(), INDEXABLE_MAX_CHARS);
}

#[test]
fn indexable_does_not_panic_on_multibyte() {
    let cjk = "中".repeat(3000);
    let body = format!(
        r#"{{"role":"user","message":{{"content":[{{"type":"text","text":"{cjk}"}}]}}}}"#,
    );
    let text = read_jsonl_indexable(&jsonl_lines(&body));
    assert!(text.len() <= INDEXABLE_MAX_CHARS);
    assert!(text.is_char_boundary(text.len()), "not on char boundary");
    let char_count = text.chars().count();
    assert!(char_count * 3 <= INDEXABLE_MAX_CHARS);
    assert_eq!(char_count, 666);
}

#[test]
fn indexable_skips_tool_use_only_messages() {
    let body = r#"{"role":"assistant","message":{"content":[{"type":"tool_use","name":"Shell","input":{}}]}}
{"role":"user","message":{"content":[{"type":"text","text":"<user_query>\nreal query\n</user_query>"}]}}
"#;
    let text = read_jsonl_indexable(&jsonl_lines(body));
    assert_eq!(text, "real query");
}

#[test]
fn indexable_empty_body_is_empty() {
    assert!(read_jsonl_indexable(&jsonl_lines("")).is_empty());
}

#[test]
fn broken_rule_fires_on_empty_root_blob() {
    let meta = j(r#"{"name":"session","createdAt":100,"latestRootBlobId":""}"#);
    let (name, ts, _count, root) = read_store_db_meta(Some(&meta), Some(3));
    assert_eq!(name, "session");
    assert_eq!(ts, 100);
    assert_eq!(root.as_deref(), Some(""));
    assert!(matches!(root.as_deref(), Some(s) if s.is_empty()));
}

#[test]
fn broken_rule_does_not_fire_on_valid_root_blob() {
    let meta = j(r#"{"name":"session","createdAt":100,"latestRootBlobId":"abc123def"}"#);
    let (_name, _ts, _count, root) = read_store_db_meta(Some(&meta), None);
    assert!(!matches!(root.as_deref(), Some(s) if s.is_empty()));
}

#[test]
fn broken_rule_does_not_fire_on_missing_root_blob() {
    let meta = j(r#"{"name":"session","createdAt":100}"#);
    let (_name, _ts, _count, root) = read_store_db_meta(Some(&meta), None);
    assert!(root.is_none());
}

#[test]
fn extract_workspace_path_handles_object_form() {
    let v = j(r#"{"workspaceIdentifier":{"id":"a2a619b49a9779a3952a95ce4c9579bf","uri":{"fsPath":"/home/eric/workspace/enenzuo","external":"file:///home/eric/workspace/enenzuo","path":"/home/eric/workspace/enenzuo","scheme":"file"}}}"#);
    assert_eq!(extract_workspace_path(&v), "/home/eric/workspace/enenzuo");
}

#[test]
fn extract_workspace_path_handles_legacy_string_form() {
    let v = j(r#"{"workspaceIdentifier":"/Users/x/y"}"#);
    assert_eq!(extract_workspace_path(&v), "/Users/x/y");
}

#[test]
fn extract_workspace_path_handles_missing_field() {
    let v = j(r#"{"name":"no workspace"}"#);
    assert_eq!(extract_workspace_path(&v), "");
    let v2 = j(r#"{"workspaceIdentifier":null}"#);
    assert_eq!(extract_workspace_path(&v2), "");
}

#[test]
fn extract_workspace_path_strips_file_scheme() {
    let v = j(r#"{"workspaceIdentifier":{"uri":{"external":"file:///foo/bar"}}}"#);
    assert_eq!(extract_workspace_path(&v), "/foo/bar");
}

#[test]
fn read_layer1_assigns_deterministic_ids() {
    let body = r#"{"role":"user","message":{"content":[{"type":"text","text":"hi"}]}}
{"role":"assistant","message":{"content":[{"type":"text","text":"hello"}]}}
"#;
    let (a, _, _) = read_layer1_bubbles_from_body("uuid-x", &jsonl_lines(body));
    let (b, _, _) = read_layer1_bubbles_from_body("uuid-x", &jsonl_lines(body));
    assert_eq!(a.len(), 2);
    assert_eq!(a.len(), b.len());
    for (x, y) in a.iter().zip(b.iter()) {
        assert_eq!(x.id, y.id, "id must be deterministic across calls");
        assert_eq!(x.id.len(), 36);
        assert_eq!(x.id.chars().filter(|c| *c == '-').count(), 4);
    }
    let (c, _, _) = read_layer1_bubbles_from_body("uuid-y", &jsonl_lines(body));
    assert_ne!(a[0].id, c[0].id);
}

#[test]
fn decode_l2_blob_handles_v0_2_alpha_degraded_shape() {
    let json = r#"{"role":"user","text":"hello world","createdAt":1700000000000}"#;
    let b = decode_l2_blob("uuid-a", "blob-1", json.as_bytes(), 0)
        .expect("should decode degraded shape");
    assert_eq!(b.role, "user");
    assert_eq!(b.text, "hello world");
    assert_eq!(b.created_at_ms, 1_700_000_000_000);
    assert!(!b.id.is_empty(), "id must be filled even on degraded blob");
    assert_eq!(b.id.len(), 36);
}

#[test]
fn decode_l2_blob_handles_full_canonical_shape() {
    let json = r#"{"role":"assistant","text":"checking...","tool_calls":[{"name":"Glob","input":{"pattern":"*.rs"}}],"files":["src/main.rs"],"createdAt":42,"id":"explicit-bubble-id"}"#;
    let b = decode_l2_blob("uuid-a", "blob-1", json.as_bytes(), 0).unwrap();
    assert_eq!(b.role, "assistant");
    assert_eq!(b.text, "checking...");
    assert_eq!(b.tool_calls.len(), 1);
    assert_eq!(b.tool_calls[0].name, "Glob");
    assert_eq!(b.files, vec!["src/main.rs".to_string()]);
    assert_eq!(b.created_at_ms, 42);
    assert_eq!(b.id, "explicit-bubble-id", "id from JSON wins");
}

#[test]
fn decode_l2_blob_skips_garbage_gracefully() {
    let garbage = &[0x00, 0xFF, 0xAB, 0xCD, 0xEF];
    assert!(decode_l2_blob("uuid-a", "blob-1", garbage, 0).is_none());
    let not_json = b"this is plain text, not JSON";
    assert!(decode_l2_blob("uuid-a", "blob-1", not_json, 0).is_none());
    let no_role = r#"{"text":"orphan","createdAt":1}"#;
    assert!(decode_l2_blob("uuid-a", "blob-1", no_role.as_bytes(), 0).is_none());
    let system_role = r#"{"role":"system","text":"x"}"#;
    assert!(decode_l2_blob("uuid-a", "blob-1", system_role.as_bytes(), 0).is_none());
}

#[test]
fn read_layer2_bubbles_keeps_blob_ordinals() {
    let a = r#"{"role":"user","text":"one"}"#.as_bytes().to_vec();
    let c = r#"{"role":"assistant","text":"three"}"#.as_bytes().to_vec();
    let blobs = vec![
        ("a".to_string(), Some(a.clone())),
        ("b".to_string(), None),
        ("c".to_string(), Some(c.clone())),
    ];
    let out = read_layer2_bubbles("uuid", &blobs);
    assert_eq!(out.len(), 2);
    assert_eq!(out[0].text, "one");
    assert_eq!(out[1].text, "three");
    let third = decode_l2_blob("uuid", "c", &c, 2).unwrap();
    assert_eq!(out[1].id, third.id);
    let wrong = decode_l2_blob("uuid", "c", &c, 1).unwrap();
    assert_ne!(out[1].id, wrong.id);
}

#[test]
fn decode_l3_bubble_blob_handles_known_types() {
    let user_v = j(r#"{"_v":3,"type":1,"text":"question"}"#);
    let b = decode_l3_bubble_blob("bid-1", &user_v).unwrap();
    assert_eq!(b.role, "user");
    assert_eq!(b.text, "question");
    assert_eq!(b.id, "bid-1");
    let asst_v = j(r#"{"_v":3,"type":2,"text":"answer"}"#);
    let b = decode_l3_bubble_blob("bid-2", &asst_v).unwrap();
    assert_eq!(b.role, "assistant");
    assert_eq!(b.text, "answer");
    assert_eq!(b.id, "bid-2");
    let tool_v = j(r#"{"_v":3,"type":3,"text":"x"}"#);
    assert!(decode_l3_bubble_blob("bid-3", &tool_v).is_none());
}

#[test]
fn decode_l3_bubble_blob_read_file_v2_full_content() {
    let v = j(r#"{"_v":3,"type":2,"toolFormerData":{"name":"read_file_v2","params":"{\"targetFile\":\"src/main.rs\"}","result":"{\"contents\":\"fn main() {\\n    println!(\\\"hi\\\");\\n}\"}"}}"#);
    let b = decode_l3_bubble_blob("bid-rf", &v).unwrap();
    assert_eq!(b.role, "assistant");
    assert!(b.text.contains("[Tool: read_file_v2]"));
    assert!(b.text.contains("src/main.rs"));
    assert!(b.text.contains("fn main()"));
    assert_eq!(b.tool_calls.len(), 1);
    assert_eq!(b.tool_calls[0].name, "read_file_v2");
    assert_eq!(
        b.text,
        "[Tool: read_file_v2]\nFile: src/main.rs\nContent: fn main() {\n    println!(\"hi\");\n}"
    );
    assert_eq!(b.files, vec!["src/main.rs".to_string()]);
}

#[test]
fn decode_l3_bubble_blob_thinking_and_code_blocks() {
    let v = j(r#"{"_v":3,"type":2,"thinking":{"text":"reasoning step"},"codeBlocks":[{"content":"print(1)","languageId":"python"}]}"#);
    let b = decode_l3_bubble_blob("bid-th", &v).unwrap();
    assert!(b.text.contains("[Thinking]"));
    assert!(b.text.contains("reasoning step"));
    assert!(b.text.contains("```python"));
    assert_eq!(b.text, "[Thinking]\nreasoning step\n\n```python\nprint(1)\n```");
    let v2 = j(r#"{"_v":3,"type":2,"text":"Here is code:","codeBlocks":[{"content":"x = 1"}]}"#);
    let b2 = decode_l3_bubble_blob("bid-cb", &v2).unwrap();
    assert!(b2.text.contains("Here is code:"));
    assert!(b2.text.contains("x = 1"));
    assert_eq!(b2.text, "Here is code:\n\nx = 1");
}

#[test]
fn decode_l3_bubble_blob_timestamp_fallback() {
    let v = j(r#"{"_v":3,"type":1,"text":"hi","timingInfo":{"clientRpcSendTime":1700000000123}}"#);
    let b = decode_l3_bubble_blob("bid-ts", &v).unwrap();
    assert_eq!(b.created_at_ms, 1_700_000_000_123);
}

#[test]
fn decode_l3_tool_with_diff_result() {
    let v = j(r#"{"type":2,"toolFormerData":{"name":"edit_file","params":{"relativeWorkspacePath":"a.rs"},"result":"{\"diff\":{\"chunks\":[{\"diffString\":\"-x\"},{\"diffString\":\"+y\"}]},\"resultForModel\":\"ok\"}"}}"#);
    let b = decode_l3_bubble_blob("bid-ed", &v).unwrap();
    assert_eq!(b.text, "[Tool: Edit File]\nFile: a.rs\n\n-x\n+y\n\nResult: ok");
}

#[test]
fn decode_l3_user_text_falls_back_through_members() {
    let v = j(r#"{"type":1,"text":"  ","finalText":"final words"}"#);
    let b = decode_l3_bubble_blob("bid-u", &v).unwrap();
    assert_eq!(b.text, "final words");
}

#[test]
fn read_layer3_bubbles_sorts_by_id_and_filters_prefix() {
    let rows = vec![
        ("bubbleId:u:b2".to_string(), Some(j(r#"{"type":2,"text":"second"}"#))),
        ("bubbleId:u:b1".to_string(), Some(j(r#"{"type":1,"text":"first"}"#))),
        ("bubbleId:other:b0".to_string(), Some(j(r#"{"type":1,"text":"other"}"#))),
        ("bubbleId:u:b3".to_string(), None),
    ];
    let out = read_layer3_bubbles("u", &rows);
    assert_eq!(out.len(), 2);
    assert_eq!(out[0].id, "b1");
    assert_eq!(out[1].id, "b2");
    let composer = j(r#"{"fullConversationHeadersOnly":[{"type":2,"bubbleId":"b2"},{"type":1,"bubbleId":"b1"},{"type":3,"bubbleId":"b0"}]}"#);
    let ordered = read_layer3_bubbles_ordered("u", &composer, &rows);
    assert_eq!(ordered.len(), 2);
    assert_eq!(ordered[0].id, "b2");
    assert_eq!(ordered[1].id, "b1");
}

#[test]
fn merge_three_way_l3_wins_over_l2_on_empty_overlay() {
    let mut l3_bubble = bubble("shared", "user", "rich text", 1000);
    l3_bubble.tool_calls = vec![BubbleToolUse { name: "Glob".into(), input: Some(j(r#"{"pattern":"*"}"#)) }];
    l3_bubble.files = vec!["a.rs".into()];
    let l2_bubble = bubble("shared", "user", "", 0);
    let merged = merge_bubbles_three_way(Vec::new(), vec![l2_bubble], vec![l3_bubble]);
    assert_eq!(merged.len(), 1);
    assert_eq!(merged[0].text, "rich text", "L3 text preserved");
    assert_eq!(merged[0].tool_calls.len(), 1, "L3 tool_calls preserved");
    assert_eq!(merged[0].files, vec!["a.rs".to_string()]);
    assert_eq!(merged[0].created_at_ms, 1000, "L3 ts preserved");
}

#[test]
fn merge_three_way_l1_fills_gap() {
    let l1 = vec![bubble("l1-only", "user", "from jsonl", 500)];
    let merged = merge_bubbles_three_way(l1, Vec::new(), Vec::new());
    assert_eq!(merged.len(), 1);
    assert_eq!(merged[0].id, "l1-only");
    assert_eq!(merged[0].text, "from jsonl");
}

#[test]
fn merge_three_way_dedup_by_id() {
    let l1 = vec![bubble("shared", "user", "from jsonl", 0)];
    let l3 = vec![bubble("shared", "user", "from desktop", 1000)];
    let merged = merge_bubbles_three_way(l1, Vec::new(), l3);
    assert_eq!(merged.len(), 1, "same id → one row");
    assert_eq!(merged[0].text, "from desktop", "L3 wins as main chain");
}

#[test]
fn merge_three_way_preserves_order() {
    let l3 = vec![
        bubble("c", "user", "third", 3000),
        bubble("a", "user", "first", 1000),
        bubble("b", "user", "second", 2000),
    ];
    let merged = merge_bubbles_three_way(Vec::new(), Vec::new(), l3);
    assert_eq!(merged.len(), 3);
    assert_eq!(merged[0].id, "a");
    assert_eq!(merged[1].id, "b");
    assert_eq!(merged[2].id, "c");
}

#[test]
fn merge_three_way_l2_overlays_non_empty_fields() {
    let l3 = vec![bubble("x", "assistant", "stub", 10)];
    let mut l2b = bubble("x", "user", "full answer", 0);
    l2b.files = vec!["f.rs".into()];
    let merged = merge_bubbles_three_way(Vec::new(), vec![l2b], l3);
    assert_eq!(merged.len(), 1);
    assert_eq!(merged[0].text, "full answer");
    assert_eq!(merged[0].role, "user");
    assert_eq!(merged[0].created_at_ms, 10);
    assert_eq!(merged[0].files, vec!["f.rs".to_string()]);
}

#[test]
fn merge_three_way_first_l1_wins_and_ties_sort_by_id() {
    let l1 = vec![bubble("k", "user", "first", 0), bubble("k", "user", "second", 0), bubble("a", "user", "z", 0)];
    let merged = merge_bubbles_three_way(l1, Vec::new(), Vec::new());
    assert_eq!(merged.len(), 2);
    assert_eq!(merged[0].id, "a");
    assert_eq!(merged[1].id, "k");
    assert_eq!(merged[1].text, "first");
}

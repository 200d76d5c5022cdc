use bettercursor::blob_dag::find_root_blob;
use bettercursor::bubble::{Bubble, BubbleToolUse};
use bettercursor::codec::{base64_encode, hex_decode, hex_encode};
use bettercursor::compose::{
    archive_composer_sidebar_entry, build_workspace_identifier, composer_is_desktop_loadable,
    default_agent_composer_fields, default_composer_context, ensure_desktop_loadable_composer,
    extract_agent_blob_ids_from_composer, layer3_mutations, merge_composer_headers, ms_to_iso,
};
use bettercursor::inject::deterministic_bubble_id;
use bettercursor::json::{Json, JsonNumber};
use bettercursor::layer2_messages::{
    enrich_bubbles_from_layer2, layer2_has_richer_turns, merge_turn_into_bubble, parse_ai_sdk_blob,
    Layer2Turn,
};
use bettercursor::path_rewrite::{apply_path_mappings, rewrite_paths_in_data, rewrite_project_path};
use bettercursor::sync::patch_latest_root;
use sha2::{Digest, Sha256};

fn to_json(v: serde_json::Value) -> Json {
    match v {
        serde_json::Value::Null => Json::Null,
        serde_json::Value::Bool(b) => Json::Bool(b),
        serde_json::Value::Number(n) => Json::Number(if let Some(u) = n.as_u64() {
            JsonNumber::PosInt(u)
        } else if let Some(i) = n.as_i64() {
            JsonNumber::NegInt(i)
        } else {
            JsonNumber::Float(n.to_string())
        }),
        serde_json::Value::String(s) => Json::Str(s),
        serde_json::Value::Array(a) => Json::Array(a.into_iter().map(to_json).collect()),
        serde_json::Value::Object(m) => {
            Json::Object(m.into_iter().map(|(k, x)| (k, to_json(x))).collect())
        }
    }
}

fn j(text: &str) -> Json {
    to_json(serde_json::from_str(text).unwrap())
}

fn at<'a>(v: &'a Json, key: &str) -> &'a Json {
    v.get(key).unwrap_or_else(|| panic!("missing key {key}"))
}

fn nth(v: &Json, i: usize) -> &Json {
    &v.as_array().expect("array")[i]
}

fn bubble(id: &str, role: &str, text: &str) -> Bubble {
    Bubble {
        id: id.into(),
        role: role.into(),
        text: text.into(),
        tool_calls: vec![],
        files: vec![],
        images: vec![],
        created_at_ms: 0,
        parent_bubble_id: None,
    }
}

fn sha256_hex(data: &[u8]) -> String {
    hex_encode(&Sha256::digest(data))
}

fn protobuf_ref(hash_hex: &str) -> Vec<u8> {
    let hash = hex_decode(hash_hex).unwrap();
    assert_eq!(hash.len(), 32);
    let mut out = vec![0x0A, 32];
    out.extend_from_slice(&hash);
    out
}

// ── Sidebar, ids and composer defaults ─────────────────────────

#[test]
fn archive_composer_sidebar_entry_sets_archived_and_clears_title() {
    let uuid = "11111111-1111-1111-1111-111111111111";
    let mut root = j(&format!(
        r#"{{"allComposers":[
            {{"composerId":"{uuid}","name":"Hello test","subtitle":"user msg","isArchived":false}},
            {{"composerId":"other","name":"keep","isArchived":false}}
        ]}}"#
    ));
    assert!(archive_composer_sidebar_entry(&mut root, uuid));
    let entry = nth(at(&root, "allComposers"), 0);
    assert_eq!(at(entry, "isArchived").as_bool(), Some(true));
    assert_eq!(at(entry, "name").as_str(), Some(""));
    assert_eq!(at(entry, "subtitle").as_str(), Some(""));
    assert_eq!(at(nth(at(&root, "allComposers"), 1), "name").as_str(), Some("keep"));
    assert!(!archive_composer_sidebar_entry(&mut root, "missing"));
}

#[test]
fn inject_hex_round_trip() {
    let text = r#"{"hello":"world","n":42}"#;
    let v = j(text);
    let headers = j(r#"{"allComposers":[]}"#);
    let muts = layer3_mutations("u", &headers, &v, &vec![]);
    assert_eq!(muts.len(), 2);
    let h = muts[1].value_hex();
    let bytes = hex_decode(h).unwrap();
    let s = std::str::from_utf8(&bytes).unwrap();
    let back: serde_json::Value = serde_json::from_str(s).unwrap();
    let expected: serde_json::Value = serde_json::from_str(text).unwrap();
    assert_eq!(back, expected);
}

#[test]
fn deterministic_bubble_id_format() {
    let id = deterministic_bubble_id("abc", "user", 1000, 0);
    assert_eq!(id.len(), 36);
    assert_eq!(id.chars().filter(|c| *c == '-').count(), 4);
}

#[test]
fn bubble_id_distinct_per_ordinal_even_at_zero_ts() {
    let a = deterministic_bubble_id("u1", "assistant", 0, 0);
    let b = deterministic_bubble_id("u1", "assistant", 0, 1);
    assert_ne!(a, b, "ordinal tie-breaker failed");
}

#[test]
fn deterministic_bubble_id_is_stable() {
    assert_eq!(
        deterministic_bubble_id("abc", "user", 1000, 0),
        deterministic_bubble_id("abc", "user", 1000, 0)
    );
}

#[test]
fn default_composer_context_has_file_selections() {
    let ctx = default_composer_context();
    assert!(ctx.get("fileSelections").and_then(|x| x.as_array()).is_some());
    assert!(ctx.get("mentions").is_some());
}

#[test]
fn default_agent_composer_fields_has_object_maps() {
    let agent = default_agent_composer_fields();
    assert!(matches!(agent.get("conversationMap"), Some(Json::Object(_))));
    assert!(matches!(agent.get("codeBlockData"), Some(Json::Object(_))));
    assert!(matches!(agent.get("capabilities"), Some(Json::Array(_))));
}

#[test]
fn ensure_desktop_loadable_composer_fills_missing_agent_fields() {
    let mut composer = j(r#"{
        "composerId": "x",
        "context": {"fileSelections": []},
        "conversationState": "~abc",
        "lastUpdatedAt": 1,
        "fullConversationHeadersOnly": [{"bubbleId":"b","createdAt":"t","type":1}]
    }"#);
    assert!(!composer_is_desktop_loadable(&composer));
    ensure_desktop_loadable_composer(&mut composer);
    assert!(composer_is_desktop_loadable(&composer));
}

#[test]
fn ensure_desktop_loadable_composer_keeps_existing_values() {
    let mut composer = j(r#"{"composerId":"x","conversationMap":{"k":1}}"#);
    ensure_desktop_loadable_composer(&mut composer);
    assert_eq!(at(at(&composer, "conversationMap"), "k").as_u64(), Some(1));
}

#[test]
fn ms_to_iso_zero_returns_empty() {
    assert_eq!(ms_to_iso(0), "");
}

#[test]
fn ms_to_iso_formats_utc_millis() {
    assert_eq!(ms_to_iso(1_700_000_000_123), "2023-11-14T22:13:20.123Z");
}

#[test]
fn build_workspace_identifier_falls_back_to_md5() {
    let id = build_workspace_identifier("/tmp/nonexistent-workspace-12345", None)
        .expect("non-empty cwd");
    let id_str = id.get("id").and_then(|x| x.as_str()).unwrap_or("");
    assert_eq!(id_str.len(), 32, "expected 32-char hex, got {id_str:?}");
    assert!(id_str.chars().all(|c| c.is_ascii_hexdigit()), "expected hex digits only, got {id_str:?}");
}

#[test]
fn build_workspace_identifier_prefers_storage_id() {
    let id = build_workspace_identifier("/home/u/p", Some("b9c96f3499915796f28905f2e97f8164"))
        .expect("non-empty cwd");
    assert_eq!(id.get("id").and_then(|x| x.as_str()), Some("b9c96f3499915796f28905f2e97f8164"));
}

#[test]
fn build_workspace_identifier_empty_returns_none() {
    assert!(build_workspace_identifier("", None).is_none());
    assert!(build_workspace_identifier("   ", None).is_none());
}

// ── Layer 2 messages ───────────────────────────────────────────

#[test]
fn parse_ai_sdk_user_with_image_and_assistant_tools() {
    let user_json = r#"{"role":"user","content":[
        {"type":"text","text":"<user_query>hello</user_query>"},
        {"type":"image","image":{"__type":"Uint8Array","hex":"ffd8ffe000104a46494600010101006000600000"}}
    ]}"#;
    let asst_json = r#"{"role":"assistant","content":[
        {"type":"text","text":"full assistant reply"},
        {"type":"tool-call","toolName":"Grep","args":{"pattern":"*.rs"}}
    ]}"#;

    let user_msg = parse_ai_sdk_blob(user_json.as_bytes()).unwrap();
    assert_eq!(user_msg.role, "user");
    assert_eq!(user_msg.text, "<user_query>hello</user_query>");
    assert_eq!(user_msg.images.len(), 1);
    assert_eq!(user_msg.images[0].mime_type, "image/jpeg");

    let asst_msg = parse_ai_sdk_blob(asst_json.as_bytes()).unwrap();
    assert_eq!(asst_msg.role, "assistant");
    assert_eq!(asst_msg.text, "full assistant reply");
    assert_eq!(asst_msg.tool_calls.len(), 1);
    assert_eq!(asst_msg.tool_calls[0].name, "Grep");
}

#[test]
fn parse_skips_context_user_envelopes() {
    let ctx = r#"{"role":"user","content":[{"type":"text","text":"<open_and_recently_viewed_files>\nno files\n</open_and_recently_viewed_files>"}]}"#;
    let msg = parse_ai_sdk_blob(ctx.as_bytes()).unwrap();
    assert!(msg.is_context_envelope);

    let real = r#"{"role":"user","content":[{"type":"text","text":"<user_query>hello</user_query>"}]}"#;
    let msg = parse_ai_sdk_blob(real.as_bytes()).unwrap();
    assert!(!msg.is_context_envelope);
}

#[test]
fn parse_ai_sdk_blob_rejects_non_json() {
    assert!(parse_ai_sdk_blob(b"\x0a\x20binary").is_none());
    assert!(parse_ai_sdk_blob(b"").is_none());
}

#[test]
fn enrich_replaces_redacted_assistant_text() {
    let turn = Layer2Turn {
        role: "assistant".into(),
        text: "real answer".into(),
        tool_calls: vec![],
        images: vec![],
    };
    let mut partial = bubble("a1", "assistant", "opening paragraph\n\n[REDACTED]");
    merge_turn_into_bubble(&mut partial, &turn);
    assert_eq!(partial.text, "real answer");

    let mut pure = bubble("a2", "assistant", "[REDACTED]");
    let tool_turn = Layer2Turn {
        role: "assistant".into(),
        text: String::new(),
        tool_calls: vec![BubbleToolUse { name: "Grep".into(), input: None }],
        images: vec![],
    };
    merge_turn_into_bubble(&mut pure, &tool_turn);
    assert_eq!(pure.text, "");
    assert_eq!(pure.tool_calls.len(), 1);
}

#[test]
fn layer2_has_richer_false_after_tool_only_enrich_state() {
    let mut b = bubble("a1", "assistant", "");
    b.tool_calls = vec![BubbleToolUse { name: "Grep".into(), input: None }];
    let l3 = vec![b];
    let turns = vec![Layer2Turn {
        role: "assistant".into(),
        text: String::new(),
        tool_calls: vec![BubbleToolUse { name: "Grep".into(), input: None }],
        images: vec![],
    }];
    assert!(!l3[0].text.contains("[REDACTED]"));
    assert_eq!(turns.len(), 1);
    assert!(!layer2_has_richer_turns(&turns, &l3));
}

#[test]
fn layer2_has_richer_true_for_redacted_stub() {
    let l3 = vec![bubble("a1", "assistant", "[REDACTED]")];
    let turns = vec![Layer2Turn {
        role: "assistant".into(),
        text: "full".into(),
        tool_calls: vec![],
        images: vec![],
    }];
    assert!(layer2_has_richer_turns(&turns, &l3));
    let out = enrich_bubbles_from_layer2(&turns, &l3);
    assert_eq!(out[0].text, "full");
}

#[test]
fn enrich_pairs_turns_with_bubbles_of_the_same_role() {
    let l3 = vec![bubble("u1", "user", "question"), bubble("a1", "assistant", "[REDACTED]")];
    let turns = vec![Layer2Turn {
        role: "assistant".into(),
        text: "answer".into(),
        tool_calls: vec![],
        images: vec![],
    }];
    let out = enrich_bubbles_from_layer2(&turns, &l3);
    assert_eq!(out[0].text, "question");
    assert_eq!(out[1].text, "answer");
}

// ── Path rewriting ─────────────────────────────────────────────

#[test]
fn rewrite_paths_in_data_replaces_nested_strings() {
    let data = j(r#"{"workspace":{"path":"/Users/eric/proj/src/main.rs"},"conversationState":"/Users/eric/should-not-touch"}"#);
    let out = rewrite_paths_in_data(&data, "/Users/eric/proj", "/home/eric/proj");
    assert_eq!(at(at(&out, "workspace"), "path").as_str(), Some("/home/eric/proj/src/main.rs"));
    assert_eq!(at(&out, "conversationState").as_str(), Some("/Users/eric/should-not-touch"));
}

#[test]
fn apply_path_mappings_longest_prefix_wins() {
    let m = vec![
        ("/Users/eric".to_string(), "/home/eric".to_string()),
        ("/Users/eric/workspace".to_string(), "/home/eric/workspace".to_string()),
    ];
    let out = apply_path_mappings("/Users/eric/workspace/foo", &m).unwrap();
    assert_eq!(out, "/home/eric/workspace/foo");
}

#[test]
fn apply_path_mappings_none_without_match() {
    let m = vec![("/Users/eric".to_string(), "/home/eric".to_string())];
    assert!(apply_path_mappings("/opt/other", &m).is_none());
}

#[test]
fn rewrite_project_path_keeps_existing_local_path() {
    let local = "/home/someone/.bettercursor";
    assert_eq!(rewrite_project_path(local, &vec![], true, false, None), local);
}

// ── Layer 2 roots ──────────────────────────────────────────────

#[test]
fn extract_agent_blob_ids_from_conversation_state() {
    let payload = vec![0xAB; 32];
    let mut proto = vec![0x0A, 32];
    proto.extend_from_slice(&payload);
    let b64 = base64_encode(&proto);
    let conv = j(&format!(r#"{{"conversationState":"~{b64}"}}"#));
    let ids = extract_agent_blob_ids_from_composer(&conv);
    assert_eq!(ids.len(), 1);
    assert_eq!(ids[0], hex_encode(&payload));
}

#[test]
fn find_root_blob_simple_chain() {
    let c: Vec<u8> = vec![];
    let c_id = sha256_hex(&c);
    let b = protobuf_ref(&c_id);
    let b_id = sha256_hex(&b);
    let a = protobuf_ref(&b_id);
    let a_id = sha256_hex(&a);
    let rows = vec![(a_id.clone(), a), (b_id, b), (c_id, c)];
    let root = find_root_blob(&rows).expect("root");
    assert_eq!(root, a_id, "A (no incoming refs) should be the root");
}

#[test]
fn find_root_blob_none_when_empty() {
    assert!(find_root_blob(&vec![]).is_none());
}

#[test]
fn fix_latest_root_writes_meta_zero() {
    let c: Vec<u8> = vec![];
    let c_id = sha256_hex(&c);
    let a = protobuf_ref(&c_id);
    let a_id = sha256_hex(&a);
    let rows = vec![(a_id.clone(), a), (c_id, c)];
    let root = find_root_blob(&rows).expect("root");
    assert_eq!(root, a_id);
    let meta0 = j(r#"{"agentId":"x","latestRootBlobId":"","name":"y","mode":"default","isRunEverything":false,"createdAt":0}"#);
    let new_meta = patch_latest_root(meta0, &root).unwrap();
    assert_eq!(at(&new_meta, "latestRootBlobId").as_str(), Some(a_id.as_str()));
    assert_eq!(at(&new_meta, "name").as_str(), Some("y"));
}

#[test]
fn patch_latest_root_rejects_non_object() {
    assert!(patch_latest_root(Json::Null, "abc").is_err());
}

#[test]
fn merge_composer_headers_lists_the_session_once_and_last() {
    let entry = j(r#"{"composerId":"u1","name":"new"}"#);
    let existing = r#"{"allComposers":[{"composerId":"u1","name":"old"},{"composerId":"u2","name":"other"}],"selected":["u2"]}"#;
    let merged = merge_composer_headers("u1", &entry, Some(existing)).unwrap();
    let all = at(&merged, "allComposers").as_array().unwrap();
    assert_eq!(all.len(), 2);
    assert_eq!(at(&all[0], "composerId").as_str(), Some("u2"));
    assert_eq!(at(&all[1], "name").as_str(), Some("new"));
    assert!(merged.get("selected").is_some());
}

#[test]
fn merge_composer_headers_starts_fresh_without_stored_list() {
    let entry = j(r#"{"composerId":"u1"}"#);
    let merged = merge_composer_headers("u1", &entry, None).unwrap();
    assert_eq!(at(&merged, "allComposers").as_array().unwrap().len(), 1);
    let merged = merge_composer_headers("u1", &entry, Some("not json")).unwrap();
    assert_eq!(at(&merged, "allComposers").as_array().unwrap().len(), 1);
    assert!(merge_composer_headers("u1", &entry, Some(r#"{"allComposers":3}"#)).is_err());
}

#[test]
fn minimal_rich_text_escapes_the_text_as_json() {
    let r = bettercursor::compose::minimal_rich_text("say \"hi\"\n");
    assert!(r.contains(r#""text":"say \"hi\"\n","type":"text""#));
    assert!(r.starts_with(r#"{"root":{"children":[{"children":[{"detail":0"#));
}

#[test]
fn deterministic_bubble_id_has_guid_shape() {
    let id = deterministic_bubble_id("abc", "user", 1000, 0);
    for (k, c) in id.chars().enumerate() {
        if k == 8 || k == 13 || k == 18 || k == 23 {
            assert_eq!(c, '-');
        } else {
            assert!(c.is_ascii_digit() || ('a'..='f').contains(&c));
        }
    }
}

use bettercursor::bubble::Bubble;
use bettercursor::canonical::{
    get_resume_command, reverse_chat_root_via_workspace_storage, CanonicalSession, SourceInfo, Sources,
};
use bettercursor::json::Json;
use bettercursor::codec::hex_encode;
use bettercursor::conflict::content_hash_from_bubbles;
use bettercursor::discovery::{resolved_device, ServiceAddr};
use bettercursor::paths::chat_root_for;
use bettercursor::process::collect_pgrep_lines;
use bettercursor::snapshot::{check_snapshot_version, SessionSnapshot as SnapshotV4};
use bettercursor::storage::decode_store_meta_value;
use bettercursor::transport::config::PeerConfig;
use bettercursor::transport::snapshot_meta::SessionSnapshot;
use bettercursor::transport::ssh::{ssh_result, CommandOutcome, SshRsyncTransport};
use bettercursor::unified::{BubbleRow, SessionRow};
use bettercursor::watcher::dir_label;

fn minimal_canonical() -> CanonicalSession {
    CanonicalSession {
        uuid: "uuid-1234".into(),
        project_slug: "Users-eric-workspace-enenzuo".into(),
        project_path: "/Users/eric/workspace/enenzuo".into(),
        chat_root: String::new(),
        name: "session".into(),
        last_updated_at: 1_700_000_000_000,
        bubble_count: 7,
        is_empty_draft: false,
        is_broken: false,
        broken_reason: None,
        sources: Sources::new(),
        first_user_message_preview: String::new(),
        files_referenced: vec![],
        indexable_text: String::new(),
        layer_3_present: false,
        layer_3_needs_refresh: false,
        layer_2_needs_refresh: false,
        composer_data: None,
        composer_id: None,
        is_subagent: false,
        subagent_info: None,
        created_endpoint: None,
        created_at_ms: None,
    }
}

fn src(layer: &str, path: &str) -> Option<SourceInfo> {
    Some(SourceInfo { last_seen_at: 0, layer: layer.into(), path: path.into() })
}

fn bubble(id: &str, role: &str, text: &str, ts: i64) -> Bubble {
    Bubble {
        id: id.into(),
        role: role.into(),
        text: text.into(),
        tool_calls: vec![],
        files: vec![],
        images: vec![],
        created_at_ms: ts,
        parent_bubble_id: None,
    }
}

fn fake_peer() -> PeerConfig {
    PeerConfig {
        id: "test-peer".into(),
        kind: "ssh".into(),
        host: "fake-host".into(),
        port: 22,
        identity_file: "/tmp/fake-key".into(),
        remote_snap_dir: "/tmp/fake-snap".into(),
        remote_hostname: "fake-remote-host".into(),
    }
}

// ── Metadata snapshots ─────────────────────────────────────────

#[test]
fn from_canonical_maps_all_fields() {
    let mut c = minimal_canonical();
    c.first_user_message_preview = "hello world".into();
    c.sources.mac = Some(SourceInfo {
        last_seen_at: 1_700_000_000_000,
        layer: "3".into(),
        path: "/Users/eric/.cursor/projects/foo/transcript.jsonl".into(),
    });
    let snap = SessionSnapshot::from_canonical(&c, "macbook-pro");
    assert_eq!(snap.uuid, "uuid-1234");
    assert_eq!(snap.last_updated_at_ms, 1_700_000_000_000);
    assert_eq!(snap.host, "macbook-pro");
    assert_eq!(snap.project_slug, "Users-eric-workspace-enenzuo");
    assert_eq!(snap.project_path, "/Users/eric/workspace/enenzuo");
    assert_eq!(snap.source_path, "/Users/eric/.cursor/projects/foo/transcript.jsonl");
    assert_eq!(snap.text_preview, "hello world");
    assert_eq!(snap.bubble_count, 7);
}

#[test]
fn source_path_priority_order() {
    let mut c = minimal_canonical();
    c.sources.linux_cli = src("2", "/cli/store.db");
    c.sources.linux_desktop = src("3", "/desktop/state.vscdb");
    c.sources.mac = src("3", "/mac/state.vscdb");
    let snap = SessionSnapshot::from_canonical(&c, "h");
    assert_eq!(snap.source_path, "/mac/state.vscdb", "mac wins");

    let mut c2 = minimal_canonical();
    c2.sources.linux_cli = src("2", "/cli/store.db");
    c2.sources.linux_desktop = src("3", "/desktop/state.vscdb");
    let snap2 = SessionSnapshot::from_canonical(&c2, "h");
    assert_eq!(snap2.source_path, "/desktop/state.vscdb", "linux_desktop 2nd");

    let mut c3 = minimal_canonical();
    c3.sources.linux_cli = src("2", "/cli/store.db");
    let snap3 = SessionSnapshot::from_canonical(&c3, "h");
    assert_eq!(snap3.source_path, "/cli/store.db", "linux_cli last fallback");

    let c4 = minimal_canonical();
    let snap4 = SessionSnapshot::from_canonical(&c4, "h");
    assert_eq!(snap4.source_path, "");
}

#[test]
fn text_preview_truncates_to_280_chars() {
    let mut c = minimal_canonical();
    c.first_user_message_preview = "中".repeat(500);
    let snap = SessionSnapshot::from_canonical(&c, "h");
    assert_eq!(snap.text_preview.chars().count(), 280);
    assert!(snap.text_preview.is_char_boundary(snap.text_preview.len()));
    assert_eq!(snap.text_preview, "中".repeat(280));
}

#[test]
fn text_preview_passes_through_short_strings() {
    let mut c = minimal_canonical();
    c.first_user_message_preview = "short".into();
    let snap = SessionSnapshot::from_canonical(&c, "h");
    assert_eq!(snap.text_preview, "short");
}

#[test]
fn text_preview_handles_empty() {
    let c = minimal_canonical();
    let snap = SessionSnapshot::from_canonical(&c, "h");
    assert_eq!(snap.text_preview, "");
}

// ── Full snapshots ─────────────────────────────────────────────

#[test]
fn from_canonical_maps_ts_ms() {
    let mut session = minimal_canonical();
    session.composer_id = Some("uuid-v4".into());
    let bubbles = vec![bubble("b1", "assistant", "x", 42)];
    let snap = SnapshotV4::from_canonical_v4(&session, &bubbles, "h", 1, "linux", "u", None);
    assert_eq!(snap.bubbles[0].ts_ms, 42);
    assert_eq!(snap.version, 4);
    assert_eq!(snap.composer.composer_id, "uuid-v4");
}

#[test]
fn decode_rejects_wrong_version() {
    let bad = r#"{"version":3,"exported_at":1,"source_endpoint":{"host":"h","os":"linux","user":"u","endpoint_kind":"linux_cli"},"composer":{"composer_id":"x","last_updated_at":1,"project_path":"","project_slug":"","workspace_id":"","chat_root":""},"bubbles":[]}"#;
    let v: serde_json::Value = serde_json::from_str(bad).unwrap();
    let version = v["version"].as_u64().unwrap() as u32;
    assert!(check_snapshot_version(version).is_err());
    assert!(check_snapshot_version(4).is_ok());
}

#[test]
fn snapshot_bubbles_round_trip_to_canonical() {
    let session = minimal_canonical();
    let bubbles = vec![bubble("b1", "user", "hello", 1000)];
    let snap = SnapshotV4::from_canonical_v4(&session, &bubbles, "host-a", 7, "linux", "u", None);
    let back = snap.canonical_bubbles();
    assert_eq!(back.len(), 1);
    assert_eq!(back[0].id, "b1");
    assert_eq!(back[0].text, "hello");
    assert_eq!(back[0].created_at_ms, 1000);
}

#[test]
fn snapshot_content_hash_is_the_hash_of_its_bubbles() {
    let session = minimal_canonical();
    let bubbles = vec![bubble("b1", "user", "hello", 1000), bubble("a0", "assistant", "hi", 900)];
    let snap = SnapshotV4::from_canonical_v4(&session, &bubbles, "host-a", 7, "linux", "u", None);
    assert_eq!(snap.content_hash(), content_hash_from_bubbles(&bubbles));
    assert_eq!(snap.content_hash().len(), 64);
}

// ── unified.db rows ────────────────────────────────────────────

#[test]
fn content_hash_changes_when_text_changes() {
    let a = vec![bubble("b1", "user", "hello", 1), bubble("b2", "assistant", "world", 2)];
    let b = vec![bubble("b1", "user", "hello", 1), bubble("b2", "assistant", "world!", 2)];
    let h_a = content_hash_from_bubbles(&a);
    let h_b = content_hash_from_bubbles(&b);
    assert_ne!(h_a, h_b, "text edit must change content hash");
    let h_a2 = content_hash_from_bubbles(&a);
    assert_eq!(h_a, h_a2);
}

#[test]
fn session_row_from_canonical_maps_fields() {
    let mut c = minimal_canonical();
    c.sources.mac = src("3", "/mac/state.vscdb");
    c.sources.linux_cli = src("2", "/cli/store.db");
    let bubbles = vec![bubble("b1", "user", "hi", 1)];
    let row = SessionRow::from_canonical(&c, "h", &bubbles, "{}".into(), 99);
    assert_eq!(row.uuid, "uuid-1234");
    assert_eq!(row.endpoint_kind, "mac", "mac wins over linux_*");
    assert_eq!(row.source_path, "/mac/state.vscdb");
    assert_eq!(row.content_hash, content_hash_from_bubbles(&bubbles));
    assert_eq!(row.last_rebuilt_at_ms, 99);
}

#[test]
fn bubble_row_copies_bubble() {
    let b = bubble("b1", "user", "hi", 5);
    let row = BubbleRow::from_bubble("s", &b, None, Some("[]".into()));
    assert_eq!(row.id, "b1");
    assert_eq!(row.session_uuid, "s");
    assert_eq!(row.ts_ms, 5);
    assert_eq!(row.files_json.as_deref(), Some("[]"));
}

// ── Paths, storage, watcher, discovery ─────────────────────────

#[test]
fn chat_root_matches_python() {
    let root = chat_root_for("/home/eric/workspace/enenzuo");
    assert_eq!(root, "c19d07070edc77b1fdcdaf0dfecaf97f");
}

#[test]
fn decode_store_meta_value_parses_hex_json() {
    let meta = r#"{"agentId":"b766a3e8-e1ff-4ba8-9b7a-39873aceb6ee","name":"New Agent","subagentInfo":{"parentAgentId":"33de2d97-940e-4335-a4ab-1f1a5b63243c","rootParentAgentId":"33de2d97-940e-4335-a4ab-1f1a5b63243c","typeName":"generalPurpose"}}"#;
    let hex = hex_encode(meta.as_bytes());
    let v = decode_store_meta_value(hex.as_bytes()).expect("hex meta");
    assert!(v.get("subagentInfo").is_some());
}

#[test]
fn decode_store_meta_value_reads_raw_json_and_rejects_garbage() {
    let v = decode_store_meta_value(br#"{"name":"raw"}"#).expect("raw meta");
    assert_eq!(v.get_str("name").as_deref(), Some("raw"));
    assert!(decode_store_meta_value(b"zz-not-hex").is_none());
    assert!(decode_store_meta_value(b"").is_none());
}

#[test]
fn label_strips_home() {
    let label = dir_label("/home/eric/.cursor/projects", Some("/home/eric"));
    assert!(label.starts_with("~"));
    assert_eq!(label, "~/.cursor/projects");
    assert_eq!(dir_label("/opt/x", Some("/home/eric")), "/opt/x");
}

#[test]
fn resolved_device_uses_first_address_and_properties() {
    let addrs = vec![
        ServiceAddr { text: "127.0.0.1".into(), is_v4: true, is_loopback: true },
        ServiceAddr { text: "192.168.1.9".into(), is_v4: true, is_loopback: false },
    ];
    let device = resolved_device(
        &addrs,
        Some("dev-1".into()),
        Some("workstation".into()),
        "bettercursor-dev-1._bettercursor._tcp.local.",
        38472,
    )
    .unwrap();
    assert_eq!(device.device_id, "dev-1");
    assert_eq!(device.device_name, "workstation");
    assert_eq!(device.host, "192.168.1.9");
    assert_eq!(device.port, 38472);
}

#[test]
fn resolved_device_none_without_addresses() {
    assert!(resolved_device(&vec![], None, None, "x", 1).is_none());
}

// ── Processes and ssh ──────────────────────────────────────────

#[test]
fn pgrep_for_filters_empty_pattern() {
    let mut matches = Vec::new();
    collect_pgrep_lines("", "this_pattern_definitely_does_not_exist_zzzz", &mut matches);
    assert!(matches.is_empty(), "expected no matches, got {matches:?}");
}

#[test]
fn ssh_cmd_includes_safety_flags() {
    let t = SshRsyncTransport::new(fake_peer());
    let owned = t.ssh_args();
    let args: Vec<&str> = owned.iter().map(|s| s.as_str()).collect();
    assert!(args.windows(2).any(|w| w[0] == "-o" && w[1] == "BatchMode=yes"), "missing BatchMode=yes in: {args:?}");
    assert!(
        args.windows(2).any(|w| w[0] == "-o" && w[1] == "StrictHostKeyChecking=accept-new"),
        "missing StrictHostKeyChecking=accept-new in: {args:?}"
    );
    assert!(args.windows(2).any(|w| w[0] == "-i" && w[1] == "/tmp/fake-key"), "missing -i identity_file in: {args:?}");
    assert!(args.windows(2).any(|w| w[0] == "-p" && w[1] == "22"), "missing -p 22 in: {args:?}");
}

#[test]
fn push_ssh_failure_surfaces_stderr() {
    let outcome = CommandOutcome {
        started: true,
        success: false,
        status: "exit status: 1".into(),
        stdout: String::new(),
        stderr: String::new(),
    };
    let r = ssh_result(&"fake-host".to_string(), &outcome);
    assert!(r.is_err());
    let msg = r.unwrap_err();
    assert!(msg.contains("fake-host"), "error mentions peer host: {msg}");
    assert!(msg.contains("exited"), "error mentions exit status: {msg}");
}

#[test]
fn ssh_result_ok_on_success() {
    let outcome = CommandOutcome {
        started: true,
        success: true,
        status: "exit status: 0".into(),
        stdout: "ok".into(),
        stderr: String::new(),
    };
    assert!(ssh_result(&"h".to_string(), &outcome).is_ok());
}

#[test]
fn resume_command_depends_on_source() {
    assert_eq!(get_resume_command("u-1", "linux_cli"), "cursor-agent --resume u-1");
    assert_eq!(get_resume_command("u-1", "mac"), "open -a Cursor --args --resume u-1");
    assert_eq!(get_resume_command("u-1", "linux_desktop"), "open -a Cursor --args --resume u-1");
}

#[test]
fn reverse_chat_root_finds_workspace_by_folder_md5() {
    let ws = |folder: &str| Some(Json::Object(vec![("folder".to_string(), Json::Str(folder.to_string()))]));
    let dirs = vec![
        ("aaa".to_string(), ws("file:///home/eric/other")),
        ("bbb".to_string(), None),
        ("ccc".to_string(), ws("file:///home/eric/workspace/enenzuo/")),
    ];
    assert_eq!(
        reverse_chat_root_via_workspace_storage("c19d07070edc77b1fdcdaf0dfecaf97f", &dirs).as_deref(),
        Some("ccc")
    );
    assert!(reverse_chat_root_via_workspace_storage("0000", &dirs).is_none());
}

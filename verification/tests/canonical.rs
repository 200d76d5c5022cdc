use bettercursor::canonical::{
    merge_layer3_item, merge_source, CanonicalSession, ComposerData, SessionIndex, SourceInfo, SourceLayer, Sources,
};
use bettercursor::json::{Json, JsonNumber};
use bettercursor::session_origin::{infer_created_endpoint, read_l3_created_at_ms};

fn info(mtime: i64) -> SourceInfo {
    SourceInfo { last_seen_at: mtime, layer: "3".into(), path: "state.vscdb".into() }
}

#[test]
fn layer3_last_updated_at_uses_json_field_not_mtime() {
    let mut by_uuid = SessionIndex::new();
    let mtime = 1_700_000_000_000_i64;
    let a_updated = 1_700_000_500_000_i64;
    let b_updated = 1_700_000_100_000_i64;
    let a_created = 1_699_999_000_000_i64;
    let b_created = 1_699_998_500_000_i64;
    merge_source(
        &mut by_uuid,
        "uuid-a",
        info(mtime),
        SourceLayer::LinuxDesktop,
        "no-workspace",
        "A".into(),
        a_updated.max(a_created),
        String::new(),
    );
    merge_source(
        &mut by_uuid,
        "uuid-b",
        info(mtime),
        SourceLayer::LinuxDesktop,
        "no-workspace",
        "B".into(),
        b_updated.max(b_created),
        String::new(),
    );
    let a = by_uuid.get("uuid-a").unwrap();
    let b = by_uuid.get("uuid-b").unwrap();
    assert_eq!(a.last_updated_at, a_updated, "A must keep its JSON lastUpdatedAt");
    assert_eq!(b.last_updated_at, b_updated, "B must keep its JSON lastUpdatedAt");
    assert!(a.last_updated_at > b.last_updated_at);
    assert_ne!(a.last_updated_at, b.last_updated_at);
}

#[test]
fn layer3_last_updated_at_falls_back_to_created_at() {
    let mut by_uuid = SessionIndex::new();
    let mtime = 1_700_000_000_000_i64;
    let created = 1_699_999_000_000_i64;
    merge_source(
        &mut by_uuid,
        "uuid-x",
        info(mtime),
        SourceLayer::LinuxDesktop,
        "no-workspace",
        "X".into(),
        0_i64.max(created),
        String::new(),
    );
    let x = by_uuid.get("uuid-x").unwrap();
    assert_eq!(x.last_updated_at, created);
    assert_ne!(x.last_updated_at, mtime, "must NOT fall back to global mtime");
}

#[test]
fn sources_preferred_helpers_four_cases() {
    let none = Sources::new();
    assert_eq!(none.preferred_endpoint_kind(), "unknown");
    assert_eq!(none.preferred_source_path(), "");

    let mac_only = Sources {
        mac: Some(SourceInfo { last_seen_at: 1, layer: "3".into(), path: "/m".into() }),
        linux_cli: None,
        linux_desktop: None,
    };
    assert_eq!(mac_only.preferred_endpoint_kind(), "mac");
    assert_eq!(mac_only.preferred_source_path(), "/m");

    let ld_only = Sources {
        mac: None,
        linux_cli: None,
        linux_desktop: Some(SourceInfo { last_seen_at: 1, layer: "3".into(), path: "/ld".into() }),
    };
    assert_eq!(ld_only.preferred_endpoint_kind(), "linux_desktop");
    assert_eq!(ld_only.preferred_source_path(), "/ld");

    let lc_only = Sources {
        mac: None,
        linux_cli: Some(SourceInfo { last_seen_at: 1, layer: "2".into(), path: "/lc".into() }),
        linux_desktop: None,
    };
    assert_eq!(lc_only.preferred_endpoint_kind(), "linux_cli");
    assert_eq!(lc_only.preferred_source_path(), "/lc");

    assert_eq!(SourceLayer::Mac, SourceLayer::Mac);
}

fn obj(entries: Vec<(&str, Json)>) -> Json {
    Json::Object(entries.into_iter().map(|(k, v)| (k.to_string(), v)).collect())
}

fn num(n: u64) -> Json {
    Json::Number(JsonNumber::PosInt(n))
}

fn sess(uuid: &str, cli: bool, desktop: bool) -> CanonicalSession {
    let mut sources = Sources::new();
    if cli {
        sources.linux_cli =
            Some(SourceInfo { last_seen_at: 0, layer: "2".into(), path: "/tmp/store.db".into() });
    }
    if desktop {
        sources.linux_desktop =
            Some(SourceInfo { last_seen_at: 0, layer: "3".into(), path: "/tmp/state.vscdb".into() });
    }
    CanonicalSession {
        uuid: uuid.into(),
        project_slug: "p".into(),
        project_path: "/home/u/proj".into(),
        chat_root: String::new(),
        name: "t".into(),
        last_updated_at: 1000,
        bubble_count: 1,
        is_empty_draft: false,
        is_broken: false,
        broken_reason: None,
        sources,
        first_user_message_preview: String::new(),
        files_referenced: vec![],
        indexable_text: String::new(),
        layer_3_present: desktop,
        layer_3_needs_refresh: false,
        layer_2_needs_refresh: false,
        composer_data: if desktop {
            Some(ComposerData {
                full_json: r#"{"createdAt":2000,"lastUpdatedAt":3000}"#.into(),
                subset_json: String::new(),
            })
        } else {
            None
        },
        composer_id: None,
        is_subagent: false,
        subagent_info: None,
        created_endpoint: None,
        created_at_ms: None,
    }
}

#[test]
fn infer_cli_only() {
    let s = sess("u1", true, false);
    let (ep, ms) = infer_created_endpoint(&s, None, read_l3_created_at_ms(None), false).unwrap();
    assert_eq!(ep, SourceLayer::LinuxCli);
    assert_eq!(ms, 1000);
}

#[test]
fn infer_desktop_only_uses_composer_created_at() {
    let s = sess("u2", false, true);
    // The session's composerData: {"createdAt":2000,"lastUpdatedAt":3000}.
    let composer = obj(vec![("createdAt", num(2000)), ("lastUpdatedAt", num(3000))]);
    let l3 = read_l3_created_at_ms(Some(&composer));
    let (ep, ms) = infer_created_endpoint(&s, None, l3, false).unwrap();
    assert_eq!(ep, SourceLayer::LinuxDesktop);
    assert_eq!(ms, 2000);
}

#[test]
fn infer_dual_earlier_l3_is_desktop() {
    let mut s = sess("u3", true, true);
    s.composer_data =
        Some(ComposerData { full_json: r#"{"createdAt":500}"#.into(), subset_json: String::new() });
    s.last_updated_at = 900;
    let composer = obj(vec![("createdAt", num(500))]);
    let l3 = read_l3_created_at_ms(Some(&composer));
    // No Layer 2 store.db: its creation time is unknown.
    let (ep, ms) = infer_created_endpoint(&s, None, l3, false).unwrap();
    assert_eq!(ep, SourceLayer::LinuxDesktop);
    assert_eq!(ms, 500);
}

#[test]
fn layer3_row_keeps_its_compact_json() {
    let mut by_uuid = SessionIndex::new();
    let row = bettercursor::storage::item_json(r#"{ "name" : "Chat", "createdAt" : 5 }"#).unwrap();
    merge_layer3_item(&mut by_uuid, "uuid-z", &row, "/tmp/state.vscdb", 9, false);
    let z = by_uuid.get("uuid-z").unwrap();
    assert_eq!(z.name, "Chat");
    assert!(z.layer_3_present);
    let data = z.composer_data.as_ref().unwrap();
    assert_eq!(data.full_json, r#"{"createdAt":5,"name":"Chat"}"#);
    assert_eq!(data.subset_json, data.full_json);
}

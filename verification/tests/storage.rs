use bettercursor::bubble::Bubble;
use bettercursor::codec::hex_encode;
use bettercursor::json::Json;
use bettercursor::storage::item_json;
use bettercursor::sync::{layer2_blobs, layer2_meta_hex, patched_meta_hex, root_read_of_meta, RootRead};

fn user_bubble(text: &str, ts: i64) -> Bubble {
    Bubble {
        id: "b1".into(),
        role: "user".into(),
        text: text.into(),
        tool_calls: vec![],
        files: vec![],
        images: vec![],
        created_at_ms: ts,
        parent_bubble_id: None,
    }
}

#[test]
fn item_json_reads_an_object() {
    let v = item_json(r#"{"name":"chat","createdAt":12}"#).expect("valid JSON");
    assert_eq!(v.get_str("name").as_deref(), Some("chat"));
    assert_eq!(v.get_i64("createdAt"), Some(12));
}

#[test]
fn item_json_refuses_text_that_is_no_json() {
    assert!(item_json("{not json").is_none());
    assert!(item_json("").is_none());
}

#[test]
fn root_read_of_meta_finds_the_root_id() {
    let hex = hex_encode(br#"{"agentId":"u","latestRootBlobId":"abc"}"#);
    assert!(matches!(root_read_of_meta(&hex), RootRead::Present(s) if s == "abc"));
}

#[test]
fn root_read_of_meta_reports_an_empty_root_id() {
    let hex = hex_encode(br#"{"latestRootBlobId":""}"#);
    assert!(matches!(root_read_of_meta(&hex), RootRead::Present(s) if s.is_empty()));
}

#[test]
fn root_read_of_meta_without_a_string_id_is_missing() {
    assert!(matches!(root_read_of_meta(&hex_encode(br#"{"agentId":"u"}"#)), RootRead::Missing));
    assert!(matches!(root_read_of_meta(&hex_encode(br#"{"latestRootBlobId":3}"#)), RootRead::Missing));
}

#[test]
fn root_read_of_meta_fails_on_odd_length_hex() {
    assert!(matches!(root_read_of_meta("abc"), RootRead::Failed(m) if m == "odd-length hex string"));
}

#[test]
fn root_read_of_meta_fails_on_a_non_hex_byte() {
    assert!(matches!(root_read_of_meta("zz"), RootRead::Failed(m) if m == "invalid hex char: 122"));
}

#[test]
fn root_read_of_meta_fails_on_bytes_that_are_no_json() {
    let hex = hex_encode(b"not json");
    assert!(matches!(root_read_of_meta(&hex), RootRead::Failed(m) if m == "meta[0] is not valid JSON"));
}

#[test]
fn patched_meta_hex_sets_the_root_id() {
    let hex = hex_encode(br#"{"agentId":"u","latestRootBlobId":""}"#);
    let patched = patched_meta_hex(&hex, "r00t").expect("patchable");
    assert_eq!(patched, hex_encode(br#"{"agentId":"u","latestRootBlobId":"r00t"}"#));
    assert!(matches!(root_read_of_meta(&patched), RootRead::Present(s) if s == "r00t"));
}

#[test]
fn patched_meta_hex_refuses_what_it_cannot_patch() {
    assert_eq!(patched_meta_hex("abc", "r").unwrap_err(), "odd-length hex string");
    assert_eq!(patched_meta_hex(&hex_encode(b"{"), "r").unwrap_err(), "meta[0] is not valid JSON");
    assert_eq!(patched_meta_hex(&hex_encode(b"[1]"), "r").unwrap_err(), "meta[0] is not a JSON object");
}

#[test]
fn layer2_meta_hex_is_the_hex_of_the_compact_row() {
    let expected = hex_encode(
        br#"{"agentId":"u1","createdAt":5,"isRunEverything":false,"latestRootBlobId":"","mode":"default","name":"n"}"#,
    );
    assert_eq!(layer2_meta_hex("u1", "n", "default", false, 5), expected);
}

#[test]
fn layer2_blobs_store_each_bubble_as_compact_json() {
    let blobs = layer2_blobs(&None, &[user_bubble("hi", 7)]);
    assert_eq!(blobs.len(), 2);
    assert_eq!(blobs[0].1, br#"{"createdAt":7,"role":"user","text":"hi"}"#.to_vec());
    assert_eq!(blobs[0].0, "454a55afc91968b570505c9d41abe5772a86a2e3090bb7d66c6a77c0db5b52ae");
    let mut root = vec![0x0A, 32];
    root.extend_from_slice(&bettercursor::codec::hex_decode(&blobs[0].0).unwrap());
    assert_eq!(blobs[1].1, root);
}

#[test]
fn item_json_keeps_nested_values() {
    let v = item_json(r#"{"a":[1,-2,"x",null,true]}"#).expect("valid JSON");
    match v.get_array("a") {
        Some(items) => {
            assert_eq!(items.len(), 5);
            assert!(matches!(items[3], Json::Null));
        }
        None => panic!("array expected"),
    }
}

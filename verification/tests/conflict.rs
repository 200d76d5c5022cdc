use bettercursor::bubble::Bubble;
use bettercursor::conflict::{auto_merge, bubble_diff, classify, content_hash_from_bubbles, ConflictClass};
use bettercursor::transport_pull::conflict_class_label;

fn bubble(id: &str, text: &str, ts: i64) -> Bubble {
    Bubble {
        id: id.into(),
        role: "user".into(),
        text: text.into(),
        tool_calls: vec![],
        files: vec![],
        images: vec![],
        created_at_ms: ts,
        parent_bubble_id: None,
    }
}

#[test]
fn classify_table_new() {
    assert_eq!(classify(None, 0, "abc", 100), ConflictClass::New);
}

#[test]
fn classify_table_identical() {
    assert_eq!(classify(Some("h"), 100, "h", 50), ConflictClass::Identical);
}

#[test]
fn classify_table_incoming_newer() {
    assert_eq!(classify(Some("a"), 100, "b", 200), ConflictClass::IncomingNewer);
}

#[test]
fn classify_table_local_ahead() {
    assert_eq!(classify(Some("a"), 300, "b", 100), ConflictClass::LocalAhead);
}

#[test]
fn classify_table_diverged() {
    assert_eq!(classify(Some("a"), 100, "b", 100), ConflictClass::Diverged);
}

#[test]
fn bubble_diff_added_removed_modified() {
    let local = vec![bubble("a", "one", 1), bubble("b", "two", 2)];
    let incoming = vec![bubble("a", "one-changed", 1), bubble("c", "three", 3)];
    let d = bubble_diff(&local, &incoming);
    assert_eq!(d.added, vec!["c"]);
    assert_eq!(d.removed, vec!["b"]);
    assert_eq!(d.modified, vec!["a"]);
}

#[test]
fn content_hash_deterministic() {
    let b = vec![bubble("x", "hi", 1)];
    assert_eq!(content_hash_from_bubbles(&b), content_hash_from_bubbles(&b));
}

#[test]
fn auto_merge_incoming_wins_overlap() {
    let local = vec![bubble("a", "local", 1)];
    let incoming = vec![bubble("a", "incoming", 1), bubble("b", "new", 2)];
    let merged = auto_merge(&local, &incoming);
    assert_eq!(merged.len(), 2);
    assert!(merged.iter().any(|b| b.id == "a" && b.text == "incoming"));
}

#[test]
fn auto_merge_sorts_by_time_then_id() {
    let local = vec![bubble("z", "late", 5), bubble("b", "tie", 2)];
    let incoming = vec![bubble("a", "tie", 2), bubble("m", "early", 1)];
    let merged = auto_merge(&local, &incoming);
    let ids: Vec<&str> = merged.iter().map(|b| b.id.as_str()).collect();
    assert_eq!(ids, vec!["m", "a", "b", "z"]);
}

#[test]
fn auto_merge_keeps_local_only_bubbles() {
    let local = vec![bubble("a", "kept", 1)];
    let merged = auto_merge(&local, &[]);
    assert_eq!(merged.len(), 1);
    assert_eq!(merged[0].text, "kept");
}

#[test]
fn content_hash_is_lowercase_sha256_hex() {
    let h = content_hash_from_bubbles(&[bubble("x", "hi", 1)]);
    assert_eq!(h.len(), 64);
    assert!(h.chars().all(|c| c.is_ascii_hexdigit() && !c.is_ascii_uppercase()));
}

#[test]
fn content_hash_ignores_input_order() {
    let a = vec![bubble("x", "hi", 1), bubble("y", "there", 2)];
    let b = vec![bubble("y", "there", 2), bubble("x", "hi", 1)];
    assert_eq!(content_hash_from_bubbles(&a), content_hash_from_bubbles(&b));
}

#[test]
fn conflict_class_label_round_trip() {
    assert_eq!(conflict_class_label(ConflictClass::Identical), "identical");
}

#[test]
fn conflict_class_labels_are_snake_case() {
    assert_eq!(conflict_class_label(ConflictClass::New), "new");
    assert_eq!(conflict_class_label(ConflictClass::IncomingNewer), "incoming_newer");
    assert_eq!(conflict_class_label(ConflictClass::LocalAhead), "local_ahead");
    assert_eq!(conflict_class_label(ConflictClass::Diverged), "diverged");
    assert_eq!(ConflictClass::IncomingNewer.as_str(), "IncomingNewer");
}

#[test]
fn bubble_diff_of_a_conversation_with_itself_is_empty() {
    let s = vec![bubble("a", "one", 1), bubble("b", "two", 2)];
    let d = bubble_diff(&s, &s);
    assert!(d.added.is_empty());
    assert!(d.removed.is_empty());
    assert!(d.modified.is_empty());
}

#[test]
fn content_hash_of_one_bubble_is_sha256_of_its_compact_json() {
    // SHA-256 of `[{"id":"x","role":"user","text":"hi","ts":1}]`.
    assert_eq!(
        content_hash_from_bubbles(&[bubble("x", "hi", 1)]),
        "18c04bfe99ace63ee755bfbab66f37f4ad7989be306d5463304b4dc063459a31"
    );
}

#[test]
fn content_hash_ignores_tool_calls_and_files() {
    let plain = vec![bubble("x", "hi", 1)];
    let mut decorated = plain.clone();
    decorated[0].files.push("src/main.rs".into());
    decorated[0].parent_bubble_id = Some("p".into());
    assert_eq!(content_hash_from_bubbles(&plain), content_hash_from_bubbles(&decorated));
}

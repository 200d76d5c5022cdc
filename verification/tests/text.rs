use bettercursor::inject::truncate_to_title;
use bettercursor::paths::sanitize_project_path;
use bettercursor::text::str_contains;

#[test]
fn truncate_to_title_handles_cjk() {
    let s = "中".repeat(80);
    let t = truncate_to_title(&s);
    assert!(t.chars().count() <= 60);
    assert!(t.ends_with('…') || t.chars().count() <= 57);
}

#[test]
fn sanitize_strips_slashes() {
    assert_eq!(sanitize_project_path("/Users/x/y"), "Users-x-y");
    assert_eq!(sanitize_project_path("a/b/c"), "a-b-c");
}

#[test]
fn bubble_text_contains_redacted_marker() {
    assert!(str_contains("hello\n\n[REDACTED]", "[REDACTED]"));
    assert!(!str_contains(&String::new(), "[REDACTED]"));
}

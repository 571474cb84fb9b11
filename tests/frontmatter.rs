use obsidian_notes::frontmatter::{
    format_with_frontmatter, parse_frontmatter, update_properties, with_updated_properties, Metadata,
};
use obsidian_notes::notes::{compose_note, ensure_md_extension, WriteMode};
use serde_json::Value;

fn meta(pairs: &[(&str, Value)]) -> Metadata {
    let mut m = Metadata::new();
    for (k, v) in pairs {
        m.insert(k.to_string(), v.clone());
    }
    m
}

#[test]
fn split_document_with_metadata() {
    let (fm, body) = parse_frontmatter("---\ntitle: Hello\ntags:\n  - a\n---\n\nBody\n");
    let fm = fm.unwrap();
    assert_eq!(fm.get("title"), Some(&Value::from("Hello")));
    assert_eq!(fm.get("tags"), Some(&Value::from(vec!["a"])));
    assert_eq!(body, "Body\n");
}

#[test]
fn documents_without_metadata_are_all_body() {
    let (fm, body) = parse_frontmatter("Just text");
    assert!(fm.is_none());
    assert_eq!(body, "Just text");
    let unclosed = "---\ntitle: x\nno end";
    let (fm, body) = parse_frontmatter(unclosed);
    assert!(fm.is_none());
    assert_eq!(body, unclosed);
    let not_mapping = "---\n- a\n- b\n---\nbody";
    let (fm, body) = parse_frontmatter(not_mapping);
    assert!(fm.is_none());
    assert_eq!(body, not_mapping);
}

#[test]
fn metadata_round_trip() {
    let m = meta(&[("title", Value::from("Note")), ("count", Value::from(3))]);
    let text = format_with_frontmatter("Line one\n\nLine two", Some(&m));
    assert!(text.starts_with("---\n"));
    assert!(text.contains("\n---\n\nLine one"));
    let (fm, body) = parse_frontmatter(&text);
    assert_eq!(fm, Some(m));
    assert_eq!(body, "Line one\n\nLine two");
    assert_eq!(format_with_frontmatter("plain", None), "plain");
}

#[test]
fn upserts_then_removals() {
    let existing = meta(&[("a", Value::from(1)), ("b", Value::from(2))]);
    let upserts = meta(&[("b", Value::from(3)), ("c", Value::from(4))]);
    let removals = vec!["a".to_string()];
    let out = update_properties(Some(existing), Some(&upserts), Some(&removals));
    assert_eq!(out, meta(&[("b", Value::from(3)), ("c", Value::from(4))]));
}

#[test]
fn update_without_existing_metadata() {
    let removals = vec!["zzz".to_string()];
    let upserts = meta(&[("k", Value::from(true))]);
    let out = update_properties(None, Some(&upserts), Some(&removals));
    assert_eq!(out, upserts);
    assert_eq!(update_properties(None, None, None), Metadata::new());
}

#[test]
fn compose_modes() {
    let old = "---\na: 1\n---\n\nold body";
    let new_meta = meta(&[("b", Value::from(2))]);
    let appended = compose_note(Some(old), "new", Some(&new_meta), WriteMode::Append);
    assert_eq!(appended, "---\na: 1\nb: 2\n---\n\nold body\nnew");
    let prepended = compose_note(Some(old), "new", None, WriteMode::Prepend);
    assert_eq!(prepended, "---\na: 1\n---\n\nnew\nold body");
    let kept = compose_note(Some(old), "new", None, WriteMode::KeepBody);
    assert_eq!(kept, "---\na: 1\n---\n\nold body");
    let over = compose_note(Some(old), "new", None, WriteMode::Overwrite);
    assert_eq!(over, "new");
    assert_eq!(compose_note(None, "fresh", None, WriteMode::Append), "fresh");
    assert_eq!(WriteMode::from_name("append"), WriteMode::Append);
    assert_eq!(WriteMode::from_name("prepend"), WriteMode::Prepend);
    assert_eq!(WriteMode::from_name("overwrite"), WriteMode::Overwrite);
    assert_eq!(WriteMode::from_name("other"), WriteMode::KeepBody);
}

#[test]
fn md_extension() {
    assert_eq!(ensure_md_extension("notes/today"), "notes/today.md");
    assert_eq!(ensure_md_extension("today.md"), "today.md");
    assert_eq!(ensure_md_extension("md"), "md.md");
}

#[test]
fn property_update_keeps_body() {
    let note = "---\na: 1\nb: 2\n---\n\n# Title\nbody text\n";
    let upserts = meta(&[("c", Value::from("x"))]);
    let removals = vec!["a".to_string()];
    let out = with_updated_properties(note, Some(&upserts), Some(&removals));
    assert_eq!(out, "---\nb: 2\nc: x\n---\n\n# Title\nbody text\n");
    let (fm, body) = parse_frontmatter(&out);
    assert_eq!(fm, Some(meta(&[("b", Value::from(2)), ("c", Value::from("x"))])));
    assert_eq!(body, "# Title\nbody text\n");
    let plain = with_updated_properties("just body", Some(&upserts), None);
    assert_eq!(plain, "---\nc: x\n---\n\njust body");
}

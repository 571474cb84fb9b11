use obsidian_notes::commands::{parse_key_value_pairs, parse_template_vars};
use obsidian_notes::daily::{daily_note_candidates, parse_date_at};
use obsidian_notes::datetime::LocalDateTime;
use obsidian_notes::frontmatter::{parse_frontmatter, Metadata};
use obsidian_notes::vault::{names_match, note_tags, related_terms, search_note, shares_tag, wikilinks, SearchScope};
use serde_json::Value;

#[test]
fn template_vars_from_pairs() {
    let vars = parse_template_vars(Some(vec![
        "title=Hello=World".to_string(),
        "skip".to_string(),
        "n=1".to_string(),
        "n=2".to_string(),
    ]));
    assert_eq!(vars.len(), 2);
    assert_eq!(vars.get("title").map(|s| s.as_str()), Some("Hello=World"));
    assert_eq!(vars.get("n").map(|s| s.as_str()), Some("2"));
    assert!(parse_template_vars(None).is_empty());
}

#[test]
fn property_values_from_pairs() {
    let m = parse_key_value_pairs(vec![
        "count=42".to_string(),
        "flag= true".to_string(),
        "list=[daily, note, ]".to_string(),
        "csv=a, b".to_string(),
        "name=plain text".to_string(),
        "json=[\"x\",\"y\"]".to_string(),
        "novalue".to_string(),
    ]);
    assert_eq!(m.len(), 6);
    assert_eq!(m.get("count"), Some(&Value::from(42)));
    assert_eq!(m.get("flag"), Some(&Value::from(true)));
    assert_eq!(m.get("list"), Some(&Value::from(vec!["daily", "note"])));
    assert_eq!(m.get("csv"), Some(&Value::from(vec!["a", "b"])));
    assert_eq!(m.get("name"), Some(&Value::from("plain text")));
    assert_eq!(m.get("json"), Some(&Value::from(vec!["x", "y"])));
}

#[test]
fn search_scopes() {
    let default = SearchScope::from_names(None);
    assert!(default.content && default.filename && !default.tags);
    let names = vec!["tags".to_string()];
    let only_tags = SearchScope::from_names(Some(&names));
    assert!(only_tags.tags && !only_tags.content && !only_tags.filename);
}

#[test]
fn search_hits_in_order_of_kind() {
    let all = SearchScope { content: true, filename: true, tags: true };
    let hit = search_note("notes/rust.md", Some("text"), "rust", all).unwrap();
    assert_eq!(hit.path, "notes/rust.md");
    assert_eq!(hit.match_preview.as_deref(), Some("Filename match: notes/rust.md"));

    let note = "---\ntags:\n- rust\n- verus\n---\nbody about rust";
    let hit = search_note("a.md", Some(note), "verus", all).unwrap();
    assert_eq!(hit.match_preview.as_deref(), Some("Tag match: [\"rust\",\"verus\"]"));

    let hit = search_note("a.md", Some("hello world"), "world", all).unwrap();
    assert_eq!(hit.match_preview.as_deref(), Some("hello world"));
    assert!(search_note("a.md", Some("hello"), "absent", all).is_none());
    assert!(search_note("a.md", None, "hello", all).is_none());
}

#[test]
fn search_preview_is_a_window() {
    let scope = SearchScope { content: true, filename: false, tags: false };
    let text = format!("{}NEEDLE{}", "a".repeat(60), "b".repeat(60));
    let hit = search_note("x.md", Some(&text), "NEEDLE", scope).unwrap();
    assert_eq!(hit.match_preview, Some(format!("{}NEEDLE{}", "a".repeat(50), "b".repeat(50))));
}

#[test]
fn links_and_tags_relate_notes() {
    assert_eq!(wikilinks("see [[Alpha]] and [[Beta|b]] not [[]] or [x]"), vec!["Alpha", "Beta|b"]);
    let (fm, body) = parse_frontmatter("---\ntags: [one, two]\n---\nLinks to [[Gamma]]");
    assert_eq!(note_tags(fm.as_ref()), vec!["one", "two"]);
    assert_eq!(related_terms(fm.as_ref(), &body, None), vec!["one", "two", "Gamma"]);
    let only_links = vec!["links".to_string()];
    assert_eq!(related_terms(fm.as_ref(), &body, Some(&only_links)), vec!["Gamma"]);
    let mut not_list = Metadata::new();
    not_list.insert("tags".to_string(), Value::from(3));
    assert!(note_tags(Some(&not_list)).is_empty());
    assert!(names_match("dir/Gamma.md", Some("Gamma"), "Gamma"));
    assert!(!names_match("dir/x.md", Some("x"), "Gamma"));
    assert!(shares_tag("---\ntags: [one]\n---\nx", "one"));
    assert!(!shares_tag("no metadata", "one"));
}

#[test]
fn daily_note_dates() {
    let today = LocalDateTime::new(2024, 3, 1, 9, 30, 0).unwrap();
    let yesterday = parse_date_at(Some("yesterday"), today).unwrap();
    assert_eq!((yesterday.year, yesterday.month, yesterday.day), (2024, 2, 29));
    let tomorrow = parse_date_at(Some("tomorrow"), today).unwrap();
    assert_eq!((tomorrow.year, tomorrow.month, tomorrow.day), (2024, 3, 2));
    assert_eq!(parse_date_at(None, today), Some(today));
    assert_eq!(parse_date_at(Some("today"), today), Some(today));
    let given = parse_date_at(Some("2023-12-25"), today).unwrap();
    assert_eq!((given.year, given.month, given.day, given.hour), (2023, 12, 25, 0));
    assert_eq!(parse_date_at(Some("25/12/2023"), today), None);
    assert_eq!(
        daily_note_candidates(given),
        vec!["2023-12-25.md", "daily/2023-12-25.md", "Daily Notes/2023-12-25.md", "daily/2023-12-25.md"]
    );
}

use obsidian_notes::replace::{normalize_newlines, replace_text};
use obsidian_notes::section::EditError;

#[test]
fn first_or_every_occurrence() {
    assert_eq!(replace_text("ab ab ab", "ab", "X", false), Ok("X ab ab".to_string()));
    assert_eq!(replace_text("ab ab ab", "ab", "X", true), Ok("X X X".to_string()));
    assert_eq!(replace_text("abc", "zz", "y", true), Err(EditError::TargetNotFound));
    assert_eq!(replace_text("abc", "zz", "y", false), Err(EditError::TargetNotFound));
}

#[test]
fn pattern_characters_are_literal() {
    assert_eq!(replace_text("a.c abc", "a.c", "-", true), Ok("- abc".to_string()));
    assert_eq!(replace_text("x(1)+[2]", "(1)+", "$1", true), Ok("x$1[2]".to_string()));
}

#[test]
fn occurrences_do_not_overlap() {
    assert_eq!(replace_text("aaa", "aa", "b", true), Ok("ba".to_string()));
}

#[test]
fn empty_target_matches_between_characters() {
    assert_eq!(replace_text("ab", "", "-", true), Ok("-a-b-".to_string()));
    assert_eq!(replace_text("ab", "", "-", false), Ok("-ab".to_string()));
}

#[test]
fn escaped_newlines() {
    assert_eq!(normalize_newlines("a\\nb\\\\n"), "a\nb\\\n");
}

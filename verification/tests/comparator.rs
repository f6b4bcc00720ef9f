//! Tests for the line-oriented output comparison.

use spectra::is_equal_ignore_new_line_sequence;

#[test]
fn equal_to_itself() {
    // the comparison is reflexive
    assert!(is_equal_ignore_new_line_sequence("a\nb\nc", "a\nb\nc"));
    assert!(is_equal_ignore_new_line_sequence("", ""));
}

#[test]
fn ignores_line_ending_variation() {
    assert!(is_equal_ignore_new_line_sequence("a\r\nb", "a\nb"));
    assert!(is_equal_ignore_new_line_sequence("a\nb", "a\r\nb"));
}

#[test]
fn ignores_trailing_newline() {
    assert!(is_equal_ignore_new_line_sequence("HI\n", "HI"));
    assert!(is_equal_ignore_new_line_sequence("a\nb\n", "a\nb"));
}

#[test]
fn different_lines_differ() {
    assert!(!is_equal_ignore_new_line_sequence("a\nb", "a\nc"));
    assert!(!is_equal_ignore_new_line_sequence("a\nb", "a"));
    assert!(!is_equal_ignore_new_line_sequence("a", "a\nb"));
}

#[test]
fn lone_carriage_return_is_not_a_line_break() {
    // only a carriage return directly before a newline is absorbed
    assert!(!is_equal_ignore_new_line_sequence("a\rb", "a\nb"));
}

#[test]
fn content_within_lines_is_exact() {
    assert!(!is_equal_ignore_new_line_sequence(" a", "a"));
    assert!(!is_equal_ignore_new_line_sequence("a ", "a"));
}

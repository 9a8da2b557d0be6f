use epsh::glob::{fnmatch, has_glob_chars};

#[test]
fn fnmatch_literal() {
    assert!(fnmatch("hello", "hello"));
    assert!(!fnmatch("hello", "world"));
}

#[test]
fn fnmatch_star() {
    assert!(fnmatch("*", "anything"));
    assert!(fnmatch("*.txt", "file.txt"));
    assert!(!fnmatch("*.txt", "file.rs"));
    assert!(fnmatch("h*o", "hello"));
    assert!(fnmatch("h*o", "ho"));
}

#[test]
fn fnmatch_question() {
    assert!(fnmatch("?", "a"));
    assert!(!fnmatch("?", ""));
    assert!(!fnmatch("?", "ab"));
    assert!(fnmatch("h?llo", "hello"));
}

#[test]
fn fnmatch_bracket() {
    assert!(fnmatch("[abc]", "a"));
    assert!(fnmatch("[abc]", "c"));
    assert!(!fnmatch("[abc]", "d"));
}

#[test]
fn fnmatch_bracket_range() {
    assert!(fnmatch("[a-z]", "m"));
    assert!(!fnmatch("[a-z]", "M"));
    assert!(fnmatch("[0-9]", "5"));
}

#[test]
fn fnmatch_bracket_negate() {
    assert!(!fnmatch("[!abc]", "a"));
    assert!(fnmatch("[!abc]", "d"));
}

#[test]
fn fnmatch_escape() {
    assert!(fnmatch("\\*", "*"));
    assert!(!fnmatch("\\*", "a"));
}

#[test]
fn fnmatch_complex() {
    assert!(fnmatch("*.tar.gz", "archive.tar.gz"));
    assert!(fnmatch("[Mm]ake*", "Makefile"));
    assert!(fnmatch("[Mm]ake*", "makefile.in"));
}

#[test]
fn has_glob_chars_test() {
    assert!(has_glob_chars("*.txt"));
    assert!(has_glob_chars("file?"));
    assert!(has_glob_chars("[abc]"));
    assert!(!has_glob_chars("plain"));
    assert!(!has_glob_chars("escaped\\*"));
}

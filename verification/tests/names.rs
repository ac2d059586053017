use pakkit::names::{check_safe_name, normalize_name};

#[test]
fn normalize_backslashes() {
    assert_eq!(normalize_name("a\\b\\c.txt"), "a/b/c.txt");
}

#[test]
fn normalize_keeps_forward_slashes() {
    assert_eq!(normalize_name("a/b/c.txt"), "a/b/c.txt");
    assert_eq!(normalize_name("plain.txt"), "plain.txt");
    assert_eq!(normalize_name(""), "");
}

#[test]
fn normalize_mixed_separators() {
    assert_eq!(normalize_name("a\\b/c\\d"), "a/b/c/d");
}

#[test]
fn safe_names_accepted() {
    assert!(check_safe_name("readme.txt"));
    assert!(check_safe_name("data/config.json"));
    assert!(check_safe_name("data/"));
    assert!(check_safe_name("a/../b.txt"));
    assert!(check_safe_name("./a.txt"));
    assert!(check_safe_name("deep/nested/tree/file"));
}

#[test]
fn traversal_names_rejected() {
    assert!(!check_safe_name("../../escape.txt"));
    assert!(!check_safe_name("../escape.txt"));
    assert!(!check_safe_name("a/../../b.txt"));
    assert!(!check_safe_name("a\\..\\..\\b.txt"));
    assert!(!check_safe_name(".."));
}

#[test]
fn absolute_names_rejected() {
    assert!(!check_safe_name("/etc/passwd"));
    assert!(!check_safe_name("\\abs.txt"));
    assert!(!check_safe_name("C:\\evil.txt"));
    assert!(!check_safe_name("C:/evil.txt"));
}

#[test]
fn degenerate_names_rejected() {
    assert!(!check_safe_name(""));
    assert!(!check_safe_name("a\u{0}b.txt"));
}

use cmd_guard::text::{basename, is_lone_quote, eq_ignore_ascii_case, join_strings, split_words, trim_string, unquote};

#[test]
fn basename_of_paths() {
    assert_eq!(basename("/usr/bin/env"), "env");
    assert_eq!(basename("C:\\Windows\\cmd.exe"), "cmd.exe");
    assert_eq!(basename("ls"), "ls");
    assert_eq!(basename("dir/"), "");
}

#[test]
fn unquote_strips_one_pair() {
    assert_eq!(unquote("\"a b\""), "a b");
    assert_eq!(unquote("  'x'  "), "x");
    assert_eq!(unquote("\"a'"), "\"a'");
    assert_eq!(unquote("\"\"x\"\""), "\"x\"");
    assert_eq!(unquote("plain"), "plain");
}

#[test]
fn trim_unicode_white_space() {
    assert_eq!(trim_string("\u{3000} a b \t\n"), "a b");
    assert_eq!(trim_string("   "), "");
}

#[test]
fn ascii_case() {
    assert!(eq_ignore_ascii_case("PuSh", "push"));
    assert!(!eq_ignore_ascii_case("push", "pushd"));
    assert!(!eq_ignore_ascii_case("É", "é"));
}

#[test]
fn words_and_joining() {
    let w: Vec<String> = split_words("  pr   list\tall ").into_iter().map(|v| v.into_iter().collect()).collect();
    assert_eq!(w, vec!["pr", "list", "all"]);
    assert_eq!(join_strings(&vec!["a".to_string(), "b".to_string()], ", "), "a, b");
}

#[test]
fn lone_quote_detected() {
    assert!(is_lone_quote("\""));
    assert!(is_lone_quote("  '  "));
    assert!(!is_lone_quote("\"\""));
    assert!(!is_lone_quote("a"));
}

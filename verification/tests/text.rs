//! The text operations parsers and messages are built from.

use agent_sessions::path::{file_name, is_within, join as join_path, parent, same_path};
use agent_sessions::text::{
    contains, join, last_piece, lines, lower, parse_i64, parse_u32, parse_u64, print_i32,
    print_u64, sort, split, split_once, split_once_text, starts_with, strip_prefix, trim,
    trim_end_matches, words,
};

#[test]
fn text_is_split_and_trimmed() {
    assert_eq!(split("a||b", '|'), ["a", "", "b"]);
    assert_eq!(split("", '|'), [""]);
    assert_eq!(lines("a\r\nb\n\nc\r"), ["a", "b", "", "c\r"]);
    assert!(lines("").is_empty());
    assert_eq!(lines("a\n"), ["a"]);
    assert_eq!(words("  a\tb\u{a0}c \n"), ["a", "b", "c"]);
    assert_eq!(trim("\u{2003} a b \u{3000}\n"), "a b");
    assert_eq!(trim(" \t "), "");
    assert_eq!(split_once("a=b=c", '='), Some(("a".to_owned(), "b=c".to_owned())));
    assert_eq!(split_once("abc", '='), None);
    assert_eq!(split_once_text("a://b://c", "://"), Some(("a".to_owned(), "b://c".to_owned())));
    assert_eq!(split_once_text("a:/b", "://"), None);
    assert_eq!(last_piece("a\tb\tc", '\t'), "c");
    assert_eq!(last_piece("abc", '\t'), "abc");
}

#[test]
fn text_is_searched() {
    assert!(starts_with("--get-all", "--get"));
    assert!(!starts_with("-", "--"));
    assert_eq!(strip_prefix("worktree /r", "worktree ").as_deref(), Some("/r"));
    assert_eq!(strip_prefix("work", "worktree "), None);
    assert!(contains("my gitlab host", "gitlab"));
    assert!(contains("abc", ""));
    assert!(!contains("ab", "abc"));
    assert_eq!(trim_end_matches("r.git.git", ".git"), "r");
    assert_eq!(trim_end_matches("o/r//", "/"), "o/r");
    assert_eq!(lower("GitHub-Ä"), "github-Ä");
}

#[test]
fn numbers_are_read_and_printed() {
    assert_eq!(parse_u64("18446744073709551615"), Some(u64::MAX));
    assert_eq!(parse_u64("18446744073709551616"), None);
    assert_eq!(parse_u64("+7"), Some(7));
    assert_eq!(parse_u64("007"), Some(7));
    for bad in ["", "+", "-1", "1 ", "0x1", "٣"] {
        assert_eq!(parse_u64(bad), None, "{bad}");
    }
    assert_eq!(parse_u32("4294967295"), Some(u32::MAX));
    assert_eq!(parse_u32("4294967296"), None);
    assert_eq!(parse_i64("-9223372036854775808"), Some(i64::MIN));
    assert_eq!(parse_i64("9223372036854775808"), None);
    assert_eq!(parse_i64("-"), None);
    assert_eq!(parse_i64("-+1"), None);
    assert_eq!(print_u64(0), "0");
    assert_eq!(print_u64(u64::MAX), "18446744073709551615");
    assert_eq!(print_i32(i32::MIN), "-2147483648");
    assert_eq!(print_i32(128), "128");
}

#[test]
fn lists_are_joined_and_sorted() {
    let list = |items: &[&str]| items.iter().map(|s| s.to_string()).collect::<Vec<String>>();
    assert_eq!(join(&list(&["a", "b", "c"]), ", "), "a, b, c");
    assert_eq!(join(&vec![], ", "), "");
    assert_eq!(sort(list(&["b", "a", "B", "ab", "a", "é"])), ["B", "a", "a", "ab", "b", "é"]);
}

#[test]
fn paths_are_joined_and_taken_apart() {
    assert_eq!(join_path("/a", "b"), "/a/b");
    assert_eq!(join_path("/a/", "b"), "/a/b");
    assert_eq!(join_path("", "b"), "b");
    assert_eq!(join_path("/a", "/b"), "/b");
    assert_eq!(parent("/a/b").as_deref(), Some("/a"));
    assert_eq!(parent("/a").as_deref(), Some("/"));
    assert_eq!(parent("/"), None);
    assert_eq!(file_name("/a/b").as_deref(), Some("b"));
    assert_eq!(file_name("/"), None);
    assert!(same_path("/a//b/./c/", "/a/b/c"));
    assert!(!same_path("a", "./a"));
    assert!(!same_path("/a/../b", "/b"));
    assert!(is_within("/a/b/c", "/a/b"));
    assert!(is_within("/a/b", "/a/b/"));
    assert!(!is_within("/a/bc", "/a/b"));
    assert!(!is_within("a/b", "/a"));
}

use search_mcp::text::{
    before_first, decimal, eq_ignore_ascii_case, join, replace_all, split_on, strip_end, text_eq,
    trim,
};

#[test]
fn trim_removes_unicode_whitespace() {
    assert_eq!(trim("  hello world \t\n"), "hello world");
    assert_eq!(trim("\u{3000}x\u{00A0}"), "x");
    assert_eq!(trim("   "), "");
    assert_eq!(trim(""), "");
    assert_eq!(trim("a b"), "a b");
}

#[test]
fn replace_all_is_left_to_right_and_non_overlapping() {
    assert_eq!(replace_all("aaa", "aa", "b"), "ba");
    assert_eq!(replace_all("https://x https://y", "https://", ""), "x y");
    assert_eq!(replace_all("~/cache", "~", "/home/u"), "/home/u/cache");
    assert_eq!(replace_all("abc", "zz", "q"), "abc");
}

#[test]
fn strip_end_removes_all_trailing() {
    assert_eq!(strip_end("a///", '/'), "a");
    assert_eq!(strip_end("/", '/'), "");
    assert_eq!(strip_end("a/b", '/'), "a/b");
}

#[test]
fn before_first_takes_prefix() {
    assert_eq!(before_first("Rust - a language - x", " - "), "Rust");
    assert_eq!(before_first("no separator", " - "), "no separator");
    assert_eq!(before_first("searxng:google", ":"), "searxng");
    assert_eq!(before_first(":x", ":"), "");
}

#[test]
fn split_on_keeps_empty_pieces() {
    assert_eq!(split_on("a,b,,c", ','), vec!["a", "b", "", "c"]);
    assert_eq!(split_on("", ','), vec![""]);
    assert_eq!(split_on(",", ','), vec!["", ""]);
}

#[test]
fn join_puts_separator_between() {
    let parts: Vec<String> = vec!["brave".into(), "exa".into()];
    assert_eq!(join(&parts, ","), "brave,exa");
    assert_eq!(join(&vec![], ","), "");
    assert_eq!(join(&vec!["one".to_string()], ","), "one");
}

#[test]
fn decimal_numerals() {
    assert_eq!(decimal(0), "0");
    assert_eq!(decimal(7), "7");
    assert_eq!(decimal(10), "10");
    assert_eq!(decimal(18446744073709551615), "18446744073709551615");
}

#[test]
fn ascii_case_insensitive_equality() {
    assert!(eq_ignore_ascii_case("BRAVE", "brave"));
    assert!(!eq_ignore_ascii_case("brave", "braves"));
    assert!(!eq_ignore_ascii_case("É", "é"));
    assert!(text_eq("abc", "abc"));
    assert!(!text_eq("abc", "abd"));
}

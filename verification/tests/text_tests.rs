use historee::text::{contains_str, eq_str, split_char, split_lines, starts_with_str, trim_str};

#[test]
fn split_keeps_empty_pieces() {
    let parts = split_char("a..b", '.');
    assert_eq!(parts, vec!["a", "", "b"]);
    let parts = split_char("", '.');
    assert_eq!(parts, vec![""]);
    let parts = split_char(".x.", '.');
    assert_eq!(parts, vec!["", "x", ""]);
}

#[test]
fn lines_strip_carriage_returns_and_a_final_newline() {
    assert_eq!(split_lines("a\r\nb\nc\n"), vec!["a", "b", "c"]);
    assert_eq!(split_lines("a\nb"), vec!["a", "b"]);
    assert_eq!(split_lines(""), Vec::<String>::new());
    assert_eq!(split_lines("a\n\n"), vec!["a", ""]);
}

#[test]
fn trim_removes_surrounding_whitespace_only() {
    assert_eq!(trim_str("  padded\t"), "padded");
    assert_eq!(trim_str("inner space kept"), "inner space kept");
    assert_eq!(trim_str("\r\n"), "");
    assert_eq!(trim_str(""), "");
}

#[test]
fn substring_search_and_prefix_test() {
    assert!(contains_str("profiles/dev-edition-default", "dev-edition"));
    assert!(!contains_str("profiles/release", "dev-edition"));
    assert!(contains_str("anything", ""));
    assert!(starts_with_str("Path=Profiles/a", "Path="));
    assert!(!starts_with_str("XPath=b", "Path="));
    assert!(eq_str("same", "same"));
    assert!(!eq_str("same", "Same"));
}

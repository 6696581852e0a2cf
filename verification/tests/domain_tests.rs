use historee::domain::{has_valid_tld, normalize_domain};
use historee::patterns::{compile_pattern_lines, DomainPattern};

fn compile(lines: &[&str]) -> Vec<DomainPattern> {
    let owned: Vec<String> = lines.iter().map(|s| s.to_string()).collect();
    compile_pattern_lines(&owned, true).expect("patterns must compile")
}

#[test]
fn valid_domain_accepted() {
    assert!(has_valid_tld("example.com"));
    assert!(has_valid_tld("sub.example.org"));
    assert!(has_valid_tld("a.bc"));
}

#[test]
fn uppercase_tld_rejected() {
    assert!(!has_valid_tld("EXAMPLE.COM"));
    assert!(!has_valid_tld("example.Com"));
}

#[test]
fn short_tld_rejected() {
    assert!(!has_valid_tld("a.b"));
}

#[test]
fn trailing_dot_rejected() {
    assert!(!has_valid_tld("sub.example."));
}

#[test]
fn no_dot_rejected() {
    assert!(!has_valid_tld("localhost"));
    assert!(!has_valid_tld(""));
    assert!(!has_valid_tld("ab"));
}

#[test]
fn digit_and_punycode_tld_rejected() {
    assert!(!has_valid_tld("example.c0m"));
    assert!(!has_valid_tld("example.xn--p1ai"));
}

#[test]
fn truncation_keeps_last_three_labels() {
    let none: Vec<DomainPattern> = Vec::new();
    assert_eq!(
        normalize_domain("a.b.c.d.example.com", &none),
        "d.example.com"
    );
}

#[test]
fn short_domains_pass_through() {
    let none: Vec<DomainPattern> = Vec::new();
    assert_eq!(normalize_domain("example.com", &none), "example.com");
    assert_eq!(normalize_domain("www.example.com", &none), "www.example.com");
    assert_eq!(normalize_domain("", &none), "");
}

#[test]
fn first_pattern_wins_over_later_more_specific_one() {
    let pats = compile(&[r"^.+\.(foo\.com)$", r"^.+\.(cdn\.foo\.com)$"]);
    // Both patterns match "x.cdn.foo.com"; the first in list order must win.
    assert_eq!(normalize_domain("x.cdn.foo.com", &pats), "foo.com");
}

#[test]
fn pattern_order_reversed_changes_the_winner() {
    // Both patterns match "cdn.foo.com"; whichever stands first wins.
    let pats = compile(&[r"^(cdn\.foo\.com)$", r"^.+\.(foo\.com)$"]);
    assert_eq!(normalize_domain("cdn.foo.com", &pats), "cdn.foo.com");
    let pats = compile(&[r"^.+\.(foo\.com)$", r"^(cdn\.foo\.com)$"]);
    assert_eq!(normalize_domain("cdn.foo.com", &pats), "foo.com");
}

#[test]
fn a_pattern_with_an_empty_capture_is_passed_over() {
    // The first pattern matches "cdn.foo.com" but its group 1 captures the
    // empty string; normalization must skip it and take the second.
    let pats = compile(&[r"^(z*)cdn\.foo\.com$", r"^.+\.(foo\.com)$"]);
    assert_eq!(normalize_domain("cdn.foo.com", &pats), "foo.com");
    // With no later hit, the truncated value itself stands.
    let pats = compile(&[r"^(z*)cdn\.foo\.com$"]);
    assert_eq!(normalize_domain("cdn.foo.com", &pats), "cdn.foo.com");
}

#[test]
fn no_matching_pattern_keeps_truncated_value() {
    let pats = compile(&[r"^.+\.(foo\.com)$"]);
    assert_eq!(normalize_domain("www.example.com", &pats), "www.example.com");
}

#[test]
fn default_patterns_collapse_hosting_providers() {
    let sources = historee::patterns::default_pattern_sources();
    let owned: Vec<String> = sources.iter().map(|s| s.to_string()).collect();
    let pats = compile_pattern_lines(&owned, false).unwrap();
    assert_eq!(
        normalize_domain("bucket.s3.amazonaws.com", &pats),
        "amazonaws.com"
    );
    assert_eq!(
        normalize_domain("myapp.github.io", &pats),
        "github.io"
    );
}

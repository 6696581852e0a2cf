use historee::aggregate::{aggregate, default_worker_count, process_rows};
use historee::patterns::DomainPattern;
use historee::stats::DomainStats;

fn rows(urls: &[&str]) -> Vec<String> {
    urls.iter().map(|s| s.to_string()).collect()
}

fn sorted_counts(stats: &DomainStats) -> Vec<(String, u32)> {
    let mut v = stats.domain_counts.clone();
    v.sort();
    v
}

#[test]
fn end_to_end_three_urls() {
    let urls = rows(&[
        "https://a.b.example.com/x",
        "https://cdn.example.net/y",
        "not a url",
    ]);
    let none: Vec<DomainPattern> = Vec::new();
    let stats = aggregate(&urls, &none, 1);
    assert_eq!(stats.count_of("b.example.com"), 1);
    assert_eq!(stats.count_of("cdn.example.net"), 1);
    assert_eq!(stats.domain_counts.len(), 2);
    // The unparsable third URL is silently skipped, not counted as removed.
    assert_eq!(stats.domains_removed, 0);
}

#[test]
fn worker_count_does_not_change_the_result() {
    let urls = rows(&[
        "https://a.b.example.com/1",
        "https://www.example.com/2",
        "https://www.example.com/3",
        "https://bad_tld.x/4",
        "https://cdn.example.net/5",
        "nonsense",
        "https://deep.a.b.c.example.org/6",
        "https://www.example.com/7",
    ]);
    let none: Vec<DomainPattern> = Vec::new();
    let one = aggregate(&urls, &none, 1);
    let eight = aggregate(&urls, &none, 8);
    assert_eq!(sorted_counts(&one), sorted_counts(&eight));
    assert_eq!(one.domains_removed, eight.domains_removed);
    let three = aggregate(&urls, &none, 3);
    assert_eq!(sorted_counts(&one), sorted_counts(&three));
    assert_eq!(one.domains_removed, three.domains_removed);
}

#[test]
fn worker_count_does_not_change_the_result_with_patterns() {
    let urls = rows(&[
        "https://a.bucket.s3.amazonaws.com/obj",
        "https://other.bucket.s3.amazonaws.com/obj",
        "https://app.github.io/page",
        "https://www.example.com/",
    ]);
    let sources: Vec<String> = historee::patterns::default_pattern_sources()
        .iter()
        .map(|s| s.to_string())
        .collect();
    let pats = historee::patterns::compile_pattern_lines(&sources, true).unwrap();
    let one = aggregate(&urls, &pats, 1);
    let eight = aggregate(&urls, &pats, 8);
    assert_eq!(sorted_counts(&one), sorted_counts(&eight));
    assert_eq!(one.count_of("amazonaws.com"), 2);
    assert_eq!(one.count_of("github.io"), 1);
    assert_eq!(one.count_of("www.example.com"), 1);
}

#[test]
fn repeated_visits_accumulate() {
    let urls = rows(&[
        "https://www.example.com/a",
        "https://www.example.com/b",
        "https://www.example.com/c",
    ]);
    let none: Vec<DomainPattern> = Vec::new();
    let stats = aggregate(&urls, &none, 2);
    assert_eq!(stats.count_of("www.example.com"), 3);
}

#[test]
fn invalid_hosts_count_as_removed() {
    // A host that parses but fails TLD validation increments the removed
    // counter; a URL with no host is skipped silently.
    let urls = rows(&["https://192.168.0.1/x", "mailto:someone@example.com"]);
    let none: Vec<DomainPattern> = Vec::new();
    let stats = aggregate(&urls, &none, 1);
    assert_eq!(stats.domain_counts.len(), 0);
    assert_eq!(stats.domains_removed, 1);
}

#[test]
fn unique_domains_match_the_key_set() {
    let urls = rows(&[
        "https://one.example.com/",
        "https://two.example.com/",
        "https://one.example.com/again",
    ]);
    let none: Vec<DomainPattern> = Vec::new();
    let stats = aggregate(&urls, &none, 4);
    assert_eq!(stats.unique_domains.len(), stats.domain_counts.len());
    let mut uniq = stats.unique_domains.clone();
    uniq.sort();
    let before = uniq.len();
    uniq.dedup();
    assert_eq!(uniq.len(), before);
    let mut keys: Vec<String> = stats.domain_counts.iter().map(|e| e.0.clone()).collect();
    keys.sort();
    assert_eq!(uniq, keys);
}

#[test]
fn process_rows_equals_single_worker_aggregate() {
    let urls = rows(&["https://www.example.com/", "https://cdn.example.net/"]);
    let none: Vec<DomainPattern> = Vec::new();
    let folded = process_rows(&urls, &none);
    let agg = aggregate(&urls, &none, 1);
    assert_eq!(sorted_counts(&folded), sorted_counts(&agg));
    assert_eq!(folded.domains_removed, agg.domains_removed);
    // A raw fold leaves the unique list empty; aggregation rebuilds it.
    assert_eq!(folded.unique_domains.len(), 0);
}

#[test]
fn default_worker_count_is_bounded() {
    let n = default_worker_count();
    assert!(n >= 1 && n <= 8);
}

#[test]
fn empty_row_set_gives_empty_stats() {
    let urls: Vec<String> = Vec::new();
    let none: Vec<DomainPattern> = Vec::new();
    let stats = aggregate(&urls, &none, 1);
    assert_eq!(stats.domain_counts.len(), 0);
    assert_eq!(stats.unique_domains.len(), 0);
    assert_eq!(stats.domains_removed, 0);
}

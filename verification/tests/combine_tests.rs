use historee::combine::combine_results;
use historee::stats::{AnalysisResult, DomainStats};

fn stats_of(entries: &[(&str, u32)], removed: u32) -> DomainStats {
    let mut s = DomainStats::new();
    for (k, v) in entries {
        s.add_count(k, *v);
    }
    s.domains_removed = removed;
    s
}

fn result_of(entries: &[(&str, u32)], removed: u32, first: &str, last: &str) -> AnalysisResult {
    AnalysisResult {
        date_range: (first.to_string(), last.to_string(), 0),
        stats: stats_of(entries, removed),
    }
}

#[test]
fn counts_merge_key_wise() {
    let results = vec![
        result_of(
            &[("example.com", 3), ("other.net", 1)],
            2,
            "January 1, 2020",
            "June 1, 2020",
        ),
        result_of(
            &[("example.com", 4)],
            5,
            "February 1, 2020",
            "March 5, 2021",
        ),
    ];
    let merged = combine_results(&results);
    assert_eq!(merged.stats.count_of("example.com"), 7);
    assert_eq!(merged.stats.count_of("other.net"), 1);
    assert_eq!(merged.stats.domains_removed, 7);
    assert_eq!(merged.stats.unique_domains.len(), 2);
}

#[test]
fn date_range_tracks_global_extremes() {
    let results = vec![
        result_of(&[], 0, "January 1, 2020", "June 1, 2020"),
        result_of(&[], 0, "February 1, 2020", "March 5, 2021"),
    ];
    let merged = combine_results(&results);
    assert_eq!(merged.date_range.0, "January 1, 2020");
    assert_eq!(merged.date_range.1, "March 5, 2021");
    // 2020 is a leap year: a full year to January 1, 2021, then 63 days on.
    assert_eq!(merged.date_range.2, 429);
}

#[test]
fn sentinel_ranges_are_excluded_from_the_merge() {
    let results = vec![
        result_of(&[("example.com", 1)], 0, "No data available", "No data available"),
        result_of(&[], 0, "May 2, 2019", "May 4, 2019"),
    ];
    let merged = combine_results(&results);
    assert_eq!(merged.date_range.0, "May 2, 2019");
    assert_eq!(merged.date_range.1, "May 4, 2019");
    assert_eq!(merged.date_range.2, 2);
    assert_eq!(merged.stats.count_of("example.com"), 1);
}

#[test]
fn tied_dates_keep_the_first_runs_text() {
    // Both runs share the same bounds; the merged range must hold the
    // first run's strings, since replacement is strictly ordered.
    let results = vec![
        result_of(&[], 1, "July 4, 2018", "July 6, 2018"),
        result_of(&[], 2, "July 4, 2018", "July 6, 2018"),
    ];
    let merged = combine_results(&results);
    assert_eq!(merged.date_range.0, "July 4, 2018");
    assert_eq!(merged.date_range.1, "July 6, 2018");
    assert_eq!(merged.date_range.2, 2);
    assert_eq!(merged.stats.domains_removed, 3);
}

#[test]
fn no_usable_range_gives_the_sentinel() {
    let results = vec![result_of(
        &[("example.com", 1)],
        0,
        "No data available",
        "No data available",
    )];
    let merged = combine_results(&results);
    assert_eq!(merged.date_range.0, "No data available");
    assert_eq!(merged.date_range.1, "No data available");
    assert_eq!(merged.date_range.2, 0);
}

#[test]
fn empty_result_list_merges_to_nothing() {
    let results: Vec<AnalysisResult> = Vec::new();
    let merged = combine_results(&results);
    assert_eq!(merged.stats.domain_counts.len(), 0);
    assert_eq!(merged.stats.domains_removed, 0);
    assert_eq!(merged.date_range.0, "No data available");
    assert_eq!(merged.date_range.2, 0);
}

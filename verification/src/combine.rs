//! The multi-source combiner: statistics from repeated single-source runs
//! merge by key-wise summation, and date ranges merge by re-parsing each
//! run's display dates, tracking the global earliest and latest, and
//! recomputing the day span from those two recovered dates.

use crate::epoch::date_day_number;
use crate::epoch::parse_display_date;
use crate::stats::count_in;
use crate::stats::sum_counts;
use crate::stats::AnalysisResult;
use crate::stats::DomainStats;
use crate::text::eq_str;
use vstd::prelude::*;

verus! {

/// Whether one run's date range takes part in the merge: neither bound is
/// the "no data" sentinel, and both parse back as display dates.
pub open spec fn range_usable(r: AnalysisResult) -> bool {
    &&& r.date_range.0@ != "No data available"@
    &&& r.date_range.1@ != "No data available"@
    &&& date_day_number(r.date_range.0@) is Some
    &&& date_day_number(r.date_range.1@) is Some
}

/// The key-wise sum of all runs' counts.
pub open spec fn combined_counts(rs: Seq<AnalysisResult>) -> Map<Seq<char>, nat>
    decreases rs.len(),
{
    if rs.len() == 0 {
        Map::<Seq<char>, nat>::empty()
    } else {
        sum_counts(combined_counts(rs.drop_last()), rs.last().stats.counts())
    }
}

/// The sum of all runs' removed counters.
pub open spec fn combined_removed(rs: Seq<AnalysisResult>) -> nat
    decreases rs.len(),
{
    if rs.len() == 0 {
        0
    } else {
        combined_removed(rs.drop_last()) + rs.last().stats.domains_removed as nat
    }
}

/// The globally earliest usable start date, as (day number, display text):
/// a later run replaces the running earliest only when strictly earlier,
/// so on ties the first run's text stands.
pub open spec fn merged_earliest(rs: Seq<AnalysisResult>) -> Option<(int, Seq<char>)>
    decreases rs.len(),
{
    if rs.len() == 0 {
        None
    } else {
        let prev = merged_earliest(rs.drop_last());
        if !range_usable(rs.last()) {
            prev
        } else {
            let d = date_day_number(rs.last().date_range.0@)->Some_0;
            match prev {
                None => Some((d, rs.last().date_range.0@)),
                Some(p) => {
                    if d < p.0 {
                        Some((d, rs.last().date_range.0@))
                    } else {
                        prev
                    }
                },
            }
        }
    }
}

/// The globally latest usable end date, as (day number, display text):
/// replaced only when strictly later, so on ties the first run's text
/// stands.
pub open spec fn merged_latest(rs: Seq<AnalysisResult>) -> Option<(int, Seq<char>)>
    decreases rs.len(),
{
    if rs.len() == 0 {
        None
    } else {
        let prev = merged_latest(rs.drop_last());
        if !range_usable(rs.last()) {
            prev
        } else {
            let d = date_day_number(rs.last().date_range.1@)->Some_0;
            match prev {
                None => Some((d, rs.last().date_range.1@)),
                Some(p) => {
                    if d > p.0 {
                        Some((d, rs.last().date_range.1@))
                    } else {
                        prev
                    }
                },
            }
        }
    }
}

/// No prefix of the runs counts any key, or any removed row, more often
/// than the whole sequence does.
proof fn lemma_combined_mono(rs: Seq<AnalysisResult>, i: int)
    requires
        0 <= i <= rs.len(),
    ensures
        forall|k: Seq<char>| #[trigger]
            count_in(combined_counts(rs.take(i)), k) <= count_in(combined_counts(rs), k),
        combined_removed(rs.take(i)) <= combined_removed(rs),
    decreases rs.len() - i,
{
    if i == rs.len() {
        assert(rs.take(i) =~= rs);
    } else {
        lemma_combined_mono(rs, i + 1);
        assert(rs.take(i + 1).drop_last() =~= rs.take(i));
        assert(rs.take(i + 1).last() == rs[i]);
        assert forall|k: Seq<char>| #[trigger]
            count_in(combined_counts(rs.take(i)), k) <= count_in(combined_counts(rs), k) by {
            assert(count_in(combined_counts(rs.take(i + 1)), k) <= count_in(
                combined_counts(rs),
                k,
            ));
        }
    }
}

/// Unions the statistics of several single-source runs: domain counts and
/// removed counters sum, `unique_domains` is rebuilt as the merged key
/// set, and the merged date range holds the globally earliest and latest
/// display dates with the day span between them.  A failed run never
/// reaches this function: the caller skips it.
pub fn combine_results(results: &Vec<AnalysisResult>) -> (r: AnalysisResult)
    requires
        forall|i: int| 0 <= i < results@.len() ==> (#[trigger] results@[i]).stats.wf(),
        forall|k: Seq<char>| #[trigger] count_in(combined_counts(results@), k) <= u32::MAX,
        combined_removed(results@) <= u32::MAX,
    ensures
        r.stats.wf(),
        r.stats.counts() == combined_counts(results@),
        r.stats.domains_removed as nat == combined_removed(results@),
        r.stats.unique_domains.deep_view().no_duplicates(),
        r.stats.unique_domains@.len() == r.stats.counts().dom().len(),
        r.stats.unique_domains.deep_view().to_set() == r.stats.counts().dom(),
        merged_earliest(results@) matches Some(e) ==> r.date_range.0@ == e.1,
        merged_earliest(results@) is None ==> r.date_range.0@ == "No data available"@,
        merged_latest(results@) matches Some(l) ==> r.date_range.1@ == l.1,
        merged_latest(results@) is None ==> r.date_range.1@ == "No data available"@,
        (merged_earliest(results@) is Some && merged_latest(results@) is Some) ==> r.date_range.2
            as int == merged_latest(results@)->Some_0.0 - merged_earliest(results@)->Some_0.0,
        (merged_earliest(results@) is None || merged_latest(results@) is None) ==> r.date_range.2
            == 0,
{
    let ghost rv = results@;
    let mut stats = DomainStats::new();
    let mut earliest: Option<(i64, String)> = None;
    let mut latest: Option<(i64, String)> = None;
    let mut i: usize = 0;
    proof {
        assert(rv.take(0) =~= Seq::<AnalysisResult>::empty());
    }
    while i < results.len()
        invariant
            i <= rv.len(),
            rv == results@,
            forall|j: int| 0 <= j < rv.len() ==> (#[trigger] rv[j]).stats.wf(),
            forall|k: Seq<char>| #[trigger] count_in(combined_counts(rv), k) <= u32::MAX,
            combined_removed(rv) <= u32::MAX,
            stats.wf(),
            stats.unique_domains@.len() == 0,
            stats.counts() =~= combined_counts(rv.take(i as int)),
            stats.domains_removed as nat == combined_removed(rv.take(i as int)),
            match earliest {
                None => merged_earliest(rv.take(i as int)) is None,
                Some(p) => merged_earliest(rv.take(i as int)) == Some((p.0 as int, p.1@))
                    && -100_000_000 <= p.0 <= 100_000_000,
            },
            match latest {
                None => merged_latest(rv.take(i as int)) is None,
                Some(p) => merged_latest(rv.take(i as int)) == Some((p.0 as int, p.1@))
                    && -100_000_000 <= p.0 <= 100_000_000,
            },
        decreases results.len() - i,
    {
        proof {
            assert(rv.take(i + 1).drop_last() =~= rv.take(i as int));
            assert(rv.take(i + 1).last() == rv[i as int]);
            lemma_combined_mono(rv, i as int);
            lemma_combined_mono(rv, i + 1);
            assert forall|k: Seq<char>|
                count_in(stats.counts(), k) + count_in(rv[i as int].stats.counts(), k)
                    <= u32::MAX by {
                assert(count_in(combined_counts(rv.take(i + 1)), k) <= count_in(
                    combined_counts(rv),
                    k,
                ));
            }
            assert(combined_removed(rv.take(i + 1)) <= combined_removed(rv));
        }
        let result = &results[i];
        stats.merge_from(&result.stats);
        if !eq_str(result.date_range.0.as_str(), "No data available") && !eq_str(
            result.date_range.1.as_str(),
            "No data available",
        ) {
            let parsed_first = parse_display_date(result.date_range.0.as_str());
            let parsed_last = parse_display_date(result.date_range.1.as_str());
            match (parsed_first, parsed_last) {
                (Some(da), Some(db)) => {
                    proof {
                        assert(range_usable(rv[i as int]));
                    }
                    let replace_earliest = match &earliest {
                        None => true,
                        Some(p) => da < p.0,
                    };
                    if replace_earliest {
                        earliest = Some((da, result.date_range.0.clone()));
                    }
                    let replace_latest = match &latest {
                        None => true,
                        Some(p) => db > p.0,
                    };
                    if replace_latest {
                        latest = Some((db, result.date_range.1.clone()));
                    }
                },
                _ => {
                    proof {
                        assert(!range_usable(rv[i as int]));
                    }
                },
            }
        } else {
            proof {
                assert(!range_usable(rv[i as int]));
            }
        }
        i = i + 1;
    }
    proof {
        assert(rv.take(rv.len() as int) =~= rv);
    }
    stats.rebuild_unique();
    proof {
        crate::stats::lemma_counts_of_contains(stats.entries());
        assert(stats.unique_domains.deep_view().to_set() =~= stats.counts().dom());
    }
    let total_days: i64 = match (&earliest, &latest) {
        (Some(e), Some(l)) => l.0 - e.0,
        _ => 0,
    };
    let earliest_str = match earliest {
        Some(e) => e.1,
        None => String::from_str("No data available"),
    };
    let latest_str = match latest {
        Some(l) => l.1,
        None => String::from_str("No data available"),
    };
    AnalysisResult { date_range: (earliest_str, latest_str, total_days), stats }
}

} // verus!

//! The aggregation engine: partitions a URL collection, folds each
//! partition into a private accumulator with validate-normalize-validate
//! per row, and merges the partials key-wise.  The final statistics are a
//! function of the row sequence and pattern list alone: the worker count
//! and partition boundaries never show in the result.

use crate::domain::has_valid_tld;
use crate::domain::normalize_domain;
use crate::domain::spec_has_valid_tld;
use crate::domain::spec_normalize;
use crate::patterns::DomainPattern;
use crate::stats::count_in;
use crate::stats::sum_counts;
use crate::stats::DomainStats;
use vstd::prelude::*;

verus! {

/// The host of `url`, as `url::Url::parse` followed by `Url::host_str`
/// extracts it: `None` when the text does not parse as a URL or the URL
/// has no host component.
pub uninterp spec fn host_of(url: Seq<char>) -> Option<Seq<char>>;

/// Relies on `url::Url::parse` and `url::Url::host_str`: parsing is a
/// function of the URL text alone, and the host is absent exactly when
/// the text does not parse or the URL carries no host.
#[verifier::external_body]
fn url_host(url: &str) -> (r: Option<String>)
    ensures
        r matches Some(h) ==> host_of(url@) == Some(h@),
        r is None ==> host_of(url@) is None,
{
    match url::Url::parse(url) {
        Ok(u) => u.host_str().map(|h| h.to_string()),
        Err(_) => None,
    }
}

/// Relies on `num_cpus::get`: it always returns at least 1.
#[verifier::external_body]
fn cpu_count() -> (n: usize)
    ensures
        1 <= n,
{
    num_cpus::get()
}

/// The worker count used when none is requested: the number of available
/// CPUs, capped at 8.
pub fn default_worker_count() -> (n: usize)
    ensures
        1 <= n <= 8,
{
    let c = cpu_count();
    if c < 8 {
        c
    } else {
        8
    }
}

/// The domain key one raw URL row is counted under, if any: the row must
/// parse with a host, the host must validate, and the normalized key must
/// validate again.
pub open spec fn row_key(url: Seq<char>, pats: Seq<Seq<char>>) -> Option<Seq<char>> {
    match host_of(url) {
        None => None,
        Some(h) => {
            if !spec_has_valid_tld(h) {
                None
            } else {
                let d = spec_normalize(h, pats);
                if spec_has_valid_tld(d) {
                    Some(d)
                } else {
                    None
                }
            }
        },
    }
}

/// Whether one raw URL row counts as removed: its host is present but
/// either it or its normalized key fails validation.  A row without a
/// host is neither counted nor removed.
pub open spec fn row_removed(url: Seq<char>, pats: Seq<Seq<char>>) -> bool {
    match host_of(url) {
        None => false,
        Some(h) => !spec_has_valid_tld(h) || !spec_has_valid_tld(spec_normalize(h, pats)),
    }
}

/// The per-domain visit counts of a row sequence.
pub open spec fn agg_counts(rows: Seq<Seq<char>>, pats: Seq<Seq<char>>) -> Map<Seq<char>, nat>
    decreases rows.len(),
{
    if rows.len() == 0 {
        Map::<Seq<char>, nat>::empty()
    } else {
        let m = agg_counts(rows.drop_last(), pats);
        match row_key(rows.last(), pats) {
            Some(k) => m.insert(k, (count_in(m, k) + 1) as nat),
            None => m,
        }
    }
}

/// The number of rows of the sequence that validation removed.
pub open spec fn agg_removed(rows: Seq<Seq<char>>, pats: Seq<Seq<char>>) -> nat
    decreases rows.len(),
{
    if rows.len() == 0 {
        0
    } else {
        agg_removed(rows.drop_last(), pats) + (if row_removed(rows.last(), pats) {
            1nat
        } else {
            0nat
        })
    }
}

/// No key is counted more often than there are rows, and no more rows are
/// removed than exist.
pub proof fn lemma_agg_bounds(rows: Seq<Seq<char>>, pats: Seq<Seq<char>>)
    ensures
        forall|k: Seq<char>| #[trigger] count_in(agg_counts(rows, pats), k) <= rows.len(),
        agg_removed(rows, pats) <= rows.len(),
    decreases rows.len(),
{
    if rows.len() > 0 {
        lemma_agg_bounds(rows.drop_last(), pats);
        assert forall|k: Seq<char>| #[trigger]
            count_in(agg_counts(rows, pats), k) <= rows.len() by {
            assert(count_in(agg_counts(rows.drop_last(), pats), k) <= rows.drop_last().len());
            if row_key(rows.last(), pats) is Some {
                let k0 = row_key(rows.last(), pats)->Some_0;
                assert(count_in(agg_counts(rows.drop_last(), pats), k0) <= rows.drop_last().len());
            }
        }
    }
}

/// Concatenating row sequences sums their statistics key-wise: the merge
/// of two partitions' folds is the fold of the two partitions together.
pub proof fn lemma_agg_split(a: Seq<Seq<char>>, b: Seq<Seq<char>>, pats: Seq<Seq<char>>)
    ensures
        agg_counts(a + b, pats) =~= sum_counts(agg_counts(a, pats), agg_counts(b, pats)),
        agg_removed(a + b, pats) == agg_removed(a, pats) + agg_removed(b, pats),
    decreases b.len(),
{
    if b.len() == 0 {
        assert(a + b =~= a);
        assert(agg_counts(a, pats) =~= sum_counts(agg_counts(a, pats), agg_counts(b, pats)));
    } else {
        lemma_agg_split(a, b.drop_last(), pats);
        assert((a + b).drop_last() =~= a + b.drop_last());
        assert((a + b).last() == b.last());
        assert(agg_counts(a + b, pats) =~= sum_counts(agg_counts(a, pats), agg_counts(b, pats)));
    }
}

/// Folds rows `start..end` into a fresh accumulator, one validate-
/// normalize-validate step per row: one worker's partition of the work.
pub fn process_range(
    rows: &Vec<String>,
    start: usize,
    end: usize,
    patterns: &Vec<DomainPattern>,
) -> (r: DomainStats)
    requires
        start <= end <= rows@.len(),
        end - start <= u32::MAX,
    ensures
        r.wf(),
        r.counts() == agg_counts(
            rows.deep_view().subrange(start as int, end as int),
            patterns.deep_view(),
        ),
        r.domains_removed as nat == agg_removed(
            rows.deep_view().subrange(start as int, end as int),
            patterns.deep_view(),
        ),
        r.unique_domains@.len() == 0,
{
    let ghost rv = rows.deep_view();
    let ghost pv = patterns.deep_view();
    let mut acc = DomainStats::new();
    let mut i: usize = start;
    proof {
        assert(rv.subrange(start as int, start as int) =~= Seq::<Seq<char>>::empty());
    }
    while i < end
        invariant
            start <= i <= end <= rv.len(),
            end - start <= u32::MAX,
            rv == rows.deep_view(),
            pv == patterns.deep_view(),
            rv.len() == rows@.len(),
            acc.wf(),
            acc.unique_domains@.len() == 0,
            acc.counts() =~= agg_counts(rv.subrange(start as int, i as int), pv),
            acc.domains_removed as nat == agg_removed(rv.subrange(start as int, i as int), pv),
        decreases end - i,
    {
        let ghost pre = rv.subrange(start as int, i as int);
        proof {
            assert(rv.subrange(start as int, i + 1).drop_last() =~= pre);
            assert(rv.subrange(start as int, i + 1).last() == rv[i as int]);
            lemma_agg_bounds(pre, pv);
            assert(pre.len() == i - start < end - start);
        }
        let row = &rows[i];
        proof {
            assert(row@ == rv[i as int]);
        }
        match url_host(row.as_str()) {
            None => {
                proof {
                    assert(row_key(rv[i as int], pv) is None);
                    assert(!row_removed(rv[i as int], pv));
                }
            },
            Some(host) => {
                if !has_valid_tld(host.as_str()) {
                    acc.domains_removed = acc.domains_removed + 1;
                } else {
                    let nd = normalize_domain(host.as_str(), patterns);
                    if !has_valid_tld(nd.as_str()) {
                        acc.domains_removed = acc.domains_removed + 1;
                    } else {
                        proof {
                            assert(row_key(rv[i as int], pv) == Some(nd@));
                        }
                        acc.add_count(nd.as_str(), 1);
                    }
                }
            },
        }
        i = i + 1;
        proof {
            assert(acc.counts() =~= agg_counts(rv.subrange(start as int, i as int), pv));
        }
    }
    acc
}

/// Folds the whole collection as one partition.
pub fn process_rows(rows: &Vec<String>, patterns: &Vec<DomainPattern>) -> (r: DomainStats)
    requires
        rows@.len() <= u32::MAX,
    ensures
        r.wf(),
        r.counts() == agg_counts(rows.deep_view(), patterns.deep_view()),
        r.domains_removed as nat == agg_removed(rows.deep_view(), patterns.deep_view()),
        r.unique_domains@.len() == 0,
{
    let r = process_range(rows, 0, rows.len(), patterns);
    proof {
        assert(rows.deep_view().subrange(0, rows@.len() as int) =~= rows.deep_view());
    }
    r
}

/// Aggregates `rows` into per-domain visit counts: the rows are split into
/// `worker_count` roughly equal partitions, each folded separately, and
/// the partials merged left to right; `unique_domains` is recomputed as
/// exactly the key set of the merged counts.  The result is a function of
/// the rows and patterns alone: `worker_count` does not appear in the
/// contract, so any two worker counts give identical statistics.
pub fn aggregate(rows: &Vec<String>, patterns: &Vec<DomainPattern>, worker_count: usize) -> (r:
    DomainStats)
    requires
        1 <= worker_count,
        rows@.len() <= u32::MAX,
    ensures
        r.wf(),
        r.counts() == agg_counts(rows.deep_view(), patterns.deep_view()),
        r.domains_removed as nat == agg_removed(rows.deep_view(), patterns.deep_view()),
        r.unique_domains.deep_view().no_duplicates(),
        r.unique_domains@.len() == r.counts().dom().len(),
        r.unique_domains.deep_view().to_set() == r.counts().dom(),
{
    let ghost rv = rows.deep_view();
    let ghost pv = patterns.deep_view();
    let n = rows.len();
    let mut chunk = n / worker_count;
    if chunk == 0 {
        chunk = 1;
    }
    let mut acc = DomainStats::new();
    let mut pos: usize = 0;
    proof {
        assert(rv.subrange(0, 0) =~= Seq::<Seq<char>>::empty());
    }
    while pos < n
        invariant
            pos <= n,
            n == rows@.len() <= u32::MAX,
            chunk >= 1,
            rv == rows.deep_view(),
            pv == patterns.deep_view(),
            rv.len() == n,
            acc.wf(),
            acc.unique_domains@.len() == 0,
            acc.counts() =~= agg_counts(rv.subrange(0, pos as int), pv),
            acc.domains_removed as nat == agg_removed(rv.subrange(0, pos as int), pv),
        decreases n - pos,
    {
        let end = if n - pos < chunk {
            n
        } else {
            pos + chunk
        };
        let part = process_range(rows, pos, end, patterns);
        proof {
            let a = rv.subrange(0, pos as int);
            let b = rv.subrange(pos as int, end as int);
            lemma_agg_split(a, b, pv);
            assert(a + b =~= rv.subrange(0, end as int));
            lemma_agg_bounds(a, pv);
            lemma_agg_bounds(b, pv);
            assert forall|k: Seq<char>|
                count_in(acc.counts(), k) + count_in(part.counts(), k) <= u32::MAX by {
                assert(count_in(agg_counts(a, pv), k) <= a.len());
                assert(count_in(agg_counts(b, pv), k) <= b.len());
            }
        }
        acc.merge_from(&part);
        proof {
            assert(acc.counts() =~= agg_counts(rv.subrange(0, end as int), pv));
        }
        pos = end;
    }
    proof {
        assert(rv.subrange(0, n as int) =~= rv);
    }
    acc.rebuild_unique();
    proof {
        crate::stats::lemma_counts_of_contains(acc.entries());
        assert(acc.unique_domains.deep_view().to_set() =~= acc.counts().dom());
    }
    acc
}

} // verus!

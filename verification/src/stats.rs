//! Visit statistics: a per-domain count table with a mathematical map view,
//! and the key-wise merge that both the fold/merge aggregation and the
//! multi-source combiner use.

use crate::text::eq_str;
use vstd::prelude::*;

verus! {

/// Count of `k` in `m`, zero when absent.
pub open spec fn count_in(m: Map<Seq<char>, nat>, k: Seq<char>) -> nat {
    if m.contains_key(k) {
        m[k]
    } else {
        0
    }
}

/// Key-wise sum of two count maps.
pub open spec fn sum_counts(m1: Map<Seq<char>, nat>, m2: Map<Seq<char>, nat>) -> Map<
    Seq<char>,
    nat,
> {
    Map::new(
        |k: Seq<char>| m1.contains_key(k) || m2.contains_key(k),
        |k: Seq<char>| count_in(m1, k) + count_in(m2, k),
    )
}

/// Merging counts is commutative: partial results may arrive in any order.
pub proof fn lemma_sum_counts_commutative(m1: Map<Seq<char>, nat>, m2: Map<Seq<char>, nat>)
    ensures
        sum_counts(m1, m2) == sum_counts(m2, m1),
{
    assert(sum_counts(m1, m2) =~= sum_counts(m2, m1));
}

/// Merging counts is associative: partition boundaries may fall anywhere.
pub proof fn lemma_sum_counts_associative(
    m1: Map<Seq<char>, nat>,
    m2: Map<Seq<char>, nat>,
    m3: Map<Seq<char>, nat>,
)
    ensures
        sum_counts(sum_counts(m1, m2), m3) == sum_counts(m1, sum_counts(m2, m3)),
{
    assert(sum_counts(sum_counts(m1, m2), m3) =~= sum_counts(m1, sum_counts(m2, m3)));
}

/// The count map a list of (domain, count) entries stands for; a repeated
/// key would take its last value, but well-formed tables have none.
pub open spec fn counts_of(entries: Seq<(Seq<char>, u32)>) -> Map<Seq<char>, nat>
    decreases entries.len(),
{
    if entries.len() == 0 {
        Map::<Seq<char>, nat>::empty()
    } else {
        counts_of(entries.drop_last()).insert(entries.last().0, entries.last().1 as nat)
    }
}

/// The keys of the entries, in order.
pub open spec fn keys_of(entries: Seq<(Seq<char>, u32)>) -> Seq<Seq<char>> {
    entries.map_values(|e: (Seq<char>, u32)| e.0)
}

pub proof fn lemma_counts_of_contains(es: Seq<(Seq<char>, u32)>)
    ensures
        forall|k: Seq<char>| #[trigger]
            counts_of(es).contains_key(k) <==> keys_of(es).contains(k),
    decreases es.len(),
{
    if es.len() == 0 {
        assert(forall|k: Seq<char>| !keys_of(es).contains(k));
    } else {
        lemma_counts_of_contains(es.drop_last());
        assert(keys_of(es.drop_last()) =~= keys_of(es).drop_last());
        assert forall|k: Seq<char>| #[trigger]
            counts_of(es).contains_key(k) <==> keys_of(es).contains(k) by {
            if counts_of(es).contains_key(k) {
                if k == es.last().0 {
                    assert(keys_of(es)[es.len() - 1] == k);
                } else {
                    assert(counts_of(es.drop_last()).contains_key(k));
                    assert(keys_of(es.drop_last()).contains(k));
                    let i = choose|i: int|
                        0 <= i < keys_of(es.drop_last()).len() && keys_of(es.drop_last())[i] == k;
                    assert(keys_of(es.drop_last())[i] == keys_of(es)[i]);
                    assert(keys_of(es)[i] == k);
                }
            }
            if keys_of(es).contains(k) {
                let i = choose|i: int| 0 <= i < keys_of(es).len() && keys_of(es)[i] == k;
                if i < es.len() - 1 {
                    assert(keys_of(es).drop_last()[i] == k);
                    assert(keys_of(es.drop_last()).contains(k));
                    assert(counts_of(es.drop_last()).contains_key(k));
                }
            }
        }
    }
}

pub proof fn lemma_counts_of_index(es: Seq<(Seq<char>, u32)>, i: int)
    requires
        0 <= i < es.len(),
        forall|j: int| i < j < es.len() ==> (#[trigger] es[j]).0 != es[i].0,
    ensures
        counts_of(es).contains_key(es[i].0),
        counts_of(es)[es[i].0] == es[i].1 as nat,
    decreases es.len(),
{
    if i < es.len() - 1 {
        assert(es.drop_last()[i] == es[i]);
        assert forall|j: int|
            i < j < es.drop_last().len() implies (#[trigger] es.drop_last()[j]).0
            != es.drop_last()[i].0 by {
            assert(es.drop_last()[j] == es[j]);
        }
        lemma_counts_of_index(es.drop_last(), i);
        assert(es[es.len() - 1].0 != es[i].0);
    }
}

pub proof fn lemma_counts_of_push(es: Seq<(Seq<char>, u32)>, e: (Seq<char>, u32))
    ensures
        counts_of(es.push(e)) == counts_of(es).insert(e.0, e.1 as nat),
{
    assert(es.push(e).drop_last() =~= es);
    assert(es.push(e).last() == e);
}

pub proof fn lemma_counts_of_update(es: Seq<(Seq<char>, u32)>, i: int, v: u32)
    requires
        0 <= i < es.len(),
        keys_of(es).no_duplicates(),
    ensures
        counts_of(es.update(i, (es[i].0, v))) =~= counts_of(es).insert(es[i].0, v as nat),
    decreases es.len(),
{
    let es2 = es.update(i, (es[i].0, v));
    if i == es.len() - 1 {
        assert(es2.drop_last() =~= es.drop_last());
        assert(es2.last() == (es[i].0, v));
    } else {
        assert(es2.drop_last() =~= es.drop_last().update(i, (es[i].0, v)));
        assert(keys_of(es.drop_last()) =~= keys_of(es).drop_last());
        assert(keys_of(es).drop_last().no_duplicates());
        lemma_counts_of_update(es.drop_last(), i, v);
        assert(es.drop_last()[i] == es[i]);
        assert(keys_of(es)[i] == es[i].0);
        assert(keys_of(es)[es.len() - 1] == es.last().0);
        assert(es[i].0 != es.last().0);
        assert(es2.last() == es.last());
        assert(counts_of(es2) =~= counts_of(es).insert(es[i].0, v as nat));
    }
}

/// Mutable accumulator of per-domain visit counts: the count table, the
/// number of raw visits dropped for failing validation, and a derived list
/// of the distinct domain keys.
#[derive(Debug)]
pub struct DomainStats {
    pub unique_domains: Vec<String>,
    pub domain_counts: Vec<(String, u32)>,
    pub domains_removed: u32,
}

impl DomainStats {
    /// The count-table entries as mathematical pairs.
    pub open spec fn entries(&self) -> Seq<(Seq<char>, u32)> {
        self.domain_counts@.map_values(|e: (String, u32)| (e.0@, e.1))
    }

    /// The per-domain visit counts as a map.
    pub open spec fn counts(&self) -> Map<Seq<char>, nat> {
        counts_of(self.entries())
    }

    /// Well-formed: no domain key occurs twice in the count table.
    pub open spec fn wf(&self) -> bool {
        keys_of(self.entries()).no_duplicates()
    }

    /// An empty accumulator.
    pub fn new() -> (r: DomainStats)
        ensures
            r.wf(),
            r.counts() == Map::<Seq<char>, nat>::empty(),
            r.entries().len() == 0,
            r.domains_removed == 0,
            r.unique_domains@.len() == 0,
    {
        let r = DomainStats {
            unique_domains: Vec::new(),
            domain_counts: Vec::new(),
            domains_removed: 0,
        };
        proof {
            assert(r.entries() =~= Seq::<(Seq<char>, u32)>::empty());
        }
        r
    }

    /// The count recorded for `key`, zero when absent.
    pub fn count_of(&self, key: &str) -> (r: u32)
        requires
            self.wf(),
        ensures
            r as nat == count_in(self.counts(), key@),
    {
        let n = self.domain_counts.len();
        let mut i: usize = 0;
        while i < n
            invariant
                i <= n,
                n == self.domain_counts@.len(),
                self.wf(),
                forall|j: int| 0 <= j < i ==> (#[trigger] self.entries()[j]).0 != key@,
            decreases n - i,
        {
            if eq_str(self.domain_counts[i].0.as_str(), key) {
                proof {
                    assert(self.entries()[i as int].0 == key@);
                    assert forall|j: int|
                        i < j < self.entries().len() implies (#[trigger] self.entries()[j]).0
                        != self.entries()[i as int].0 by {
                        assert(keys_of(self.entries())[j] == self.entries()[j].0);
                        assert(keys_of(self.entries())[i as int] == key@);
                    }
                    lemma_counts_of_index(self.entries(), i as int);
                }
                return self.domain_counts[i].1;
            }
            i = i + 1;
        }
        proof {
            lemma_counts_of_contains(self.entries());
            if counts_of(self.entries()).contains_key(key@) {
                let j = choose|j: int|
                    0 <= j < keys_of(self.entries()).len() && keys_of(self.entries())[j] == key@;
                assert(self.entries()[j].0 == key@);
            }
        }
        0
    }

    /// Adds `amount` visits to `key`'s count, creating the entry if absent.
    pub fn add_count(&mut self, key: &str, amount: u32)
        requires
            old(self).wf(),
            count_in(old(self).counts(), key@) + amount <= u32::MAX,
        ensures
            final(self).wf(),
            final(self).counts() == old(self).counts().insert(
                key@,
                (count_in(old(self).counts(), key@) + amount) as nat,
            ),
            final(self).domains_removed == old(self).domains_removed,
            final(self).unique_domains == old(self).unique_domains,
    {
        let n = self.domain_counts.len();
        let mut i: usize = 0;
        while i < n
            invariant
                i <= n,
                n == self.domain_counts@.len(),
                *self == *old(self),
                self.wf(),
                count_in(self.counts(), key@) + amount <= u32::MAX,
                forall|j: int| 0 <= j < i ==> (#[trigger] self.entries()[j]).0 != key@,
            decreases n - i,
        {
            if eq_str(self.domain_counts[i].0.as_str(), key) {
                proof {
                    assert(self.entries()[i as int].0 == key@);
                    assert forall|j: int|
                        i < j < self.entries().len() implies (#[trigger] self.entries()[j]).0
                        != self.entries()[i as int].0 by {
                        assert(keys_of(self.entries())[j] == self.entries()[j].0);
                        assert(keys_of(self.entries())[i as int] == key@);
                    }
                    lemma_counts_of_index(self.entries(), i as int);
                }
                let c = self.domain_counts[i].1;
                let name = self.domain_counts[i].0.clone();
                let ghost olde = self.entries();
                proof {
                    lemma_counts_of_update(olde, i as int, (c + amount) as u32);
                }
                self.domain_counts.set(i, (name, c + amount));
                proof {
                    assert(self.entries() =~= olde.update(i as int, (key@, (c + amount) as u32)));
                    assert(keys_of(self.entries()) =~= keys_of(olde));
                    assert(self.counts() =~= old(self).counts().insert(
                        key@,
                        (count_in(old(self).counts(), key@) + amount) as nat,
                    ));
                }
                return ;
            }
            i = i + 1;
        }
        proof {
            lemma_counts_of_contains(self.entries());
            if counts_of(self.entries()).contains_key(key@) {
                let j = choose|j: int|
                    0 <= j < keys_of(self.entries()).len() && keys_of(self.entries())[j] == key@;
                assert(self.entries()[j].0 == key@);
            }
            assert(count_in(self.counts(), key@) == 0);
        }
        let ghost olde = self.entries();
        self.domain_counts.push((String::from_str(key), amount));
        proof {
            assert(self.entries() =~= olde.push((key@, amount)));
            lemma_counts_of_push(olde, (key@, amount));
            assert(keys_of(self.entries()) =~= keys_of(olde).push(key@));
            lemma_counts_of_contains(olde);
            assert(self.counts() =~= old(self).counts().insert(
                key@,
                (count_in(old(self).counts(), key@) + amount) as nat,
            ));
        }
    }

    /// Folds `other` into `self`: counts sum key-wise and the removed
    /// counter adds; `unique_domains` is left as it is, to be rebuilt once
    /// a whole fold is merged.
    pub fn merge_from(&mut self, other: &DomainStats)
        requires
            old(self).wf(),
            other.wf(),
            forall|k: Seq<char>|
                count_in(old(self).counts(), k) + count_in(other.counts(), k) <= u32::MAX,
            old(self).domains_removed + other.domains_removed <= u32::MAX,
        ensures
            final(self).wf(),
            final(self).counts() == sum_counts(old(self).counts(), other.counts()),
            final(self).domains_removed == old(self).domains_removed + other.domains_removed,
            final(self).unique_domains == old(self).unique_domains,
    {
        let n = other.domain_counts.len();
        let mut i: usize = 0;
        while i < n
            invariant
                i <= n,
                n == other.domain_counts@.len(),
                other.wf(),
                self.wf(),
                forall|k: Seq<char>|
                    count_in(old(self).counts(), k) + count_in(other.counts(), k) <= u32::MAX,
                self.counts() =~= sum_counts(
                    old(self).counts(),
                    counts_of(other.entries().take(i as int)),
                ),
                self.domains_removed == old(self).domains_removed,
                self.unique_domains == old(self).unique_domains,
            decreases n - i,
        {
            let ghost pre = other.entries().take(i as int);
            let ghost e = other.entries()[i as int];
            proof {
                assert forall|j: int|
                    i < j < other.entries().len() implies (#[trigger] other.entries()[j]).0 != e.0
                    by {
                    assert(keys_of(other.entries())[j] == other.entries()[j].0);
                    assert(keys_of(other.entries())[i as int] == e.0);
                }
                lemma_counts_of_index(other.entries(), i as int);
                lemma_counts_of_contains(pre);
                if counts_of(pre).contains_key(e.0) {
                    let j = choose|j: int|
                        0 <= j < keys_of(pre).len() && keys_of(pre)[j] == e.0;
                    assert(pre[j] == other.entries()[j]);
                    assert(keys_of(other.entries())[j] == other.entries()[j].0);
                    assert(keys_of(other.entries())[i as int] == e.0);
                }
                assert(count_in(counts_of(pre), e.0) == 0);
                assert(count_in(self.counts(), e.0) == count_in(old(self).counts(), e.0));
                assert(count_in(other.counts(), e.0) == e.1 as nat);
            }
            let entry_name = other.domain_counts[i].0.clone();
            let entry_count = other.domain_counts[i].1;
            self.add_count(entry_name.as_str(), entry_count);
            proof {
                assert(other.entries().take(i + 1).drop_last() =~= pre);
                assert(other.entries().take(i + 1).last() == e);
                assert(self.counts() =~= sum_counts(
                    old(self).counts(),
                    counts_of(other.entries().take(i + 1)),
                ));
            }
            i = i + 1;
        }
        proof {
            assert(other.entries().take(n as int) =~= other.entries());
        }
        self.domains_removed = self.domains_removed + other.domains_removed;
    }

    /// Recomputes `unique_domains` as exactly the keys of the count table:
    /// no duplicates, and as many entries as the table has keys.
    pub fn rebuild_unique(&mut self)
        requires
            old(self).wf(),
        ensures
            final(self).wf(),
            final(self).counts() == old(self).counts(),
            final(self).entries() == old(self).entries(),
            final(self).domains_removed == old(self).domains_removed,
            final(self).unique_domains.deep_view() == keys_of(final(self).entries()),
            final(self).unique_domains.deep_view().no_duplicates(),
            final(self).unique_domains@.len() == final(self).counts().dom().len(),
    {
        let n = self.domain_counts.len();
        let mut uniques: Vec<String> = Vec::new();
        let mut i: usize = 0;
        while i < n
            invariant
                i <= n,
                n == self.domain_counts@.len(),
                *self == *old(self),
                uniques.deep_view() =~~= keys_of(self.entries()).take(i as int),
            decreases n - i,
        {
            let ghost prev = uniques.deep_view();
            uniques.push(self.domain_counts[i].0.clone());
            proof {
                assert(uniques.deep_view() =~~= prev.push(self.entries()[i as int].0));
                assert(uniques.deep_view() =~~= keys_of(self.entries()).take(i + 1));
            }
            i = i + 1;
        }
        proof {
            assert(keys_of(self.entries()).take(n as int) =~~= keys_of(self.entries()));
        }
        self.unique_domains = uniques;
        proof {
            lemma_counts_of_contains(self.entries());
            assert(self.counts().dom() =~= keys_of(self.entries()).to_set());
            keys_of(self.entries()).unique_seq_to_set();
        }
    }
}

/// One run's outcome: the formatted date range with its day span, and the
/// domain statistics.
#[derive(Debug)]
pub struct AnalysisResult {
    pub date_range: (String, String, i64),
    pub stats: DomainStats,
}

} // verus!

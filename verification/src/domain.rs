//! Hostname validation and canonicalization: TLD validation, hierarchical
//! truncation to the last three labels, and ordered first-match-wins
//! pattern collapsing.

use crate::patterns::capture1_of;
use crate::patterns::DomainPattern;
use crate::text::join_with;
use crate::text::split_char;
use crate::text::split_on;
use vstd::prelude::*;

verus! {

/// Index of the last occurrence of `c` in `s`, or `-1` when `c` does not
/// occur.
pub open spec fn last_index_of(s: Seq<char>, c: char) -> int
    decreases s.len(),
{
    if s.len() == 0 {
        -1
    } else if s.last() == c {
        s.len() - 1
    } else {
        last_index_of(s.drop_last(), c)
    }
}

pub proof fn lemma_last_index_of(s: Seq<char>, c: char)
    ensures
        -1 <= last_index_of(s, c) < s.len(),
        last_index_of(s, c) >= 0 ==> s[last_index_of(s, c)] == c,
        forall|j: int| last_index_of(s, c) < j < s.len() ==> s[j] != c,
    decreases s.len(),
{
    if s.len() > 0 && s.last() != c {
        lemma_last_index_of(s.drop_last(), c);
        assert forall|j: int| last_index_of(s, c) < j < s.len() implies s[j] != c by {
            if j < s.len() - 1 {
                assert(s.drop_last()[j] == s[j]);
            }
        }
    }
}

proof fn lemma_last_index_of_at(s: Seq<char>, c: char, j: int)
    requires
        -1 <= j < s.len(),
        j >= 0 ==> s[j] == c,
        forall|k: int| j < k < s.len() ==> s[k] != c,
    ensures
        last_index_of(s, c) == j,
    decreases s.len(),
{
    if s.len() > 0 {
        if j == s.len() - 1 {
        } else {
            lemma_last_index_of_at(s.drop_last(), c, j);
        }
    }
}

/// A lowercase ASCII letter.
pub open spec fn is_lower_alpha(c: char) -> bool {
    97 <= c as u32 <= 122
}

/// The final label of `s`: everything after the last `'.'`.
pub open spec fn spec_tld(s: Seq<char>) -> Seq<char> {
    s.skip(last_index_of(s, '.') + 1)
}

/// A valid domain key: at least three characters, a dot, and a final label
/// of at least two characters, all lowercase ASCII letters.  This rejects
/// hostnames without a dot, trailing-dot hostnames, digits-only or
/// mixed-case TLDs, and punycode (`xn--`) TLDs.
pub open spec fn spec_has_valid_tld(s: Seq<char>) -> bool {
    &&& s.len() >= 3
    &&& last_index_of(s, '.') >= 0
    &&& spec_tld(s).len() >= 2
    &&& forall|i: int| 0 <= i < spec_tld(s).len() ==> is_lower_alpha(#[trigger] spec_tld(s)[i])
}

/// Decides `spec_has_valid_tld` on a hostname.
pub fn has_valid_tld(domain: &str) -> (r: bool)
    ensures
        r == spec_has_valid_tld(domain@),
{
    let n = domain.unicode_len();
    if n < 3 {
        return false;
    }
    let mut found = false;
    let mut last_dot: usize = 0;
    let mut i: usize = 0;
    while i < n
        invariant
            i <= n,
            n == domain@.len(),
            found ==> last_dot < i && domain@[last_dot as int] == '.',
            found ==> forall|j: int| last_dot < j < i ==> domain@[j] != '.',
            !found ==> forall|j: int| 0 <= j < i ==> domain@[j] != '.',
        decreases n - i,
    {
        if domain.get_char(i) == '.' {
            found = true;
            last_dot = i;
        }
        i = i + 1;
    }
    if !found {
        proof {
            lemma_last_index_of_at(domain@, '.', -1);
        }
        return false;
    }
    proof {
        lemma_last_index_of_at(domain@, '.', last_dot as int);
    }
    if n - last_dot - 1 < 2 {
        return false;
    }
    let mut k: usize = last_dot + 1;
    while k < n
        invariant
            last_dot < k <= n,
            n == domain@.len(),
            last_index_of(domain@, '.') == last_dot as int,
            forall|j: int|
                last_dot < j < k ==> is_lower_alpha(#[trigger] domain@[j]),
        decreases n - k,
    {
        let c = domain.get_char(k);
        let u = c as u32;
        if u < 97 || u > 122 {
            proof {
                assert(spec_tld(domain@)[k - last_dot - 1] == domain@[k as int]);
            }
            return false;
        }
        k = k + 1;
    }
    proof {
        assert forall|i2: int| 0 <= i2 < spec_tld(domain@).len() implies is_lower_alpha(
            #[trigger] spec_tld(domain@)[i2],
        ) by {
            assert(spec_tld(domain@)[i2] == domain@[i2 + last_dot + 1]);
        }
    }
    true
}

/// The shapes `spec_has_valid_tld` rejects: no dot anywhere, a trailing
/// dot, a final label shorter than two characters, or a final label with a
/// character that is not a lowercase ASCII letter.
pub proof fn lemma_invalid_domain_shapes(s: Seq<char>)
    ensures
        (forall|i: int| 0 <= i < s.len() ==> s[i] != '.') ==> !spec_has_valid_tld(s),
        s.len() > 0 && s.last() == '.' ==> !spec_has_valid_tld(s),
        spec_tld(s).len() < 2 ==> !spec_has_valid_tld(s),
        (exists|i: int| 0 <= i < spec_tld(s).len() && !is_lower_alpha(#[trigger] spec_tld(s)[i]))
            ==> !spec_has_valid_tld(s),
{
    lemma_last_index_of(s, '.');
    if s.len() > 0 && s.last() == '.' {
        assert(last_index_of(s, '.') == s.len() - 1);
        assert(spec_tld(s).len() == 0);
    }
}

/// `s` truncated to its last three labels; a value of at most three labels
/// passes through unchanged.
pub open spec fn spec_truncate(s: Seq<char>) -> Seq<char> {
    let parts = split_on(s, '.');
    if parts.len() <= 3 {
        s
    } else {
        join_with(parts.skip(parts.len() - 3), '.')
    }
}

/// Whether a pattern replaces `t`: its group 1 captures non-empty text.
pub open spec fn pattern_hits(pat: Seq<char>, t: Seq<char>) -> bool {
    capture1_of(pat, t) matches Some(c) && c.len() > 0
}

/// The result of running the ordered pattern list against `t`: the first
/// pattern whose group 1 captures non-empty text replaces `t` with the
/// captured text, short-circuiting the rest; a pattern that does not
/// match, or whose capture is empty, is passed over, and with no hit `t`
/// stands.
pub open spec fn apply_patterns(t: Seq<char>, pats: Seq<Seq<char>>) -> Seq<char>
    decreases pats.len(),
{
    if pats.len() == 0 {
        t
    } else if pattern_hits(pats[0], t) {
        capture1_of(pats[0], t)->Some_0
    } else {
        apply_patterns(t, pats.skip(1))
    }
}

/// The canonical domain key of `s` under the ordered pattern list `pats`:
/// the empty string passes through; otherwise `s` is truncated to its last
/// three labels and the first pattern capturing non-empty text replaces it.
pub open spec fn spec_normalize(s: Seq<char>, pats: Seq<Seq<char>>) -> Seq<char> {
    if s.len() == 0 {
        s
    } else {
        apply_patterns(spec_truncate(s), pats)
    }
}

/// Pattern order encodes priority: if no pattern before `i` captures
/// non-empty text and pattern `i` does, the list's result is pattern `i`'s
/// capture, whatever the patterns after `i` would do.
pub proof fn lemma_first_pattern_wins(t: Seq<char>, pats: Seq<Seq<char>>, i: int)
    requires
        0 <= i < pats.len(),
        forall|j: int| 0 <= j < i ==> !pattern_hits(#[trigger] pats[j], t),
        pattern_hits(pats[i], t),
    ensures
        apply_patterns(t, pats) == capture1_of(pats[i], t)->Some_0,
    decreases i,
{
    if i > 0 {
        lemma_first_pattern_wins(t, pats.skip(1), i - 1);
    }
}

/// Canonicalizes a hostname: `spec_normalize` on the view.
pub fn normalize_domain(domain: &str, patterns: &Vec<DomainPattern>) -> (r: String)
    ensures
        r@ == spec_normalize(domain@, patterns.deep_view()),
{
    if domain.is_empty() {
        return String::from_str(domain);
    }
    let parts = split_char(domain, '.');
    let truncated: String = if parts.len() <= 3 {
        String::from_str(domain)
    } else {
        let n = parts.len();
        let ghost q = split_on(domain@, '.').skip(n - 3);
        proof {
            reveal_strlit(".");
            assert("."@ =~= seq!['.']);
            assert(q.len() == 3);
        }
        let piece = parts[n - 3].clone();
        let piece = piece.concat(".");
        let piece = piece.concat(parts[n - 2].as_str());
        let piece = piece.concat(".");
        let piece = piece.concat(parts[n - 1].as_str());
        proof {
            let d1 = q.drop_last();
            let d2 = d1.drop_last();
            assert(join_with(d2, '.') == d2[0]);
            assert(join_with(d1, '.') == d2[0] + seq!['.'] + d1.last());
            assert(join_with(q, '.') == join_with(d1, '.') + seq!['.'] + q.last());
            assert(d2[0] == q[0] && d1.last() == q[1] && q.last() == q[2]);
            assert(q[0] == split_on(domain@, '.')[n - 3]);
            assert(q[1] == split_on(domain@, '.')[n - 2]);
            assert(q[2] == split_on(domain@, '.')[n - 1]);
            assert(piece@ =~= join_with(q, '.'));
        }
        piece
    };
    proof {
        assert(truncated@ == spec_truncate(domain@));
    }
    let ghost pv = patterns.deep_view();
    proof {
        assert(pv.skip(0) =~~= pv);
    }
    let mut i: usize = 0;
    while i < patterns.len()
        invariant
            pv == patterns.deep_view(),
            i <= pv.len(),
            pv.len() == patterns@.len(),
            truncated@ == spec_truncate(domain@),
            domain@.len() > 0,
            apply_patterns(truncated@, pv) == apply_patterns(truncated@, pv.skip(i as int)),
        decreases patterns.len() - i,
    {
        proof {
            assert(pv.skip(i as int)[0] == pv[i as int]);
            assert(pv.skip(i as int).skip(1) =~~= pv.skip(i + 1));
        }
        match patterns[i].capture1(truncated.as_str()) {
            Some(c) => {
                if !c.as_str().is_empty() {
                    return c;
                }
            },
            None => {},
        }
        i = i + 1;
    }
    proof {
        assert(pv.skip(pv.len() as int) =~~= Seq::<Seq<char>>::empty());
    }
    truncated
}

} // verus!

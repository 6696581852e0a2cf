//! Character-level string utilities: splitting, joining, trimming,
//! substring search, and line splitting, each with an exact specification
//! over `Seq<char>`.

use vstd::prelude::*;

verus! {

/// The pieces of `s` between occurrences of `sep`, in order.  Splitting the
/// empty sequence gives one empty piece, as `str::split` does.
pub open spec fn split_on(s: Seq<char>, sep: char) -> Seq<Seq<char>>
    decreases s.len(),
{
    if s.len() == 0 {
        seq![Seq::<char>::empty()]
    } else if s[0] == sep {
        seq![Seq::<char>::empty()] + split_on(s.skip(1), sep)
    } else {
        let rest = split_on(s.skip(1), sep);
        rest.update(0, seq![s[0]] + rest[0])
    }
}

pub proof fn lemma_split_on_nonempty(s: Seq<char>, sep: char)
    ensures
        split_on(s, sep).len() >= 1,
    decreases s.len(),
{
    if s.len() > 0 {
        lemma_split_on_nonempty(s.skip(1), sep);
    }
}

/// Splitting at the first separator: if no separator occurs before `j` and
/// `j` is either a separator position or the end, the split decomposes there.
pub proof fn lemma_split_at_first(s: Seq<char>, sep: char, j: int)
    requires
        0 <= j <= s.len(),
        forall|i: int| 0 <= i < j ==> s[i] != sep,
        j < s.len() ==> s[j] == sep,
    ensures
        j == s.len() ==> split_on(s, sep) == seq![s],
        j < s.len() ==> split_on(s, sep) == seq![s.take(j)] + split_on(s.skip(j + 1), sep),
    decreases j, s.len(),
{
    lemma_split_on_nonempty(s, sep);
    if j == 0 {
        if s.len() == 0 {
            assert(split_on(s, sep) =~~= seq![s]);
        } else {
            assert(s[0] == sep);
            assert(s.take(0) =~= Seq::<char>::empty());
            assert(split_on(s, sep) =~~= seq![s.take(0)] + split_on(s.skip(1), sep));
        }
    } else {
        assert(s[0] != sep);
        let rest = split_on(s.skip(1), sep);
        lemma_split_on_nonempty(s.skip(1), sep);
        lemma_split_at_first(s.skip(1), sep, j - 1);
        if j == s.len() {
            assert(rest == seq![s.skip(1)]);
            assert(split_on(s, sep) =~~= seq![s]) by {
                assert(seq![s[0]] + s.skip(1) =~= s);
            }
        } else {
            assert(s.skip(1)[j - 1] == s[j]);
            assert(rest == seq![s.skip(1).take(j - 1)] + split_on(s.skip(1).skip(j), sep));
            assert(s.skip(1).skip(j) =~= s.skip(j + 1));
            assert(seq![s[0]] + s.skip(1).take(j - 1) =~= s.take(j));
            assert(split_on(s, sep) =~~= seq![s.take(j)] + split_on(s.skip(j + 1), sep));
        }
    }
}

/// The parts joined back together with `sep` between them.
pub open spec fn join_with(parts: Seq<Seq<char>>, sep: char) -> Seq<char>
    decreases parts.len(),
{
    if parts.len() == 0 {
        Seq::<char>::empty()
    } else if parts.len() == 1 {
        parts[0]
    } else {
        join_with(parts.drop_last(), sep) + seq![sep] + parts.last()
    }
}

/// Splits `s` on `sep`, as `str::split` does.
pub fn split_char(s: &str, sep: char) -> (parts: Vec<String>)
    ensures
        parts.deep_view() == split_on(s@, sep),
        parts@.len() >= 1,
{
    let n = s.unicode_len();
    let mut parts: Vec<String> = Vec::new();
    let mut start: usize = 0;
    let mut i: usize = 0;
    proof {
        assert(s@.skip(0) =~= s@);
        assert(parts.deep_view() + split_on(s@, sep) =~~= split_on(s@, sep));
    }
    while i < n
        invariant
            start <= i <= n,
            n == s@.len(),
            forall|j: int| start <= j < i ==> s@[j] != sep,
            split_on(s@, sep) =~~= parts.deep_view() + split_on(s@.skip(start as int), sep),
        decreases n - i,
    {
        if s.get_char(i) == sep {
            let piece = s.substring_char(start, i);
            let ghost prev = parts.deep_view();
            proof {
                lemma_split_at_first(s@.skip(start as int), sep, i - start);
                assert(s@.skip(start as int).take(i - start) =~= s@.subrange(
                    start as int,
                    i as int,
                ));
                assert(s@.skip(start as int).skip(i - start + 1) =~= s@.skip(i + 1));
            }
            parts.push(String::from_str(piece));
            proof {
                assert(parts.deep_view() =~~= prev.push(s@.subrange(start as int, i as int)));
                assert(parts.deep_view() + split_on(s@.skip(i + 1), sep) =~~= prev + (seq![
                    s@.subrange(start as int, i as int),
                ] + split_on(s@.skip(i + 1), sep)));
            }
            start = i + 1;
        }
        i = i + 1;
    }
    let piece = s.substring_char(start, n);
    let ghost prev = parts.deep_view();
    proof {
        lemma_split_at_first(s@.skip(start as int), sep, n - start);
        assert(s@.subrange(start as int, n as int) =~= s@.skip(start as int));
    }
    parts.push(String::from_str(piece));
    proof {
        assert(parts.deep_view() =~~= prev.push(s@.skip(start as int)));
        assert(parts.deep_view() =~~= split_on(s@, sep));
    }
    parts
}

/// A character with the Unicode `White_Space` property; these are exactly
/// the characters `str::trim` removes.
pub open spec fn is_space_char(c: char) -> bool {
    c == ' ' || c == '\t' || c == '\n' || c == '\r' || c == '\u{b}' || c == '\u{c}' || c
        == '\u{85}' || c == '\u{a0}' || c == '\u{1680}' || c == '\u{2000}' || c == '\u{2001}' || c
        == '\u{2002}' || c == '\u{2003}' || c == '\u{2004}' || c == '\u{2005}' || c == '\u{2006}'
        || c == '\u{2007}' || c == '\u{2008}' || c == '\u{2009}' || c == '\u{200a}' || c
        == '\u{2028}' || c == '\u{2029}' || c == '\u{202f}' || c == '\u{205f}' || c == '\u{3000}'
}

fn is_space(c: char) -> (r: bool)
    ensures
        r == is_space_char(c),
{
    c == ' ' || c == '\t' || c == '\n' || c == '\r' || c == '\u{b}' || c == '\u{c}' || c
        == '\u{85}' || c == '\u{a0}' || c == '\u{1680}' || c == '\u{2000}' || c == '\u{2001}' || c
        == '\u{2002}' || c == '\u{2003}' || c == '\u{2004}' || c == '\u{2005}' || c == '\u{2006}'
        || c == '\u{2007}' || c == '\u{2008}' || c == '\u{2009}' || c == '\u{200a}' || c
        == '\u{2028}' || c == '\u{2029}' || c == '\u{202f}' || c == '\u{205f}' || c == '\u{3000}'
}

/// `s` without leading whitespace.
pub open spec fn spec_trim_start(s: Seq<char>) -> Seq<char>
    decreases s.len(),
{
    if s.len() > 0 && is_space_char(s[0]) {
        spec_trim_start(s.skip(1))
    } else {
        s
    }
}

/// `s` without trailing whitespace.
pub open spec fn spec_trim_end(s: Seq<char>) -> Seq<char>
    decreases s.len(),
{
    if s.len() > 0 && is_space_char(s.last()) {
        spec_trim_end(s.drop_last())
    } else {
        s
    }
}

/// `s` without leading and trailing whitespace, as `str::trim` returns it.
pub open spec fn spec_trim(s: Seq<char>) -> Seq<char> {
    spec_trim_end(spec_trim_start(s))
}

proof fn lemma_trim_start_at(s: Seq<char>, a: int)
    requires
        0 <= a <= s.len(),
        forall|i: int| 0 <= i < a ==> is_space_char(s[i]),
        a < s.len() ==> !is_space_char(s[a]),
    ensures
        spec_trim_start(s) == s.skip(a),
    decreases a,
{
    if a == 0 {
        assert(s.skip(0) =~= s);
    } else {
        lemma_trim_start_at(s.skip(1), a - 1);
        assert(s.skip(1).skip(a - 1) =~= s.skip(a));
    }
}

proof fn lemma_trim_end_at(s: Seq<char>, b: int)
    requires
        0 <= b <= s.len(),
        forall|i: int| b <= i < s.len() ==> is_space_char(s[i]),
        b > 0 ==> !is_space_char(s[b - 1]),
    ensures
        spec_trim_end(s) == s.take(b),
    decreases s.len() - b,
{
    if b == s.len() {
        assert(s.take(b) =~= s);
    } else {
        lemma_trim_end_at(s.drop_last(), b);
        assert(s.drop_last().take(b) =~= s.take(b));
    }
}

/// Removes leading and trailing whitespace, as `str::trim` does.
pub fn trim_str<'a>(s: &'a str) -> (r: &'a str)
    ensures
        r@ == spec_trim(s@),
{
    let n = s.unicode_len();
    let mut a: usize = 0;
    while a < n && is_space(s.get_char(a))
        invariant
            a <= n,
            n == s@.len(),
            forall|i: int| 0 <= i < a ==> is_space_char(s@[i]),
        decreases n - a,
    {
        a = a + 1;
    }
    proof {
        lemma_trim_start_at(s@, a as int);
    }
    let mut b: usize = n;
    while b > a && is_space(s.get_char(b - 1))
        invariant
            a <= b <= n,
            n == s@.len(),
            forall|i: int| b <= i < n ==> is_space_char(s@[i]),
        decreases b,
    {
        b = b - 1;
    }
    proof {
        lemma_trim_end_at(s@.skip(a as int), b - a);
        assert(s@.skip(a as int).take(b - a) =~= s@.subrange(a as int, b as int));
    }
    s.substring_char(a, b)
}

/// `needle` occurs as a contiguous run inside `hay`.
pub open spec fn contains_seq(hay: Seq<char>, needle: Seq<char>) -> bool {
    exists|k: int|
        0 <= k <= hay.len() - needle.len() && #[trigger] hay.subrange(k, k + needle.len())
            == needle
}

/// Substring search, as `str::contains` decides it.
pub fn contains_str(hay: &str, needle: &str) -> (r: bool)
    ensures
        r == contains_seq(hay@, needle@),
{
    let hlen = hay.unicode_len();
    let nlen = needle.unicode_len();
    if nlen > hlen {
        return false;
    }
    let mut k: usize = 0;
    while k <= hlen - nlen
        invariant
            nlen <= hlen,
            hlen == hay@.len(),
            nlen == needle@.len(),
            k <= hlen - nlen + 1,
            forall|k2: int|
                0 <= k2 < k ==> #[trigger] hay@.subrange(k2, k2 + needle@.len() as int)
                    != needle@,
        decreases hlen - nlen + 1 - k,
    {
        let mut i: usize = 0;
        let mut eq = true;
        while i < nlen
            invariant
                k + nlen <= hlen,
                hlen == hay@.len(),
                nlen == needle@.len(),
                i <= nlen,
                eq <==> (forall|j: int| 0 <= j < i ==> hay@[k + j] == needle@[j]),
            decreases nlen - i,
        {
            if hay.get_char(k + i) != needle.get_char(i) {
                eq = false;
            }
            i = i + 1;
        }
        if eq {
            proof {
                assert(hay@.subrange(k as int, k + needle@.len()) =~= needle@);
            }
            return true;
        }
        proof {
            let j = choose|j: int| 0 <= j < nlen && hay@[k + j] != needle@[j];
            assert(hay@.subrange(k as int, k + needle@.len())[j] != needle@[j]);
        }
        k = k + 1;
    }
    false
}

/// `s` begins with `p`.
pub open spec fn starts_with_seq(s: Seq<char>, p: Seq<char>) -> bool {
    p.len() <= s.len() && s.take(p.len() as int) == p
}

/// Prefix test, as `str::starts_with` decides it.
pub fn starts_with_str(s: &str, p: &str) -> (r: bool)
    ensures
        r == starts_with_seq(s@, p@),
{
    let slen = s.unicode_len();
    let plen = p.unicode_len();
    if plen > slen {
        return false;
    }
    let mut i: usize = 0;
    while i < plen
        invariant
            plen <= slen,
            slen == s@.len(),
            plen == p@.len(),
            i <= plen,
            forall|j: int| 0 <= j < i ==> s@[j] == p@[j],
        decreases plen - i,
    {
        if s.get_char(i) != p.get_char(i) {
            proof {
                assert(s@.take(p@.len() as int)[i as int] != p@[i as int]);
            }
            return false;
        }
        i = i + 1;
    }
    proof {
        assert(s@.take(p@.len() as int) =~= p@);
    }
    true
}

/// Character-wise string equality.
pub fn eq_str(a: &str, b: &str) -> (r: bool)
    ensures
        r == (a@ == b@),
{
    let alen = a.unicode_len();
    let blen = b.unicode_len();
    if alen != blen {
        return false;
    }
    let mut i: usize = 0;
    while i < alen
        invariant
            alen == a@.len(),
            alen == b@.len(),
            i <= alen,
            forall|j: int| 0 <= j < i ==> a@[j] == b@[j],
        decreases alen - i,
    {
        if a.get_char(i) != b.get_char(i) {
            return false;
        }
        i = i + 1;
    }
    proof {
        assert(a@ =~= b@);
    }
    true
}

/// A line with one trailing carriage return removed.
pub open spec fn strip_cr(l: Seq<char>) -> Seq<char> {
    if l.len() > 0 && l.last() == '\r' {
        l.drop_last()
    } else {
        l
    }
}

/// All but the last piece of a newline split, each with a trailing `'\r'`
/// removed.
pub open spec fn spec_lines_init(p: Seq<Seq<char>>) -> Seq<Seq<char>> {
    p.take(p.len() - 1).map_values(|l: Seq<char>| strip_cr(l))
}

/// The lines of `s`, as `str::lines` yields them: split on `'\n'`, a
/// carriage return before each newline removed, and a final empty piece
/// (from a trailing newline) dropped.
pub open spec fn spec_lines(s: Seq<char>) -> Seq<Seq<char>> {
    let p = split_on(s, '\n');
    if p.last().len() == 0 {
        spec_lines_init(p)
    } else {
        spec_lines_init(p).push(p.last())
    }
}

/// Splits `s` into lines, as `str::lines` does.
pub fn split_lines(s: &str) -> (lines: Vec<String>)
    ensures
        lines.deep_view() == spec_lines(s@),
{
    let parts = split_char(s, '\n');
    proof {
        lemma_split_on_nonempty(s@, '\n');
    }
    let mut lines: Vec<String> = Vec::new();
    let mut i: usize = 0;
    while i < parts.len() - 1
        invariant
            parts.deep_view() == split_on(s@, '\n'),
            parts@.len() >= 1,
            i <= parts@.len() - 1,
            lines.deep_view() =~~= split_on(s@, '\n').take(i as int).map_values(
                |l: Seq<char>| strip_cr(l),
            ),
        decreases parts.len() - i,
    {
        let part = &parts[i];
        let ghost prev = lines.deep_view();
        let plen = part.as_str().unicode_len();
        if plen > 0 && part.as_str().get_char(plen - 1) == '\r' {
            let stripped = part.as_str().substring_char(0, plen - 1);
            proof {
                assert(part@.subrange(0, plen - 1) =~= part@.drop_last());
            }
            lines.push(String::from_str(stripped));
        } else {
            lines.push(part.clone());
        }
        proof {
            let p = split_on(s@, '\n');
            assert(parts.deep_view()[i as int] == p[i as int]);
            assert(lines.deep_view() =~~= prev.push(strip_cr(p[i as int])));
            assert(lines.deep_view() =~~= p.take(i + 1).map_values(|l: Seq<char>| strip_cr(l)));
        }
        i = i + 1;
    }
    let last = &parts[parts.len() - 1];
    let ghost prev = lines.deep_view();
    proof {
        assert(last@ == split_on(s@, '\n').last());
        assert(prev =~~= spec_lines_init(split_on(s@, '\n')));
    }
    if !last.as_str().is_empty() {
        lines.push(last.clone());
        proof {
            assert(lines.deep_view() =~~= prev.push(split_on(s@, '\n').last()));
        }
    }
    lines
}

} // verus!

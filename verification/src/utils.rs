//! Presentation helpers: decimal rendering with thousands separators, and
//! privacy redaction of domain names.

use crate::text::join_with;
use crate::text::split_char;
use crate::text::split_on;
use vstd::prelude::*;
use vstd::utf8::encode_utf8;

verus! {

/// The decimal digit character of `d`.
pub open spec fn digit_char(d: int) -> char {
    if d == 0 {
        '0'
    } else if d == 1 {
        '1'
    } else if d == 2 {
        '2'
    } else if d == 3 {
        '3'
    } else if d == 4 {
        '4'
    } else if d == 5 {
        '5'
    } else if d == 6 {
        '6'
    } else if d == 7 {
        '7'
    } else if d == 8 {
        '8'
    } else {
        '9'
    }
}

/// The decimal digits of `n`, most significant first.
pub open spec fn spec_digits(n: nat) -> Seq<char>
    decreases n,
{
    if n < 10 {
        seq![digit_char(n as int)]
    } else {
        spec_digits(n / 10).push(digit_char((n % 10) as int))
    }
}

/// `digits` with a comma before each group of three from the right.
pub open spec fn spec_grouped(digits: Seq<char>) -> Seq<char>
    decreases digits.len(),
{
    if digits.len() <= 3 {
        digits
    } else {
        spec_grouped(digits.take(digits.len() - 3)) + seq![','] + digits.skip(digits.len() - 3)
    }
}

fn digit_str(d: u32) -> (r: &'static str)
    requires
        d < 10,
    ensures
        r@ == seq![digit_char(d as int)],
{
    proof {
        reveal_strlit("0");
        reveal_strlit("1");
        reveal_strlit("2");
        reveal_strlit("3");
        reveal_strlit("4");
        reveal_strlit("5");
        reveal_strlit("6");
        reveal_strlit("7");
        reveal_strlit("8");
        reveal_strlit("9");
    }
    match d {
        0 => "0",
        1 => "1",
        2 => "2",
        3 => "3",
        4 => "4",
        5 => "5",
        6 => "6",
        7 => "7",
        8 => "8",
        _ => "9",
    }
}

fn decimal_string(n: u32) -> (r: String)
    ensures
        r@ == spec_digits(n as nat),
    decreases n,
{
    let d = n % 10;
    let ds = digit_str(d);
    if n < 10 {
        String::from_str(ds)
    } else {
        let r = decimal_string(n / 10).concat(ds);
        proof {
            assert(r@ =~= spec_digits((n / 10) as nat).push(digit_char((n % 10) as int)));
        }
        r
    }
}

fn group_digits(s: &str) -> (r: String)
    ensures
        r@ == spec_grouped(s@),
    decreases s@.len(),
{
    let n = s.unicode_len();
    if n <= 3 {
        String::from_str(s)
    } else {
        let head = s.substring_char(0, n - 3);
        let tail = s.substring_char(n - 3, n);
        proof {
            assert(head@ =~= s@.take(n - 3));
            assert(tail@ =~= s@.skip(n - 3));
            reveal_strlit(",");
            assert(","@ =~= seq![',']);
        }
        let r = group_digits(head).concat(",").concat(tail);
        proof {
            assert(r@ =~= spec_grouped(s@.take(n - 3)) + seq![','] + s@.skip(n - 3));
        }
        r
    }
}

/// Renders `num` in decimal with a comma before each group of three
/// digits, counted from the right.
pub fn format_number(num: u32) -> (r: String)
    ensures
        r@ == spec_grouped(spec_digits(num as nat)),
{
    let digits = decimal_string(num);
    group_digits(digits.as_str())
}

/// A run of `n` asterisks.
pub open spec fn stars(n: nat) -> Seq<char> {
    Seq::new(n, |i: int| '*')
}

/// The UTF-8 byte count of a label, as `str::len` reports it.
pub open spec fn label_byte_len(p: Seq<char>) -> usize {
    encode_utf8(p).len() as usize
}

/// Every label masked by asterisks of its own byte length, so the output
/// reveals the lengths and never the characters.
pub open spec fn masked(parts: Seq<Seq<char>>) -> Seq<Seq<char>> {
    parts.map_values(|p: Seq<char>| stars(label_byte_len(p) as nat))
}

/// The redacted rendering of a domain: a single-label value passes
/// through; when the second-to-last label is at most three bytes long the
/// whole front collapses to `???.`; otherwise every label but the last is
/// masked by asterisks of its own byte length.
pub open spec fn spec_redact(s: Seq<char>) -> Seq<char> {
    let parts = split_on(s, '.');
    if parts.len() <= 1 {
        s
    } else if label_byte_len(parts[parts.len() - 2]) <= 3 {
        "???."@ + parts.last()
    } else {
        join_with(masked(parts.take(parts.len() - 1)), '.') + "."@ + parts.last()
    }
}

/// Redaction reveals only the final label and the byte lengths of the
/// earlier labels: two multi-label domains that agree on those redact
/// identically, whatever their masked characters were.
pub proof fn lemma_redact_noninterference(a: Seq<char>, b: Seq<char>)
    requires
        split_on(a, '.').len() == split_on(b, '.').len(),
        split_on(a, '.').len() > 1,
        split_on(a, '.').last() == split_on(b, '.').last(),
        forall|i: int|
            0 <= i < split_on(a, '.').len() - 1 ==> label_byte_len(
                #[trigger] split_on(a, '.')[i],
            ) == label_byte_len(split_on(b, '.')[i]),
    ensures
        spec_redact(a) == spec_redact(b),
{
    let pa = split_on(a, '.');
    let pb = split_on(b, '.');
    assert(masked(pa.take(pa.len() - 1)) =~~= masked(pb.take(pb.len() - 1)));
}

fn make_stars(n: usize) -> (r: String)
    ensures
        r@ == stars(n as nat),
{
    proof {
        reveal_strlit("*");
        assert("*"@ =~= seq!['*']);
    }
    let mut s = String::new();
    let mut i: usize = 0;
    proof {
        assert(s@ =~= stars(0));
    }
    while i < n
        invariant
            i <= n,
            s@ =~= stars(i as nat),
            "*"@ == seq!['*'],
        decreases n - i,
    {
        s.append("*");
        i = i + 1;
        proof {
            assert(s@ =~= stars(i as nat));
        }
    }
    s
}

/// Redacts a domain for display, keeping only its final label readable.
pub fn redact_domain(domain: &str) -> (r: String)
    ensures
        r@ == spec_redact(domain@),
{
    let parts = split_char(domain, '.');
    let n = parts.len();
    if n <= 1 {
        return String::from_str(domain);
    }
    if parts[n - 2].as_str().len() <= 3 {
        return String::from_str("???.").concat(parts[n - 1].as_str());
    }
    let ghost mp = masked(split_on(domain@, '.').take(n - 1));
    let mut acc = String::new();
    let mut i: usize = 0;
    proof {
        reveal_strlit(".");
        assert("."@ =~= seq!['.']);
        assert(acc@ =~= join_with(mp.take(0), '.'));
    }
    while i < n - 1
        invariant
            i <= n - 1,
            n == parts@.len(),
            n >= 2,
            parts.deep_view() == split_on(domain@, '.'),
            mp == masked(split_on(domain@, '.').take(n - 1)),
            acc@ =~= join_with(mp.take(i as int), '.'),
            "."@ == seq!['.'],
        decreases n - 1 - i,
    {
        if i > 0 {
            acc = acc.concat(".");
        }
        let star_run = make_stars(parts[i].as_str().len());
        acc = acc.concat(star_run.as_str());
        proof {
            assert(mp[i as int] == stars(
                label_byte_len(split_on(domain@, '.')[i as int]) as nat,
            ));
            assert(mp.take(i + 1).drop_last() =~= mp.take(i as int));
            assert(acc@ =~= join_with(mp.take(i + 1), '.'));
        }
        i = i + 1;
    }
    proof {
        assert(mp.take(n - 1) =~= mp);
    }
    acc.concat(".").concat(parts[n - 1].as_str())
}

} // verus!

//! Compiled domain-normalization patterns and the rules for loading a
//! pattern list: blank lines and `#` comments are skipped, and a pattern
//! that does not compile is a hard failure for an explicitly supplied list
//! but only a skip for a default one.

use crate::errors::AnalysisError;
use crate::text::spec_trim;
use crate::text::trim_str;
use vstd::prelude::*;

verus! {

/// Verus-visible declaration of `regex::Regex`.
#[verifier::external_type_specification]
#[verifier::external_body]
pub struct ExRegex(regex::Regex);

/// Whether `src` is a pattern `regex::Regex::new` accepts.
pub uninterp spec fn regex_compiles(src: Seq<char>) -> bool;

/// The text captured by group 1 when the pattern compiled from `pat` runs
/// against `text`: `None` when the pattern does not match or group 1 takes
/// no part in the match.
pub uninterp spec fn capture1_of(pat: Seq<char>, text: Seq<char>) -> Option<Seq<char>>;

/// A compiled normalization pattern, paired with the text it was compiled
/// from.  `compile` is the only constructor, so the compiled regex always
/// belongs to the source text the view shows.
#[derive(Debug)]
pub struct DomainPattern {
    src: String,
    re: regex::Regex,
}

impl View for DomainPattern {
    type V = Seq<char>;

    closed spec fn view(&self) -> Seq<char> {
        self.src@
    }
}

impl DeepView for DomainPattern {
    type V = Seq<char>;

    open spec fn deep_view(&self) -> Seq<char> {
        self.view()
    }
}

impl DomainPattern {
    /// Relies on `regex::Regex::new`: it accepts exactly the valid patterns
    /// (within the default size limit), deciding by the pattern text alone.
    #[verifier::external_body]
    pub(crate) fn compile(src: &str) -> (r: Option<DomainPattern>)
        ensures
            r is Some <==> regex_compiles(src@),
            r matches Some(p) ==> p@ == src@,
    {
        match regex::Regex::new(src) {
            Ok(re) => Some(DomainPattern { src: src.to_string(), re }),
            Err(_) => None,
        }
    }

    /// The pattern text this value was compiled from.
    pub fn source(&self) -> (r: &str)
        ensures
            r@ == self@,
    {
        self.src.as_str()
    }

    /// Relies on `regex::Regex::captures` and `regex::Captures::get`: the
    /// capture of group 1 is a function of the pattern and the text alone,
    /// present exactly when the pattern matches and group 1 participates.
    #[verifier::external_body]
    pub(crate) fn capture1(&self, text: &str) -> (r: Option<String>)
        ensures
            r matches Some(c) ==> capture1_of(self@, text@) == Some(c@),
            r is None ==> capture1_of(self@, text@) is None,
    {
        self.re.captures(text).and_then(|c| c.get(1)).map(|m| m.as_str().to_string())
    }
}

/// A line that names a pattern once trimmed: non-blank and not a comment.
pub open spec fn is_pattern_line(line: Seq<char>) -> bool {
    spec_trim(line).len() > 0 && spec_trim(line)[0] != '#'
}

/// The trimmed pattern sources of `lines`, in order, blank lines and
/// comments dropped.
pub open spec fn pattern_sources(lines: Seq<Seq<char>>) -> Seq<Seq<char>>
    decreases lines.len(),
{
    if lines.len() == 0 {
        Seq::<Seq<char>>::empty()
    } else {
        let rest = pattern_sources(lines.drop_last());
        if is_pattern_line(lines.last()) {
            rest.push(spec_trim(lines.last()))
        } else {
            rest
        }
    }
}

/// Those of the trimmed pattern sources that compile.
pub open spec fn compiling_sources(lines: Seq<Seq<char>>) -> Seq<Seq<char>>
    decreases lines.len(),
{
    if lines.len() == 0 {
        Seq::<Seq<char>>::empty()
    } else {
        let rest = compiling_sources(lines.drop_last());
        if is_pattern_line(lines.last()) && regex_compiles(spec_trim(lines.last())) {
            rest.push(spec_trim(lines.last()))
        } else {
            rest
        }
    }
}

/// Index of the first pattern line whose trimmed text does not compile.
pub open spec fn first_bad_line(lines: Seq<Seq<char>>) -> Option<int>
    decreases lines.len(),
{
    if lines.len() == 0 {
        None
    } else if is_pattern_line(lines[0]) && !regex_compiles(spec_trim(lines[0])) {
        Some(0int)
    } else {
        match first_bad_line(lines.skip(1)) {
            Some(i) => Some(i + 1),
            None => None,
        }
    }
}

proof fn lemma_first_bad_line_at(lines: Seq<Seq<char>>, i: int)
    requires
        0 <= i <= lines.len(),
        forall|j: int|
            0 <= j < i ==> (is_pattern_line(#[trigger] lines[j]) ==> regex_compiles(
                spec_trim(lines[j]),
            )),
        i < lines.len() ==> is_pattern_line(lines[i]) && !regex_compiles(spec_trim(lines[i])),
    ensures
        i == lines.len() ==> first_bad_line(lines) is None,
        i < lines.len() ==> first_bad_line(lines) == Some(i),
    decreases i, lines.len(),
{
    if lines.len() == 0 {
    } else if i == 0 {
        if i < lines.len() {
        } else {
        }
    } else {
        lemma_first_bad_line_at(lines.skip(1), i - 1);
    }
}

/// Compiles a list of pattern lines.  With `strict` set (an explicitly
/// supplied pattern file) the first non-compiling pattern line fails the
/// whole list, reporting its 1-based line number; otherwise (a default
/// file) non-compiling patterns are merely skipped.
pub fn compile_pattern_lines(lines: &Vec<String>, strict: bool) -> (r: Result<
    Vec<DomainPattern>,
    AnalysisError,
>)
    ensures
        r matches Ok(ps) ==> ps.deep_view() == (if strict {
            pattern_sources(lines.deep_view())
        } else {
            compiling_sources(lines.deep_view())
        }),
        strict ==> ((r is Ok) <==> first_bad_line(lines.deep_view()) is None),
        strict ==> (r matches Err(e) ==> first_bad_line(lines.deep_view()) matches Some(i) && e
            == (AnalysisError::InvalidPattern { line: (i + 1) as usize })),
        !strict ==> r is Ok,
{
    let ghost lv = lines.deep_view();
    let mut pats: Vec<DomainPattern> = Vec::new();
    let mut i: usize = 0;
    while i < lines.len()
        invariant
            lv == lines.deep_view(),
            lv.len() == lines@.len(),
            i <= lv.len(),
            strict ==> pats.deep_view() =~~= pattern_sources(lv.take(i as int)),
            !strict ==> pats.deep_view() =~~= compiling_sources(lv.take(i as int)),
            strict ==> forall|j: int|
                0 <= j < i ==> (is_pattern_line(#[trigger] lv[j]) ==> regex_compiles(
                    spec_trim(lv[j]),
                )),
        decreases lines.len() - i,
    {
        let line = &lines[i];
        let trimmed = trim_str(line.as_str());
        proof {
            assert(lv[i as int] == line@);
            assert(lv.take(i + 1).drop_last() =~~= lv.take(i as int));
            assert(lv.take(i + 1).last() == lv[i as int]);
        }
        let ghost prev = pats.deep_view();
        if !trimmed.is_empty() && trimmed.get_char(0) != '#' {
            match DomainPattern::compile(trimmed) {
                Some(p) => {
                    pats.push(p);
                    proof {
                        assert(pats.deep_view() =~~= prev.push(spec_trim(line@)));
                    }
                },
                None => {
                    if strict {
                        proof {
                            lemma_first_bad_line_at(lv, i as int);
                        }
                        return Err(AnalysisError::InvalidPattern { line: i + 1 });
                    }
                },
            }
        }
        i = i + 1;
    }
    proof {
        assert(lv.take(lv.len() as int) =~~= lv);
        if strict {
            lemma_first_bad_line_at(lv, lv.len() as int);
        }
    }
    Ok(pats)
}

/// The built-in normalization patterns: each collapses the subdomains of a
/// hosting or CDN provider into the provider's own domain.
pub fn default_pattern_sources() -> (r: Vec<&'static str>)
    ensures
        r@.len() == 24,
        r@[0]@ == r"^.+\.(cloudfront\.net)$"@,
        r@[1]@ == r"^.+\.(amazonaws\.com)$"@,
        r@[2]@ == r"^.+\.(herokuapp\.com)$"@,
        r@[3]@ == r"^.+\.(netlify\.app)$"@,
        r@[4]@ == r"^.+\.(vercel\.app)$"@,
        r@[5]@ == r"^.+\.(github\.io)$"@,
        r@[6]@ == r"^.+\.(firebaseapp\.com)$"@,
        r@[7]@ == r"^.+\.(appspot\.com)$"@,
        r@[8]@ == r"^.+\.(azurewebsites\.net)$"@,
        r@[9]@ == r"^.+\.(cloudflare\.com)$"@,
        r@[10]@ == r"^.+\.(fastly\.com)$"@,
        r@[11]@ == r"^.+\.(cdn\.com)$"@,
        r@[12]@ == r"^.+\.(cdn\.net)$"@,
        r@[13]@ == r"^.+\.(cdn\.org)$"@,
        r@[14]@ == r"^.+\.(s3\.amazonaws\.com)$"@,
        r@[15]@ == r"^.+\.(s3-website-[^.]+\.amazonaws\.com)$"@,
        r@[16]@ == r"^.+\.(elasticbeanstalk\.com)$"@,
        r@[17]@ == r"^.+\.(railway\.app)$"@,
        r@[18]@ == r"^.+\.(render\.com)$"@,
        r@[19]@ == r"^.+\.(fly\.io)$"@,
        r@[20]@ == r"^.+\.(digitaloceanspaces\.com)$"@,
        r@[21]@ == r"^.+\.(bunnycdn\.com)$"@,
        r@[22]@ == r"^.+\.(stackpathcdn\.com)$"@,
        r@[23]@ == r"^.+\.(keycdn\.com)$"@,
{
    let mut v: Vec<&'static str> = Vec::new();
    v.push(r"^.+\.(cloudfront\.net)$");
    v.push(r"^.+\.(amazonaws\.com)$");
    v.push(r"^.+\.(herokuapp\.com)$");
    v.push(r"^.+\.(netlify\.app)$");
    v.push(r"^.+\.(vercel\.app)$");
    v.push(r"^.+\.(github\.io)$");
    v.push(r"^.+\.(firebaseapp\.com)$");
    v.push(r"^.+\.(appspot\.com)$");
    v.push(r"^.+\.(azurewebsites\.net)$");
    v.push(r"^.+\.(cloudflare\.com)$");
    v.push(r"^.+\.(fastly\.com)$");
    v.push(r"^.+\.(cdn\.com)$");
    v.push(r"^.+\.(cdn\.net)$");
    v.push(r"^.+\.(cdn\.org)$");
    v.push(r"^.+\.(s3\.amazonaws\.com)$");
    v.push(r"^.+\.(s3-website-[^.]+\.amazonaws\.com)$");
    v.push(r"^.+\.(elasticbeanstalk\.com)$");
    v.push(r"^.+\.(railway\.app)$");
    v.push(r"^.+\.(render\.com)$");
    v.push(r"^.+\.(fly\.io)$");
    v.push(r"^.+\.(digitaloceanspaces\.com)$");
    v.push(r"^.+\.(bunnycdn\.com)$");
    v.push(r"^.+\.(stackpathcdn\.com)$");
    v.push(r"^.+\.(keycdn\.com)$");
    v
}

} // verus!

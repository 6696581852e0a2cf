//! The profile resolver: the static browser-by-OS history path table, the
//! profile registry (INI) parser, and the three-rule profile selection.

use crate::args::Browser;
use crate::errors::AnalysisError;
use crate::text::contains_seq;
use crate::text::contains_str;
use crate::text::eq_str;
use crate::text::spec_lines;
use crate::text::spec_trim;
use crate::text::split_lines;
use crate::text::starts_with_seq;
use crate::text::starts_with_str;
use crate::text::trim_str;
use vstd::prelude::*;

verus! {

/// One profile of the registry: its section name and its relative storage
/// path.
#[derive(Debug)]
pub struct ProfileEntry {
    pub name: String,
    pub path: String,
}

impl View for ProfileEntry {
    type V = (Seq<char>, Seq<char>);

    open spec fn view(&self) -> (Seq<char>, Seq<char>) {
        (self.name@, self.path@)
    }
}

impl DeepView for ProfileEntry {
    type V = (Seq<char>, Seq<char>);

    open spec fn deep_view(&self) -> (Seq<char>, Seq<char>) {
        self.view()
    }
}

/// A trimmed line that opens a section: `[` first, `]` last.
pub open spec fn is_section_header(l: Seq<char>) -> bool {
    l.len() > 0 && l[0] == '[' && l.last() == ']'
}

/// The value of a `Path=` line: everything after the `Path=` prefix,
/// trimmed.
pub open spec fn path_value(l: Seq<char>) -> Seq<char> {
    spec_trim(l.skip(5))
}

/// `es` with the entry named `name` set to `v`: overwritten in place when
/// the name exists, appended otherwise, keeping first-insertion order.
pub open spec fn upsert(
    es: Seq<(Seq<char>, Seq<char>)>,
    name: Seq<char>,
    v: Seq<char>,
) -> Seq<(Seq<char>, Seq<char>)>
    decreases es.len(),
{
    if es.len() == 0 {
        seq![(name, v)]
    } else if es[0].0 == name {
        seq![(name, v)] + es.skip(1)
    } else {
        seq![es[0]] + upsert(es.skip(1), name, v)
    }
}

proof fn lemma_upsert_at(es: Seq<(Seq<char>, Seq<char>)>, name: Seq<char>, v: Seq<char>, j: int)
    requires
        0 <= j <= es.len(),
        forall|i: int| 0 <= i < j ==> (#[trigger] es[i]).0 != name,
        j < es.len() ==> es[j].0 == name,
    ensures
        j == es.len() ==> upsert(es, name, v) == es.push((name, v)),
        j < es.len() ==> upsert(es, name, v) == es.update(j, (name, v)),
    decreases j, es.len(),
{
    if es.len() == 0 {
        assert(upsert(es, name, v) =~= es.push((name, v)));
    } else if j == 0 {
        if j < es.len() {
            assert(upsert(es, name, v) =~= es.update(0, (name, v)));
        }
    } else {
        assert(es[0].0 != name);
        lemma_upsert_at(es.skip(1), name, v, j - 1);
        if j == es.len() {
            assert(seq![es[0]] + es.skip(1).push((name, v)) =~= es.push((name, v)));
        } else {
            assert(es.skip(1)[j - 1] == es[j]);
            assert(seq![es[0]] + es.skip(1).update(j - 1, (name, v)) =~= es.update(j, (name, v)));
        }
    }
}

/// The parser state after reading `lines`: the open section, and the
/// (section, path) entries collected so far.  A `[Name]` line opens a
/// section; a `Path=` line inside a section records its trimmed value,
/// overwriting the section's earlier one; every other line is ignored.
pub open spec fn ini_state(lines: Seq<Seq<char>>) -> (Option<Seq<char>>, Seq<
    (Seq<char>, Seq<char>),
>)
    decreases lines.len(),
{
    if lines.len() == 0 {
        (None, Seq::<(Seq<char>, Seq<char>)>::empty())
    } else {
        let prev = ini_state(lines.drop_last());
        let l = spec_trim(lines.last());
        if is_section_header(l) {
            (Some(l.subrange(1, l.len() - 1)), prev.1)
        } else if prev.0 is Some && starts_with_seq(l, "Path="@) {
            (prev.0, upsert(prev.1, prev.0->Some_0, path_value(l)))
        } else {
            prev
        }
    }
}

/// Sets the entry named `name` to `value`, in place or appended.
fn upsert_entry(entries: &mut Vec<ProfileEntry>, name: &str, value: &str)
    ensures
        final(entries).deep_view() == upsert(old(entries).deep_view(), name@, value@),
{
    let n = entries.len();
    let mut j: usize = 0;
    while j < n
        invariant
            j <= n,
            n == entries@.len(),
            *entries == *old(entries),
            forall|i: int| 0 <= i < j ==> (#[trigger] entries.deep_view()[i]).0 != name@,
        decreases n - j,
    {
        if eq_str(entries[j].name.as_str(), name) {
            let ghost olde = entries.deep_view();
            proof {
                lemma_upsert_at(olde, name@, value@, j as int);
            }
            let kept_name = entries[j].name.clone();
            entries.set(j, ProfileEntry { name: kept_name, path: String::from_str(value) });
            proof {
                assert(entries.deep_view() =~~= olde.update(j as int, (name@, value@)));
            }
            return ;
        }
        j = j + 1;
    }
    let ghost olde = entries.deep_view();
    proof {
        lemma_upsert_at(olde, name@, value@, n as int);
    }
    entries.push(ProfileEntry { name: String::from_str(name), path: String::from_str(value) });
    proof {
        assert(entries.deep_view() =~~= olde.push((name@, value@)));
    }
}

/// Parses a profile registry: `[Section]` headers followed by `Key=Value`
/// lines, of which only `Path=` lines are consumed, scoped to the nearest
/// preceding header.  Entries keep first-insertion order, so the fallback
/// selection rule is deterministic.
pub fn parse_profiles_ini(content: &str) -> (entries: Vec<ProfileEntry>)
    ensures
        entries.deep_view() == ini_state(spec_lines(content@)).1,
{
    let lines = split_lines(content);
    let ghost lv = spec_lines(content@);
    let mut current: Option<String> = None;
    let mut entries: Vec<ProfileEntry> = Vec::new();
    let mut i: usize = 0;
    proof {
        assert(lv.take(0) =~~= Seq::<Seq<char>>::empty());
        assert(entries.deep_view() =~~= ini_state(lv.take(0)).1);
    }
    while i < lines.len()
        invariant
            lines.deep_view() == lv,
            i <= lv.len(),
            lines@.len() == lv.len(),
            match current {
                None => ini_state(lv.take(i as int)).0 is None,
                Some(c) => ini_state(lv.take(i as int)).0 == Some(c@),
            },
            entries.deep_view() =~~= ini_state(lv.take(i as int)).1,
        decreases lines.len() - i,
    {
        proof {
            assert(lv.take(i + 1).drop_last() =~= lv.take(i as int));
            assert(lv.take(i + 1).last() == lv[i as int]);
            assert(lines.deep_view()[i as int] == lv[i as int]);
        }
        let line = trim_str(lines[i].as_str());
        let llen = line.unicode_len();
        if llen > 0 && line.get_char(0) == '[' && line.get_char(llen - 1) == ']' {
            let name = line.substring_char(1, llen - 1);
            proof {
                assert(name@ =~= spec_trim(lv[i as int]).subrange(
                    1,
                    spec_trim(lv[i as int]).len() - 1,
                ));
            }
            current = Some(String::from_str(name));
        } else {
            proof {
                assert(!is_section_header(spec_trim(lv[i as int])));
            }
            match &current {
                Some(cur) => {
                    if starts_with_str(line, "Path=") {
                        proof {
                            reveal_strlit("Path=");
                        }
                        let value = trim_str(line.substring_char(5, llen));
                        proof {
                            assert(line@.subrange(5, llen as int) =~= line@.skip(5));
                            assert(value@ == path_value(line@));
                        }
                        let section = cur.clone();
                        upsert_entry(&mut entries, section.as_str(), value);
                    }
                },
                None => {},
            }
        }
        i = i + 1;
    }
    proof {
        assert(lv.take(lv.len() as int) =~= lv);
    }
    entries
}

/// The Unicode lowercasing of `s`, as `str::to_lowercase` computes it.
pub uninterp spec fn lower_of(s: Seq<char>) -> Seq<char>;

/// Relies on `str::to_lowercase`: the result depends on the characters
/// alone.
#[verifier::external_body]
fn lowercase(s: &str) -> (r: String)
    ensures
        r@ == lower_of(s@),
{
    s.to_lowercase()
}

/// The first selection rule: the entry's name contains `Profile0`, or its
/// path contains `dev-edition`.
pub open spec fn rule_dev(e: (Seq<char>, Seq<char>)) -> bool {
    contains_seq(e.0, "Profile0"@) || contains_seq(e.1, "dev-edition"@)
}

/// The second selection rule: the entry's name contains `default`, case
/// insensitively.
pub open spec fn rule_default(e: (Seq<char>, Seq<char>)) -> bool {
    contains_seq(lower_of(e.0), "default"@)
}

/// Index of the first entry the first rule accepts.
pub open spec fn find_dev(es: Seq<(Seq<char>, Seq<char>)>) -> Option<int>
    decreases es.len(),
{
    if es.len() == 0 {
        None
    } else if rule_dev(es[0]) {
        Some(0int)
    } else {
        match find_dev(es.skip(1)) {
            Some(i) => Some(i + 1),
            None => None,
        }
    }
}

/// Index of the first entry the second rule accepts.
pub open spec fn find_default(es: Seq<(Seq<char>, Seq<char>)>) -> Option<int>
    decreases es.len(),
{
    if es.len() == 0 {
        None
    } else if rule_default(es[0]) {
        Some(0int)
    } else {
        match find_default(es.skip(1)) {
            Some(i) => Some(i + 1),
            None => None,
        }
    }
}

proof fn lemma_find_dev_at(es: Seq<(Seq<char>, Seq<char>)>, j: int)
    requires
        0 <= j <= es.len(),
        forall|i: int| 0 <= i < j ==> !rule_dev(#[trigger] es[i]),
        j < es.len() ==> rule_dev(es[j]),
    ensures
        j == es.len() ==> find_dev(es) is None,
        j < es.len() ==> find_dev(es) == Some(j),
    decreases j, es.len(),
{
    if es.len() > 0 && j > 0 {
        lemma_find_dev_at(es.skip(1), j - 1);
    }
}

proof fn lemma_find_default_at(es: Seq<(Seq<char>, Seq<char>)>, j: int)
    requires
        0 <= j <= es.len(),
        forall|i: int| 0 <= i < j ==> !rule_default(#[trigger] es[i]),
        j < es.len() ==> rule_default(es[j]),
    ensures
        j == es.len() ==> find_default(es) is None,
        j < es.len() ==> find_default(es) == Some(j),
    decreases j, es.len(),
{
    if es.len() > 0 && j > 0 {
        lemma_find_default_at(es.skip(1), j - 1);
    }
}

/// The selected profile, by priority: the first entry the first rule
/// accepts; else the first entry the second rule accepts; else the first
/// entry; `None` only when the registry is empty.
pub open spec fn spec_select(es: Seq<(Seq<char>, Seq<char>)>) -> Option<int> {
    if find_dev(es) is Some {
        find_dev(es)
    } else if find_default(es) is Some {
        find_default(es)
    } else if es.len() > 0 {
        Some(0int)
    } else {
        None
    }
}

/// Picks the profile entry to use, by the three ordered rules.
pub fn select_profile(entries: &Vec<ProfileEntry>) -> (r: Option<usize>)
    ensures
        match r {
            None => spec_select(entries.deep_view()) is None && entries@.len() == 0,
            Some(i) => spec_select(entries.deep_view()) == Some(i as int) && i < entries@.len(),
        },
{
    let ghost ev = entries.deep_view();
    let n = entries.len();
    let mut i: usize = 0;
    while i < n
        invariant
            i <= n,
            n == entries@.len(),
            ev == entries.deep_view(),
            forall|j: int| 0 <= j < i ==> !rule_dev(#[trigger] ev[j]),
        decreases n - i,
    {
        let e = &entries[i];
        if contains_str(e.name.as_str(), "Profile0") || contains_str(
            e.path.as_str(),
            "dev-edition",
        ) {
            proof {
                lemma_find_dev_at(ev, i as int);
            }
            return Some(i);
        }
        i = i + 1;
    }
    proof {
        lemma_find_dev_at(ev, n as int);
    }
    let mut i: usize = 0;
    while i < n
        invariant
            i <= n,
            n == entries@.len(),
            ev == entries.deep_view(),
            find_dev(ev) is None,
            forall|j: int| 0 <= j < i ==> !rule_default(#[trigger] ev[j]),
        decreases n - i,
    {
        let e = &entries[i];
        let lowered = lowercase(e.name.as_str());
        if contains_str(lowered.as_str(), "default") {
            proof {
                lemma_find_default_at(ev, i as int);
            }
            return Some(i);
        }
        i = i + 1;
    }
    proof {
        lemma_find_default_at(ev, n as int);
    }
    if n > 0 {
        Some(0)
    } else {
        None
    }
}

/// The history database inside a resolved profile: the profiles directory,
/// the profile's path, and `places.sqlite`, joined with `/`.  A profile
/// path that is itself absolute (leading `/`, as a registry with
/// `IsRelative=0` writes on Unix) replaces the directory, as a path join
/// does; a drive-letter absolute path is beyond this model and is treated
/// like a relative one.
pub fn profile_history_file(profiles_dir: &str, profile_path: &str) -> (r: String)
    ensures
        profile_path@.len() > 0 && profile_path@[0] == '/' ==> r@ == profile_path@
            + "/places.sqlite"@,
        !(profile_path@.len() > 0 && profile_path@[0] == '/') ==> r@ == profiles_dir@ + "/"@
            + profile_path@ + "/places.sqlite"@,
{
    if !profile_path.is_empty() && profile_path.get_char(0) == '/' {
        return String::from_str(profile_path).concat("/places.sqlite");
    }
    let s = String::from_str(profiles_dir);
    let s = s.concat("/");
    let s = s.concat(profile_path);
    s.concat("/places.sqlite")
}

/// The history path table: a pure function of the browser, the operating
/// system identifier, and the per-OS environment values.  For the
/// Chromium family the result is the history file itself; for the Firefox
/// family it is the profiles directory, which the registry then resolves
/// further.  A missing needed environment value or an unknown pair fails.
pub open spec fn spec_history_path(
    browser: Browser,
    os: Seq<char>,
    home: Option<Seq<char>>,
    local_app_data: Option<Seq<char>>,
    app_data: Option<Seq<char>>,
) -> Result<Seq<char>, AnalysisError> {
    if home is None {
        Err(AnalysisError::MissingEnvironment)
    } else {
        let h = home->Some_0;
        if os == "windows"@ {
            match browser {
                Browser::Chrome => match local_app_data {
                    Some(l) => Ok(l + "/Google/Chrome/User Data/Default/History"@),
                    None => Err(AnalysisError::MissingEnvironment),
                },
                Browser::Edge => match local_app_data {
                    Some(l) => Ok(l + "/Microsoft/Edge/User Data/Default/History"@),
                    None => Err(AnalysisError::MissingEnvironment),
                },
                Browser::Vivaldi => match local_app_data {
                    Some(l) => Ok(l + "/Vivaldi/User Data/Default/History"@),
                    None => Err(AnalysisError::MissingEnvironment),
                },
                Browser::Firefox => match app_data {
                    Some(a) => Ok(a + "/Mozilla/Firefox"@),
                    None => Err(AnalysisError::MissingEnvironment),
                },
                Browser::Zen => match app_data {
                    Some(a) => Ok(a + "/zen"@),
                    None => Err(AnalysisError::MissingEnvironment),
                },
            }
        } else if os == "macos"@ {
            match browser {
                Browser::Chrome => Ok(h + "/Library/Application Support/Google/Chrome/Default/History"@),
                Browser::Edge => Ok(h + "/Library/Application Support/Microsoft Edge/Default/History"@),
                Browser::Vivaldi => Ok(h + "/Library/Application Support/Vivaldi/Default/History"@),
                Browser::Firefox => Ok(h + "/Library/Application Support/Firefox/Profiles"@),
                Browser::Zen => Ok(h + "/Library/Application Support/zen/Profiles"@),
            }
        } else if os == "linux"@ {
            match browser {
                Browser::Chrome => Ok(h + "/.config/google-chrome/Default/History"@),
                Browser::Edge => Ok(h + "/.config/microsoft-edge/Default/History"@),
                Browser::Vivaldi => Ok(h + "/.config/vivaldi/default/History"@),
                Browser::Firefox => Ok(h + "/.mozilla/firefox"@),
                Browser::Zen => Ok(h + "/.zen"@),
            }
        } else {
            Err(AnalysisError::UnsupportedCombination)
        }
    }
}

/// Resolves the history path table on concrete values.
pub fn history_path_for(
    browser: &Browser,
    os: &str,
    home: Option<&str>,
    local_app_data: Option<&str>,
    app_data: Option<&str>,
) -> (r: Result<String, AnalysisError>)
    ensures
        match r {
            Ok(s) => spec_history_path(
                *browser,
                os@,
                match home {
                    Some(h) => Some(h@),
                    None => None,
                },
                match local_app_data {
                    Some(l) => Some(l@),
                    None => None,
                },
                match app_data {
                    Some(a) => Some(a@),
                    None => None,
                },
            ) == Ok::<Seq<char>, AnalysisError>(s@),
            Err(e) => spec_history_path(
                *browser,
                os@,
                match home {
                    Some(h) => Some(h@),
                    None => None,
                },
                match local_app_data {
                    Some(l) => Some(l@),
                    None => None,
                },
                match app_data {
                    Some(a) => Some(a@),
                    None => None,
                },
            ) == Err::<Seq<char>, AnalysisError>(e),
        },
{
    let h = match home {
        Some(h) => h,
        None => {
            return Err(AnalysisError::MissingEnvironment);
        },
    };
    if eq_str(os, "windows") {
        match browser {
            Browser::Chrome | Browser::Edge | Browser::Vivaldi => {
                let l = match local_app_data {
                    Some(l) => l,
                    None => {
                        return Err(AnalysisError::MissingEnvironment);
                    },
                };
                let suffix = match browser {
                    Browser::Chrome => "/Google/Chrome/User Data/Default/History",
                    Browser::Edge => "/Microsoft/Edge/User Data/Default/History",
                    _ => "/Vivaldi/User Data/Default/History",
                };
                Ok(String::from_str(l).concat(suffix))
            },
            Browser::Firefox | Browser::Zen => {
                let a = match app_data {
                    Some(a) => a,
                    None => {
                        return Err(AnalysisError::MissingEnvironment);
                    },
                };
                let suffix = match browser {
                    Browser::Firefox => "/Mozilla/Firefox",
                    _ => "/zen",
                };
                Ok(String::from_str(a).concat(suffix))
            },
        }
    } else if eq_str(os, "macos") {
        let suffix = match browser {
            Browser::Chrome => "/Library/Application Support/Google/Chrome/Default/History",
            Browser::Edge => "/Library/Application Support/Microsoft Edge/Default/History",
            Browser::Vivaldi => "/Library/Application Support/Vivaldi/Default/History",
            Browser::Firefox => "/Library/Application Support/Firefox/Profiles",
            Browser::Zen => "/Library/Application Support/zen/Profiles",
        };
        Ok(String::from_str(h).concat(suffix))
    } else if eq_str(os, "linux") {
        let suffix = match browser {
            Browser::Chrome => "/.config/google-chrome/Default/History",
            Browser::Edge => "/.config/microsoft-edge/Default/History",
            Browser::Vivaldi => "/.config/vivaldi/default/History",
            Browser::Firefox => "/.mozilla/firefox",
            Browser::Zen => "/.zen",
        };
        Ok(String::from_str(h).concat(suffix))
    } else {
        Err(AnalysisError::UnsupportedCombination)
    }
}

} // verus!

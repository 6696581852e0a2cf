use historee::args::Browser;
use historee::errors::AnalysisError;
use historee::profile::{
    history_path_for, parse_profiles_ini, profile_history_file, select_profile,
};

#[test]
fn parses_sections_and_paths() {
    let ini = "[Profile1]\nName=alpha\nPath=Profiles/alpha\n\n[Profile0]\nPath=Profiles/beta\n";
    let entries = parse_profiles_ini(ini);
    assert_eq!(entries.len(), 2);
    assert_eq!(entries[0].name, "Profile1");
    assert_eq!(entries[0].path, "Profiles/alpha");
    assert_eq!(entries[1].name, "Profile0");
    assert_eq!(entries[1].path, "Profiles/beta");
}

#[test]
fn last_path_per_section_wins() {
    let ini = "[Profile0]\nPath=first\nPath=second\n";
    let entries = parse_profiles_ini(ini);
    assert_eq!(entries.len(), 1);
    assert_eq!(entries[0].path, "second");
}

#[test]
fn lines_outside_sections_are_ignored() {
    let ini = "Path=orphan\n[General]\nVersion=2\n";
    let entries = parse_profiles_ini(ini);
    assert_eq!(entries.len(), 0);
}

#[test]
fn path_value_keeps_everything_after_the_first_equals() {
    let ini = "[P]\nPath=a=b\n";
    let entries = parse_profiles_ini(ini);
    assert_eq!(entries[0].path, "a=b");
}

#[test]
fn empty_path_value_is_recorded_empty() {
    let ini = "[P]\nPath=\n";
    let entries = parse_profiles_ini(ini);
    assert_eq!(entries[0].path, "");
}

#[test]
fn selection_prefers_profile0_or_dev_edition() {
    let ini = "[One]\nPath=plain\n[Two]\nPath=x/dev-edition-default\n";
    let entries = parse_profiles_ini(ini);
    let picked = select_profile(&entries).unwrap();
    assert_eq!(entries[picked].path, "x/dev-edition-default");
}

#[test]
fn selection_falls_back_to_default_name_case_insensitively() {
    let ini = "[Alpha]\nPath=a\n[MyDEFAULTProfile]\nPath=b\n";
    let entries = parse_profiles_ini(ini);
    let picked = select_profile(&entries).unwrap();
    assert_eq!(entries[picked].path, "b");
}

#[test]
fn selection_falls_back_to_the_first_entry() {
    let ini = "[Alpha]\nPath=a\n[Beta]\nPath=b\n";
    let entries = parse_profiles_ini(ini);
    let picked = select_profile(&entries).unwrap();
    assert_eq!(picked, 0);
    assert_eq!(entries[picked].path, "a");
}

#[test]
fn empty_registry_selects_nothing() {
    let entries = parse_profiles_ini("");
    assert!(select_profile(&entries).is_none());
}

#[test]
fn chromium_paths_follow_the_table() {
    let r = history_path_for(&Browser::Chrome, "linux", Some("/home/u"), None, None);
    assert_eq!(r.unwrap(), "/home/u/.config/google-chrome/Default/History");
    let r = history_path_for(&Browser::Vivaldi, "macos", Some("/Users/u"), None, None);
    assert_eq!(
        r.unwrap(),
        "/Users/u/Library/Application Support/Vivaldi/Default/History"
    );
    let r = history_path_for(&Browser::Edge, "windows", Some("C:/u"), Some("C:/u/AppData/Local"), None);
    assert_eq!(
        r.unwrap(),
        "C:/u/AppData/Local/Microsoft/Edge/User Data/Default/History"
    );
}

#[test]
fn firefox_family_resolves_to_the_profiles_directory() {
    let r = history_path_for(&Browser::Firefox, "linux", Some("/home/u"), None, None);
    assert_eq!(r.unwrap(), "/home/u/.mozilla/firefox");
    let r = history_path_for(&Browser::Zen, "windows", Some("C:/u"), None, Some("C:/u/AppData/Roaming"));
    assert_eq!(r.unwrap(), "C:/u/AppData/Roaming/zen");
}

#[test]
fn unknown_os_is_unsupported() {
    let r = history_path_for(&Browser::Chrome, "plan9", Some("/home/u"), None, None);
    assert_eq!(r.unwrap_err(), AnalysisError::UnsupportedCombination);
}

#[test]
fn missing_environment_is_reported() {
    let r = history_path_for(&Browser::Chrome, "linux", None, None, None);
    assert_eq!(r.unwrap_err(), AnalysisError::MissingEnvironment);
    let r = history_path_for(&Browser::Chrome, "windows", Some("C:/u"), None, None);
    assert_eq!(r.unwrap_err(), AnalysisError::MissingEnvironment);
}

#[test]
fn history_file_is_joined_from_the_profile() {
    assert_eq!(
        profile_history_file("/home/u/.mozilla/firefox", "Profiles/abc.default"),
        "/home/u/.mozilla/firefox/Profiles/abc.default/places.sqlite"
    );
}

#[test]
fn an_absolute_profile_path_replaces_the_directory() {
    assert_eq!(
        profile_history_file("/home/u/.mozilla/firefox", "/srv/profiles/abc"),
        "/srv/profiles/abc/places.sqlite"
    );
}

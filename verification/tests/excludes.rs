use of_zed_project_generator_rs::{
    covering_pattern, exclude_rules, is_excluded_dir, normalize_windows_path,
    parse_addon_excludes, ExcludePattern,
    OS,
};

fn lines(list: &[&str]) -> Vec<Option<String>> {
    list.iter().map(|s| Some(s.to_string())).collect()
}

fn shown(rules: &[ExcludePattern]) -> Vec<String> {
    rules.iter().map(|r| r.pattern_str()).collect()
}

fn pattern(text: &str, has_wildcard: bool, has_dir_wildcard: bool) -> ExcludePattern {
    ExcludePattern {
        pattern: text.to_string(),
        has_wildcard,
        has_dir_wildcard,
    }
}

#[test]
fn pattern_is_written_with_its_wildcard() {
    assert_eq!(pattern("libs/a", false, false).pattern_str(), "libs/a");
    assert_eq!(pattern("libs/a", true, false).pattern_str(), "libs/a%");
    assert_eq!(pattern("libs/a", true, true).pattern_str(), "libs/a/%");
    assert_eq!(pattern("libs/a", false, true).pattern_str(), "libs/a/%");
}

#[test]
fn rules_are_read_with_their_wildcards() {
    let rules = exclude_rules(
        &lines(&[
            "ADDON_SOURCES_EXCLUDE = libs/a/%",
            "ADDON_SOURCES_EXCLUDE += libs/b%",
            "ADDON_INCLUDES_EXCLUDE=libs/c",
        ]),
        OS::Linux,
    );
    assert_eq!(rules.len(), 3);
    assert_eq!(rules[0].pattern, "libs/a");
    assert!(rules[0].has_wildcard);
    assert!(rules[0].has_dir_wildcard);
    assert_eq!(rules[1].pattern, "libs/b");
    assert!(rules[1].has_wildcard);
    assert!(!rules[1].has_dir_wildcard);
    assert_eq!(rules[2].pattern, "libs/c");
    assert!(!rules[2].has_wildcard);
    assert!(!rules[2].has_dir_wildcard);
    assert_eq!(shown(&rules), ["libs/a/%", "libs/b%", "libs/c"]);
}

#[test]
fn lines_that_state_nothing_are_skipped() {
    let mut file = lines(&[
        "",
        "   ",
        "# ADDON_SOURCES_EXCLUDE = a",
        "ADDON_NAME = ofxGui",
        "ADDON_SOURCES_EXCLUDE",
        "ADDON_SOURCES_EXCLUDE =",
        "ADDON_SOURCES_EXCLUDE +=   ",
    ]);
    file.push(None);
    assert!(exclude_rules(&file, OS::Linux).is_empty());
    file.push(Some("\u{3000}ADDON_SOURCES_EXCLUDE = \u{a0}kept\u{2003}".to_string()));
    assert_eq!(shown(&exclude_rules(&file, OS::Linux)), ["kept"]);
}

#[test]
fn value_is_what_follows_the_last_sign() {
    let rules = exclude_rules(&lines(&["ADDON_SOURCES_EXCLUDE += libs/c++/include/%"]), OS::Mac);
    assert_eq!(shown(&rules), ["/include/%"]);
    assert!(exclude_rules(&lines(&["ADDON_SOURCES_EXCLUDE = libs/c++"]), OS::Mac).is_empty());
}

#[test]
fn repeated_wildcards_are_dropped_together() {
    let rules = exclude_rules(
        &lines(&[
            "ADDON_SOURCES_EXCLUDE = a/%/%",
            "ADDON_SOURCES_EXCLUDE = a%%",
            "ADDON_SOURCES_EXCLUDE = a/%%",
        ]),
        OS::Linux,
    );
    assert_eq!(rules[0].pattern, "a");
    assert!(rules[0].has_dir_wildcard);
    assert_eq!(rules[1].pattern, "a");
    assert!(!rules[1].has_dir_wildcard);
    assert_eq!(rules[2].pattern, "a/");
    assert!(!rules[2].has_dir_wildcard);
}

#[test]
fn sections_select_the_system() {
    let file = lines(&[
        "ADDON_SOURCES_EXCLUDE = everywhere",
        "linux64:",
        "ADDON_SOURCES_EXCLUDE = linux",
        "osx:",
        "ADDON_SOURCES_EXCLUDE = osx",
        "ios:",
        "ADDON_SOURCES_EXCLUDE = ios",
        "vs:",
        "ADDON_SOURCES_EXCLUDE = vs",
        "msys2:",
        "ADDON_SOURCES_EXCLUDE = msys2",
        "win_cb::",
        "ADDON_SOURCES_EXCLUDE = win",
        "common:",
        "ADDON_SOURCES_EXCLUDE = common",
    ]);
    assert_eq!(
        shown(&exclude_rules(&file, OS::Linux)),
        ["everywhere", "linux", "common"]
    );
    assert_eq!(
        shown(&exclude_rules(&file, OS::Mac)),
        ["everywhere", "osx", "ios", "common"]
    );
    assert_eq!(
        shown(&exclude_rules(&file, OS::Windows)),
        ["everywhere", "vs", "msys2", "win", "common"]
    );
    assert_eq!(
        shown(&exclude_rules(&file, OS::Unknown)),
        ["everywhere", "common"]
    );
}

#[test]
fn header_has_no_space_and_no_equals_sign() {
    let file = lines(&[
        "osx :",
        "ADDON_SOURCES_EXCLUDE = one:",
        "x=osx:",
        "ADDON_SOURCES_EXCLUDE = two",
    ]);
    assert_eq!(shown(&exclude_rules(&file, OS::Linux)), ["one:", "two"]);
}

#[test]
fn file_naming_no_system_means_every_system() {
    let file = lines(&[
        "ADDON_SOURCES_EXCLUDE = a",
        "common:",
        "ADDON_INCLUDES_EXCLUDE = b/%",
    ]);
    let linux = shown(&exclude_rules(&file, OS::Linux));
    assert_eq!(linux, ["a", "b/%"]);
    assert_eq!(linux, shown(&exclude_rules(&file, OS::Unknown)));
}

#[test]
fn patterns_are_joined_to_the_addon() {
    let file = lines(&[
        "ADDON_SOURCES_EXCLUDE = libs/a/%",
        "ADDON_SOURCES_EXCLUDE = src/b",
    ]);
    let excludes = parse_addon_excludes("/of/addons/ofxX", &file, OS::Linux);
    assert_eq!(excludes.len(), 2);
    assert_eq!(
        normalize_windows_path(&excludes[0].pattern),
        "/of/addons/ofxX/libs/a"
    );
    assert!(excludes[0].has_dir_wildcard);
    assert_eq!(
        normalize_windows_path(&excludes[1].pattern),
        "/of/addons/ofxX/src/b"
    );
    assert!(is_excluded_dir("/of/addons/ofxX/libs/a", &excludes));
    assert!(is_excluded_dir("/of/addons/ofxX/libs/a/deep/er", &excludes));
    assert!(is_excluded_dir("/of/addons/ofxX/src/b", &excludes));
    assert!(!is_excluded_dir("/of/addons/ofxX/src/b/c", &excludes));
    assert!(!is_excluded_dir("/of/addons/ofxY/libs/a", &excludes));
}

#[test]
fn parsed_pattern_prints_as_written() {
    for written in ["libs/x", "libs/x%", "libs/x/%", ".hidden/%", "%", "odd:name"] {
        let file = lines(&[&format!("ADDON_SOURCES_EXCLUDE = {}", written)]);
        let excludes = parse_addon_excludes("/a", &file, OS::Linux);
        assert_eq!(excludes.len(), 1);
        let shown = excludes[0].pattern_str();
        assert!(shown == format!("/a/{}", written) || shown == format!("/a\\{}", written));
        assert_eq!(normalize_windows_path(&shown), format!("/a/{}", written));
    }
}

#[test]
fn patterns_are_joined_to_a_verbatim_path() {
    let file = lines(&[
        "ADDON_SOURCES_EXCLUDE = libs/x/%",
        "ADDON_SOURCES_EXCLUDE = ../y",
        "ADDON_SOURCES_EXCLUDE = src/",
    ]);
    let excludes = parse_addon_excludes(r"\\?\C:\of\addons\a", &file, OS::Windows);
    let found: Vec<String> = excludes
        .iter()
        .map(|e| normalize_windows_path(&e.pattern))
        .collect();
    assert_eq!(found[0], "C:/of/addons/a/libs/x");
    assert!(["C:/of/addons/a/../y", "C:/of/addons/y"].contains(&found[1].as_str()));
    assert!(["C:/of/addons/a/src/", "C:/of/addons/a/src"].contains(&found[2].as_str()));
}

#[test]
fn relative_pattern_stands_alone_without_addon_path() {
    let excludes = parse_addon_excludes("", &lines(&["ADDON_SOURCES_EXCLUDE = x"]), OS::Linux);
    assert_eq!(excludes[0].pattern, "x");
}

#[test]
fn first_covering_pattern() {
    let excludes = [
        pattern("/b", false, false),
        pattern("/a", true, false),
        pattern("/a/c", false, false),
    ];
    assert_eq!(covering_pattern("/a/c", &excludes), Some(1));
    assert_eq!(covering_pattern("/b", &excludes), Some(0));
    assert_eq!(covering_pattern("/c", &excludes), None);
}

#[test]
fn rooted_pattern_replaces_the_addon() {
    let file = lines(&["ADDON_SOURCES_EXCLUDE = /opt/x/%"]);
    let excludes = parse_addon_excludes("/of/addons/ofxX", &file, OS::Linux);
    assert_eq!(excludes[0].pattern, "/opt/x");
}

#[test]
fn missing_file_excludes_nothing() {
    assert!(parse_addon_excludes("/of/addons/ofxX", &[], OS::Linux).is_empty());
    assert!(!is_excluded_dir("/of", &[]));
}

#[test]
fn covering_ignores_spelling() {
    let excludes = [pattern(r"C:\addon\libs", true, false)];
    assert!(is_excluded_dir("C:/addon/libs/x", &excludes));
    assert!(is_excluded_dir(r"\\?\C:\addon\libs2", &excludes));
    assert!(!is_excluded_dir("C:/addon/lib", &excludes));
}

#[test]
fn more_patterns_exclude_more() {
    let few = vec![pattern("/a", false, false)];
    let many = vec![pattern("/b", false, false), pattern("/a", false, false)];
    assert!(is_excluded_dir("/a", &few) && is_excluded_dir("/a", &many));
    assert!(!is_excluded_dir("/b", &few) && is_excluded_dir("/b", &many));
}

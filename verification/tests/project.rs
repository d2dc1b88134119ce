use of_zed_project_generator_rs::versions::read_version;
use of_zed_project_generator_rs::{
    add_directories_recursively, addon_places, addon_reference, apps_place,
    collect_include_directories, collect_source_files, is_other_library, is_source_file, latest,
    library_places, locate_addon, mac_header_place, normalize_windows_path, project_files,
    project_places, scan_sources_recursively, search_directories, windows_places, Addon,
    AddonLibrary, AddonPlace, DirTree, ExcludePattern, Library, ListedAddon, PathSet, Project,
    SourceDir, MAC_SDK_ROOT, OS,
};

fn strings(list: &[&str]) -> Vec<String> {
    list.iter().map(|s| s.to_string()).collect()
}

fn tree(path: &str, children: Vec<DirTree>) -> DirTree {
    DirTree {
        path: path.to_string(),
        children,
    }
}

fn wildcard(text: &str) -> ExcludePattern {
    ExcludePattern {
        pattern: text.to_string(),
        has_wildcard: true,
        has_dir_wildcard: true,
    }
}

fn ofx() -> Addon {
    Addon {
        path: "/of/addons/ofxX".to_string(),
        config: vec![Some("ADDON_INCLUDES_EXCLUDE = libs/bad/%".to_string())],
        sources: Some(tree("/of/addons/ofxX/src", vec![])),
        libraries: vec![
            AddonLibrary {
                sources: Some(tree("/of/addons/ofxX/libs/bad/src", vec![])),
                headers: Some(tree("/of/addons/ofxX/libs/bad/include", vec![])),
            },
            AddonLibrary {
                sources: Some(tree("/of/addons/ofxX/libs/good/src", vec![])),
                headers: None,
            },
        ],
    }
}

fn listed(line: &str, found: Option<Addon>) -> ListedAddon {
    ListedAddon {
        line: line.to_string(),
        found,
    }
}

fn sample(reverse: bool) -> Project {
    let mut libraries = vec![
        Library {
            name: "glm".to_string(),
            headers: Some(tree(
                "/of/libs/glm/include",
                vec![tree("/of/libs/glm/include/glm", vec![])],
            )),
        },
        Library {
            name: "openFrameworks".to_string(),
            headers: Some(tree("/of/libs/openFrameworks/include", vec![])),
        },
        Library {
            name: "boost".to_string(),
            headers: None,
        },
    ];
    let mut core = vec![
        tree("/of/libs/openFrameworks/app", vec![]),
        tree("/of/libs/openFrameworks/gl", vec![]),
    ];
    if reverse {
        libraries.reverse();
        core.reverse();
    }
    Project {
        path: "/of/apps/my/app".to_string(),
        sources: Some(tree("/of/apps/my/app/src", vec![])),
        core: Some(tree("/of/libs/openFrameworks", core)),
        libraries,
        addons: vec![listed("ofxX", Some(ofx()))],
        has_mac_sdk: true,
        mac_headers: None,
        windows_sdk: vec![
            tree(r"C:\MSVC\include", vec![tree(r"C:\MSVC\include\cliext", vec![])]),
            tree(r"C:\Kits\ucrt", vec![tree(r"C:\Kits\ucrt\sys", vec![])]),
            tree(r"C:\Kits\um", vec![]),
        ],
    }
}

const SEARCHED: [&str; 9] = [
    "/of/addons/ofxX/libs/good/src",
    "/of/addons/ofxX/src",
    "/of/apps/my/app",
    "/of/apps/my/app/src",
    "/of/libs/glm/include",
    "/of/libs/glm/include/glm",
    "/of/libs/openFrameworks",
    "/of/libs/openFrameworks/app",
    "/of/libs/openFrameworks/gl",
];

#[test]
fn search_path_is_sorted_and_follows_patterns() {
    assert_eq!(
        collect_include_directories(&sample(false), OS::Linux, false),
        SEARCHED
    );
}

#[test]
fn search_path_ignores_listing_order() {
    assert_eq!(
        collect_include_directories(&sample(true), OS::Linux, false),
        SEARCHED
    );
}

#[test]
fn ignoring_excludes_searches_more() {
    let all = collect_include_directories(&sample(false), OS::Linux, true);
    assert_eq!(all.len(), SEARCHED.len() + 2);
    for dir in SEARCHED {
        assert!(all.contains(&dir.to_string()));
    }
    assert!(all.contains(&"/of/addons/ofxX/libs/bad/src".to_string()));
    assert!(all.contains(&"/of/addons/ofxX/libs/bad/include".to_string()));
}

#[test]
fn mac_sdk_is_searched_on_mac_alone() {
    let sdk = "/Applications/Xcode.app/Contents/Developer/Platforms/MacOSX.platform/Developer/SDKs/MacOSX.sdk/usr/include";
    let mut project = sample(false);
    let mac = collect_include_directories(&project, OS::Mac, false);
    assert_eq!(mac.len(), SEARCHED.len() + 1);
    assert_eq!(mac[0], sdk);
    project.mac_headers = Some(tree(sdk, vec![tree(&format!("{}/c++", sdk), vec![])]));
    let mac = collect_include_directories(&project, OS::Mac, false);
    assert_eq!(mac.len(), SEARCHED.len() + 2);
    assert_eq!(mac[0], sdk);
    assert_eq!(mac[1], format!("{}/c++", sdk));
    assert_eq!(
        collect_include_directories(&project, OS::Linux, false),
        SEARCHED
    );
    project.has_mac_sdk = false;
    assert_eq!(
        collect_include_directories(&project, OS::Mac, false),
        SEARCHED
    );
}

#[test]
fn windows_sdk_is_searched_on_windows_alone() {
    let windows = collect_include_directories(&sample(false), OS::Windows, false);
    assert_eq!(windows.len(), SEARCHED.len() + 5);
    assert_eq!(windows[..9], SEARCHED);
    assert_eq!(
        windows[9..],
        [
            "C:/Kits/ucrt",
            "C:/Kits/ucrt/sys",
            "C:/Kits/um",
            "C:/MSVC/include",
            "C:/MSVC/include/cliext"
        ]
    );
    for os in [OS::Linux, OS::Mac, OS::Unknown] {
        for dir in collect_include_directories(&sample(false), os, false) {
            assert!(!dir.starts_with("C:"));
        }
    }
}

#[test]
fn lines_that_add_no_addon_do_not_matter() {
    let mut project = sample(false);
    project.addons = vec![
        listed("", Some(ofx())),
        listed("  # ofxY", Some(ofx())),
        listed("ofxMissing", None),
    ];
    let without = collect_include_directories(&project, OS::Linux, false);
    assert_eq!(without, &SEARCHED[2..]);

    let other = || Addon {
        path: "/of/addons/ofxA".to_string(),
        config: vec![],
        sources: Some(tree("/of/addons/ofxA/src", vec![])),
        libraries: vec![],
    };
    project.addons = vec![listed("ofxX", Some(ofx())), listed("ofxA", Some(other()))];
    let plain = collect_include_directories(&project, OS::Linux, false);
    assert_eq!(plain.len(), SEARCHED.len() + 1);
    project.addons = vec![
        listed("ofxA", Some(other())),
        listed("#", None),
        listed("ofxX", Some(ofx())),
        listed("ofxMissing", None),
        listed(" ofxX ", Some(ofx())),
        listed("", None),
    ];
    assert_eq!(collect_include_directories(&project, OS::Linux, false), plain);
}

#[test]
fn patterns_concern_addons_alone() {
    let excludes = vec![vec![wildcard("/of")]];
    assert_eq!(
        search_directories(&sample(false), &excludes, OS::Linux),
        &SEARCHED[2..]
    );
}

#[test]
fn project_without_anything_searches_itself() {
    let project = Project {
        path: r"\\?\C:\app".to_string(),
        sources: None,
        core: None,
        libraries: vec![],
        addons: vec![],
        has_mac_sdk: false,
        mac_headers: None,
        windows_sdk: vec![],
    };
    assert_eq!(
        collect_include_directories(&project, OS::Windows, false),
        ["C:/app"]
    );
}

#[test]
fn excluded_directory_is_left_out_but_not_what_is_below() {
    let found = tree(
        "/a",
        vec![
            tree("/a/b", vec![tree("/a/b/c", vec![])]),
            tree(r"\a\d", vec![]),
        ],
    );
    let exact = [ExcludePattern {
        pattern: "/a/b".to_string(),
        has_wildcard: false,
        has_dir_wildcard: false,
    }];
    let mut set = PathSet::new();
    set.insert("/z".to_string());
    set.insert("/a".to_string());
    add_directories_recursively(&found, &exact, &mut set);
    assert_eq!(set.into_sorted(), ["/a", "/a/b/c", "/a/d", "/z"]);

    let mut set = PathSet::new();
    add_directories_recursively(&found, &[wildcard("/a/b")], &mut set);
    assert_eq!(set.into_sorted(), ["/a", "/a/d"]);
}

#[test]
fn path_set_sorts_by_bytes() {
    let mut set = PathSet::new();
    assert!(set.is_empty());
    for path in ["b", "a/b", "a", "\u{10000}", "\u{ffff}", "Z", "a", "a-b", ""] {
        set.insert(path.to_string());
    }
    assert!(!set.is_empty());
    let mut expected = strings(&["b", "a/b", "a", "\u{10000}", "\u{ffff}", "Z", "a-b", ""]);
    expected.sort();
    assert_eq!(set.into_sorted(), expected);
    assert_eq!(expected, ["", "Z", "a", "a-b", "a/b", "b", "\u{ffff}", "\u{10000}"]);
}

#[test]
fn addon_lines() {
    assert_eq!(addon_reference(""), None);
    assert_eq!(addon_reference(" \t\r"), None);
    assert_eq!(addon_reference("# ofxGui"), None);
    assert_eq!(
        addon_reference("  ofxGui\u{2028}"),
        Some(AddonPlace::Shared("ofxGui".to_string()))
    );
    assert_eq!(
        addon_reference("addons/ofxMine "),
        Some(AddonPlace::InProject("addons/ofxMine".to_string()))
    );
    assert_eq!(
        addon_reference("addons"),
        Some(AddonPlace::Shared("addons".to_string()))
    );
}

#[test]
fn places_of_a_project() {
    let places = project_places("/of/apps/my/app", "/of");
    assert_eq!(normalize_windows_path(&places.sources), "/of/apps/my/app/src");
    assert_eq!(normalize_windows_path(&places.libraries), "/of/libs");
    assert_eq!(normalize_windows_path(&places.core), "/of/libs/openFrameworks");
    assert_eq!(
        normalize_windows_path(&places.addon_list),
        "/of/apps/my/app/addons.make"
    );
}

#[test]
fn places_of_an_addon() {
    let places = addon_places("/of/addons/ofxX");
    assert_eq!(
        normalize_windows_path(&places.config),
        "/of/addons/ofxX/addon_config.mk"
    );
    assert_eq!(normalize_windows_path(&places.sources), "/of/addons/ofxX/src");
    assert_eq!(normalize_windows_path(&places.libraries), "/of/addons/ofxX/libs");
}

#[test]
fn places_of_a_library() {
    let places = library_places("/of/libs/glm");
    assert_eq!(normalize_windows_path(&places.sources), "/of/libs/glm/src");
    assert_eq!(normalize_windows_path(&places.headers), "/of/libs/glm/include");
}

#[test]
fn files_of_a_project() {
    let files = project_files("/of/apps/my/app");
    assert_eq!(normalize_windows_path(&files.sources), "/of/apps/my/app/src");
    assert_eq!(
        normalize_windows_path(&files.app_header),
        "/of/apps/my/app/src/ofApp.h"
    );
    assert_eq!(
        normalize_windows_path(&files.main_file),
        "/of/apps/my/app/src/main.cpp"
    );
    assert_eq!(
        normalize_windows_path(&files.database),
        "/of/apps/my/app/compile_commands.json"
    );
    assert_eq!(
        normalize_windows_path(&files.clangd_config),
        "/of/apps/my/app/.clangd"
    );
    assert_eq!(
        normalize_windows_path(&files.of_root),
        "/of/apps/my/app/../../.."
    );
    assert_eq!(normalize_windows_path(&apps_place("/of")), "/of/apps");
}

#[test]
fn files_of_a_project_on_a_verbatim_path() {
    let files = project_files(r"\\?\C:\of\apps\my\app");
    assert_eq!(
        normalize_windows_path(&files.sources),
        "C:/of/apps/my/app/src"
    );
    assert_eq!(
        normalize_windows_path(&files.app_header),
        "C:/of/apps/my/app/src/ofApp.h"
    );
    assert_eq!(
        normalize_windows_path(&files.main_file),
        "C:/of/apps/my/app/src/main.cpp"
    );
    assert_eq!(
        normalize_windows_path(&files.database),
        "C:/of/apps/my/app/compile_commands.json"
    );
    assert_eq!(
        normalize_windows_path(&files.clangd_config),
        "C:/of/apps/my/app/.clangd"
    );
    let of_root = normalize_windows_path(&files.of_root);
    assert!(["C:/of/apps/my/app/../../..", "C:/of"].contains(&of_root.as_str()));
}

#[test]
fn place_of_mac_headers() {
    assert_eq!(mac_header_place(), format!("{}/usr/include", MAC_SDK_ROOT));
}

#[test]
fn places_of_windows_headers() {
    let shown = |tools, kit| -> Vec<String> {
        windows_places(tools, kit)
            .iter()
            .map(|p| normalize_windows_path(p))
            .collect()
    };
    assert_eq!(shown(Some("/vc"), None), ["/vc/include"]);
    assert_eq!(
        shown(None, Some("/kit")),
        ["/kit/ucrt", "/kit/shared", "/kit/um", "/kit/winrt"]
    );
    assert_eq!(shown(Some("/vc"), Some("/kit")).len(), 5);
    assert!(shown(None, None).is_empty());
}

#[test]
fn latest_version() {
    assert_eq!(latest(&[]), None);
    let names = strings(&["10.0.19041.0", "10.0.22621.0", "10.0.17763.0"]);
    assert_eq!(latest(&names), Some(1));
    assert_eq!(latest(&strings(&["10.0.9", "10.0.10"])), Some(1));
    assert_eq!(latest(&strings(&["14.38", "14.38.33130", "14.9"])), Some(1));
    assert_eq!(latest(&strings(&["7.1", "07.1"])), Some(0));
}

#[test]
fn names_that_are_not_versions_are_passed_over() {
    assert_eq!(latest(&strings(&["wdf", "10.0.22621.0", "8.1x"])), Some(1));
    for name in ["", ".", "1.", ".1", "1..2", "x", "1-2", "99999999999999999999"] {
        assert_eq!(read_version(name), None, "{}", name);
        assert_eq!(latest(&strings(&[name])), None, "{}", name);
    }
    assert_eq!(read_version("10.0.07"), Some(vec![10, 0, 7]));
    assert_eq!(read_version("18446744073709551615"), Some(vec![u64::MAX]));
    assert_eq!(read_version("18446744073709551616"), None);
}

#[test]
fn addons_are_located() {
    let at = |line| locate_addon(line, "/of/apps/my/app", "/of").map(|p| normalize_windows_path(&p));
    assert_eq!(at(" ofxGui "), Some("/of/addons/ofxGui".to_string()));
    assert_eq!(
        at("addons/ofxMine"),
        Some("/of/apps/my/app/addons/ofxMine".to_string())
    );
    assert_eq!(at("#ofxGui"), None);
    assert_eq!(at("  "), None);
    let path = locate_addon("addons/../x", r"\\?\C:\of\apps\my\app", "C:/of").unwrap();
    let shown = normalize_windows_path(&path);
    assert!(["C:/of/apps/my/app/addons/../x", "C:/of/apps/my/app/x"].contains(&shown.as_str()));
}

#[test]
fn other_libraries() {
    assert!(is_other_library("glm"));
    assert!(is_other_library("openframeworks"));
    assert!(!is_other_library("openFrameworks"));
}

#[test]
fn source_names() {
    for name in ["main.cpp", "a.cxx", "a.cc", "a.c", "MAIN.CPP", "a.Cc", "a.b.c", "..c"] {
        assert!(is_source_file(name), "{}", name);
    }
    for name in [
        "ofApp.h", "cpp", ".cpp", "a.", "a.cpp.bak", "", "..", "a.\u{c7}pp", "a.CPP\u{130}", "a.cp p",
    ] {
        assert!(!is_source_file(name), "{}", name);
    }
}

#[test]
fn sources_are_sorted_and_unique() {
    let utils = SourceDir {
        files: strings(&["z.c", "a.hpp"]),
        subdirs: vec![],
    };
    let dir = SourceDir {
        files: strings(&["ofApp.cpp", "main.cpp", "main.cpp", "w\\in.cc", "ofApp.h"]),
        subdirs: vec![("utils".to_string(), utils)],
    };
    assert_eq!(
        collect_source_files(Some(&dir)),
        [
            "src/main.cpp",
            "src/ofApp.cpp",
            "src/utils/z.c",
            "src/w/in.cc"
        ]
    );
}

#[test]
fn sources_fall_back_to_those_of_a_new_project() {
    let fallback = ["src/main.cpp", "src/ofApp.cpp"];
    assert_eq!(collect_source_files(None), fallback);
    let empty = SourceDir {
        files: strings(&["ofApp.h"]),
        subdirs: vec![],
    };
    assert_eq!(collect_source_files(Some(&empty)), fallback);
}

#[test]
fn scan_adds_to_what_is_there() {
    let dir = SourceDir {
        files: strings(&["b.cpp"]),
        subdirs: vec![],
    };
    let mut set = PathSet::new();
    set.insert("x".to_string());
    scan_sources_recursively("lib", &dir, &mut set);
    assert_eq!(set.into_sorted(), ["lib/b.cpp", "x"]);
}

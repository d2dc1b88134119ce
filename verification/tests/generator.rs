use of_zed_project_generator_rs::{
    collect_include_directories, collect_source_files, generate_clangd_config,
    generate_compile_commands, is_excluded_dir, normalize_windows_path, Addon, DirTree,
    ExcludePattern, Library, ListedAddon, Project, SourceDir, OS,
};

fn strings(list: &[&str]) -> Vec<String> {
    list.iter().map(|s| s.to_string()).collect()
}

fn tree(path: &str, children: Vec<DirTree>) -> DirTree {
    DirTree {
        path: path.to_string(),
        children,
    }
}

#[test]
fn test_normalize_windows_path() {
    assert_eq!(
        normalize_windows_path(r"C:\Users\foo\bar"),
        "C:/Users/foo/bar"
    );
    assert_eq!(
        normalize_windows_path(r"\\?\C:\Users\foo\bar"),
        "C:/Users/foo/bar"
    );
    assert_eq!(
        normalize_windows_path("/Users/foo/bar"),
        "/Users/foo/bar"
    );
}

#[test]
fn test_os_to_str() {
    assert_eq!(OS::Mac.to_str(), "Mac");
    assert_eq!(OS::Linux.to_str(), "Linux");
    assert_eq!(OS::Windows.to_str(), "Win32");
    assert_eq!(OS::Unknown.to_str(), "Unknown");
}

#[test]
fn test_generate_compile_commands() {
    let proj_dir = "C:/my_project";
    let source_files = vec!["src/main.cpp".to_string(), "src/ofApp.cpp".to_string()];
    let include_dirs = vec![
        "C:/of/libs/openFrameworks".to_string(),
        "C:/my_project/src".to_string(),
    ];

    let cmds = generate_compile_commands(proj_dir, &source_files, &include_dirs, OS::Linux, false);
    assert_eq!(cmds.len(), 2);
    assert_eq!(cmds[0].directory, "C:/my_project");
    assert_eq!(cmds[0].file, "src/main.cpp");
    assert_eq!(
        cmds[0].arguments,
        vec![
            "clang++",
            "-std=c++17",
            "-DTARGET_LINUX",
            "-IC:/of/libs/openFrameworks",
            "-IC:/my_project/src",
            "-c",
            "src/main.cpp"
        ]
    );

    let win_cmds =
        generate_compile_commands(proj_dir, &source_files, &include_dirs, OS::Windows, false);
    assert!(win_cmds[0]
        .arguments
        .contains(&"--target=x86_64-pc-windows-msvc".to_string()));
    assert!(win_cmds[0].arguments.contains(&"-DWIN32".to_string()));
    assert!(win_cmds[0].arguments.contains(&"-DTARGET_WIN32".to_string()));
}

#[test]
fn test_generate_clangd_config() {
    let include_dirs = vec![
        "C:/of/libs/openFrameworks".to_string(),
        "C:/my_project/src".to_string(),
    ];
    let yaml = generate_clangd_config(&include_dirs, OS::Windows, false);

    assert!(yaml.contains("CompilationDatabase: ."));
    assert!(yaml.contains("- -std=c++17"));
    assert!(yaml.contains("- --target=x86_64-pc-windows-msvc"));
    assert!(yaml.contains("- -DWIN32"));
    assert!(yaml.contains("- -DTARGET_WIN32"));
    assert!(yaml.contains("- -IC:/of/libs/openFrameworks"));
    assert!(yaml.contains("- -IC:/my_project/src"));
}

#[test]
fn test_exclude_pattern_matching() {
    let excludes = vec![
        ExcludePattern {
            pattern: "C:/addon/libs/excluded_lib".to_string(),
            has_wildcard: false,
            has_dir_wildcard: true,
        },
        ExcludePattern {
            pattern: "C:/addon/src/excluded_file.cpp".to_string(),
            has_wildcard: false,
            has_dir_wildcard: false,
        },
    ];

    assert!(is_excluded_dir(
        r"C:\addon\libs\excluded_lib\sub",
        &excludes
    ));
    assert!(is_excluded_dir(
        r"C:\addon\src\excluded_file.cpp",
        &excludes
    ));
    assert!(!is_excluded_dir(
        r"C:\addon\libs\included_lib",
        &excludes
    ));
}

#[test]
fn test_mock_openframeworks_project_generation() {
    let of_root = "/tmp/test_of_proj/openFrameworks".to_string();
    let proj_dir = format!("{}/apps/myApps/mockApp", of_root);

    let core = format!("{}/libs/openFrameworks", of_root);
    let headers = format!("{}/libs/glm/include", of_root);
    let gui = format!("{}/addons/ofxGui", of_root);
    let src = format!("{}/src", proj_dir);
    let project = Project {
        path: proj_dir.clone(),
        sources: Some(tree(&src, vec![tree(&format!("{}/utils", src), vec![])])),
        core: Some(tree(
            &core,
            vec![
                tree(&format!("{}/app", core), vec![]),
                tree(&format!("{}/graphics", core), vec![]),
            ],
        )),
        libraries: vec![Library {
            name: "glm".to_string(),
            headers: Some(tree(
                &headers,
                vec![tree(&format!("{}/glm", headers), vec![])],
            )),
        }],
        addons: vec![ListedAddon {
            line: "ofxGui".to_string(),
            found: Some(Addon {
                path: gui.clone(),
                config: vec![
                    Some("meta:".to_string()),
                    Some("\tADDON_NAME = ofxGui".to_string()),
                ],
                sources: Some(tree(&format!("{}/src", gui), vec![])),
                libraries: vec![],
            }),
        }],
        has_mac_sdk: false,
        mac_headers: None,
        windows_sdk: vec![],
    };
    let sources = SourceDir {
        files: strings(&["main.cpp", "ofApp.cpp", "ofApp.h"]),
        subdirs: vec![(
            "utils".to_string(),
            SourceDir {
                files: strings(&["helper.cpp"]),
                subdirs: vec![],
            },
        )],
    };

    let os = OS::Linux;
    let include_dirs = collect_include_directories(&project, os, false);
    let source_files = collect_source_files(Some(&sources));

    assert!(source_files.contains(&"src/main.cpp".to_string()));
    assert!(source_files.contains(&"src/ofApp.cpp".to_string()));
    assert!(source_files.contains(&"src/utils/helper.cpp".to_string()));
    assert_eq!(source_files.len(), 3);

    let proj_dir_norm = normalize_windows_path(&proj_dir);
    let of_root_norm = normalize_windows_path(&of_root);

    assert!(include_dirs
        .iter()
        .any(|d| d.contains(&format!("{}/src/utils", proj_dir_norm))));
    assert!(include_dirs
        .iter()
        .any(|d| d.contains(&format!("{}/libs/openFrameworks/app", of_root_norm))));
    assert!(include_dirs
        .iter()
        .any(|d| d.contains(&format!("{}/libs/glm/include", of_root_norm))));
    assert!(include_dirs
        .iter()
        .any(|d| d.contains(&format!("{}/addons/ofxGui/src", of_root_norm))));

    let commands = generate_compile_commands(&proj_dir_norm, &source_files, &include_dirs, os, false);
    assert_eq!(commands.len(), 3);
    for cmd in &commands {
        assert_eq!(cmd.directory, proj_dir_norm);
        assert!(cmd.arguments.contains(&"-std=c++17".to_string()));
        assert!(cmd.arguments.contains(&format!("-I{}/src", proj_dir_norm)));
    }

    let clangd_yaml = generate_clangd_config(&include_dirs, os, false);
    assert!(clangd_yaml.contains("CompilationDatabase: ."));
    assert!(clangd_yaml.contains("- -std=c++17"));
    assert!(clangd_yaml.contains(&format!("- -I{}/src", proj_dir_norm)));
}

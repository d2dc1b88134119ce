use of_zed_project_generator_rs::order::{place, Placement};
use of_zed_project_generator_rs::sources::{find_extension, is_source_extension};
use of_zed_project_generator_rs::text::{
    chars_of, contains_char, ends_with, same_text, starts_with, string_of, trim_end_matches,
};
use of_zed_project_generator_rs::{
    generate_clangd_config, generate_compile_commands, is_affirmative, normalize_windows_path,
    resolve_path, Check, Config, MAC_SDK_ROOT, OS,
};

fn strings(list: &[&str]) -> Vec<String> {
    list.iter().map(|s| s.to_string()).collect()
}

#[test]
fn clangd_config_text() {
    let yaml = generate_clangd_config(&strings(&["/a", "/b c"]), OS::Linux, true);
    assert_eq!(
        yaml,
        "# Generated by of-zed-project-generator-rs for Zed editor\n\
         # yaml-language-server: $schema=https://json.schemastore.org/clangd.json\n\n\
         CompileFlags:\n  CompilationDatabase: .\n  Add:\n    - -std=c++17\n    \
         - -DTARGET_LINUX\n    - -I/a\n    - -I/b c\n"
    );
}

#[test]
fn clangd_config_on_mac() {
    let with_sdk = generate_clangd_config(&[], OS::Mac, true);
    assert!(with_sdk.ends_with(&format!(
        "    - -DTARGET_OSX\n    - -isysroot\n    - {}\n    - -F{}/System/Library/Frameworks\n",
        MAC_SDK_ROOT, MAC_SDK_ROOT
    )));
    let without = generate_clangd_config(&[], OS::Mac, false);
    assert!(without.ends_with("    - -std=c++17\n    - -DTARGET_OSX\n"));
}

#[test]
fn clangd_config_on_windows_and_unknown() {
    let windows = generate_clangd_config(&[], OS::Windows, false);
    assert!(windows.ends_with(
        "    - -std=c++17\n    - --target=x86_64-pc-windows-msvc\n    - -DWIN32\n    - -D_WIN32\n    - -DTARGET_WIN32\n    - -D_CRT_SECURE_NO_WARNINGS\n"
    ));
    let unknown = generate_clangd_config(&[], OS::Unknown, true);
    assert!(unknown.ends_with("  Add:\n    - -std=c++17\n"));
}

#[test]
fn commands_on_each_system() {
    let files = strings(&["src/a.c"]);
    let arguments = |os, sdk| {
        generate_compile_commands("/p", &files, &[], os, sdk)
            .remove(0)
            .arguments
    };
    assert_eq!(
        arguments(OS::Windows, true),
        [
            "clang++",
            "-std=c++17",
            "--target=x86_64-pc-windows-msvc",
            "-DWIN32",
            "-D_WIN32",
            "-DTARGET_WIN32",
            "-D_CRT_SECURE_NO_WARNINGS",
            "-c",
            "src/a.c"
        ]
    );
    let frameworks = format!("{}/System/Library/Frameworks", MAC_SDK_ROOT);
    assert_eq!(
        arguments(OS::Mac, true),
        [
            "clang++",
            "-std=c++17",
            "-DTARGET_OSX",
            "-isysroot",
            MAC_SDK_ROOT,
            "-F",
            frameworks.as_str(),
            "-c",
            "src/a.c"
        ]
    );
    assert_eq!(
        arguments(OS::Mac, false),
        ["clang++", "-std=c++17", "-DTARGET_OSX", "-c", "src/a.c"]
    );
    assert_eq!(
        arguments(OS::Unknown, true),
        ["clang++", "-std=c++17", "-c", "src/a.c"]
    );
}

#[test]
fn one_command_for_each_file() {
    assert!(generate_compile_commands("/p", &[], &strings(&["/i"]), OS::Linux, false).is_empty());
    let commands = generate_compile_commands(
        "/p",
        &strings(&["src/b.cpp", "src/a.cpp"]),
        &strings(&["/i"]),
        OS::Linux,
        false,
    );
    assert_eq!(commands.len(), 2);
    assert_eq!(commands[0].file, "src/b.cpp");
    assert_eq!(commands[1].file, "src/a.cpp");
    assert_eq!(commands[1].directory, "/p");
    let n = commands[0].arguments.len();
    assert_eq!(commands[0].arguments[..n - 1], commands[1].arguments[..n - 1]);
    assert_eq!(commands[1].arguments[n - 1], "src/a.cpp");
}

#[test]
fn config_agrees_with_database() {
    let dirs = strings(&["/a", "/b"]);
    for os in [OS::Linux, OS::Windows, OS::Unknown] {
        let commands = generate_compile_commands("/p", &strings(&["x.c"]), &dirs, os, false);
        let shared = &commands[0].arguments[1..commands[0].arguments.len() - 2];
        let listed: String = shared.iter().map(|flag| format!("    - {}\n", flag)).collect();
        assert!(generate_clangd_config(&dirs, os, false).ends_with(&format!("  Add:\n{}", listed)));
    }
}

#[test]
fn normalizing() {
    assert_eq!(normalize_windows_path(""), "");
    assert_eq!(normalize_windows_path(r"\\?\"), "");
    assert_eq!(normalize_windows_path(r"\\?"), "//?");
    assert_eq!(normalize_windows_path(r"\\?\\\?\x"), "//?/x");
    assert_eq!(normalize_windows_path(r"a\é\b"), "a/é/b");
    let once = normalize_windows_path(r"\\?\C:\x\y");
    assert_eq!(normalize_windows_path(&once), once);
}

#[test]
fn resolving() {
    assert_eq!(
        resolve_path("x", Some(r"\\?\C:\of"), OS::Windows),
        Ok("C:/of".to_string())
    );
    assert_eq!(
        resolve_path("x", Some(r"/of\root"), OS::Linux),
        Ok(r"/of\root".to_string())
    );
    assert_eq!(
        resolve_path("no/such", None, OS::Linux),
        Err("Path 'no/such' does not exist".to_string())
    );
}

#[test]
fn systems_by_target() {
    assert_eq!(OS::current("macos"), OS::Mac);
    assert_eq!(OS::current("linux"), OS::Linux);
    assert_eq!(OS::current("windows"), OS::Windows);
    assert_eq!(OS::current("freebsd"), OS::Unknown);
    assert_eq!(OS::current(""), OS::Unknown);
}

#[test]
fn settings() {
    let config = Config::default();
    assert_eq!(config.path, "");
    assert!(!config.show_version && !config.ignore_excludes && !config.yes && !config.dry_run);
    assert_eq!(config.project_path(), ".");
    let named = Config {
        path: "apps/my".to_string(),
        ..Default::default()
    };
    assert_eq!(named.project_path(), "apps/my");
}

#[test]
fn doubts() {
    let asking = Config::default();
    assert_eq!(asking.check_project(true, false), Check::Fine);
    assert_eq!(asking.check_project(false, true), Check::Fine);
    assert_eq!(asking.check_project(false, false), Check::Ask);
    assert_eq!(asking.check_existing(false, false), Check::Fine);
    assert_eq!(asking.check_existing(true, false), Check::Ask);
    assert_eq!(asking.check_existing(false, true), Check::Ask);
    let sure = Config {
        yes: true,
        ..Default::default()
    };
    assert_eq!(sure.check_project(false, false), Check::Warn);
    assert_eq!(sure.check_existing(true, true), Check::Warn);
}

#[test]
fn answers() {
    assert!(is_affirmative("Y\n"));
    assert!(is_affirmative("  y\r\n"));
    assert!(is_affirmative("\u{3000}y\u{85}"));
    for answer in ["", "\n", "yes", "n", "Y y", "\u{200b}y"] {
        assert!(!is_affirmative(answer), "{:?}", answer);
    }
}

#[test]
fn white_space_is_that_of_std() {
    for code in 0..0x11_0000u32 {
        if let Some(c) = char::from_u32(code) {
            let listed = matches!(code,
                0x9..=0xd | 0x20 | 0x85 | 0xa0 | 0x1680 | 0x2000..=0x200a
                | 0x2028 | 0x2029 | 0x202f | 0x205f | 0x3000);
            assert_eq!(c.is_whitespace(), listed, "{:x}", code);
            assert_eq!(is_affirmative(&format!("{}y{}", c, c)), listed, "{:x}", code);
        }
    }
}

#[test]
fn placement_of_strings() {
    assert_eq!(place("a", "b"), Placement::Before);
    assert_eq!(place("a", "a"), Placement::Same);
    assert_eq!(place("a/b", "a"), Placement::After);
    assert_eq!(place("", "a"), Placement::Before);
    assert_eq!(place("Z", "a"), Placement::Before);
}

#[test]
fn extensions() {
    assert_eq!(find_extension("a.b.Cpp"), Some("Cpp".to_string()));
    assert_eq!(find_extension("a."), Some("".to_string()));
    assert_eq!(find_extension(".gitignore"), None);
    assert_eq!(find_extension("Makefile"), None);
    assert_eq!(find_extension(".."), None);
    assert_eq!(find_extension("..."), Some("".to_string()));
    assert_eq!(find_extension("..c"), Some("c".to_string()));
    assert!(is_source_extension("cxx"));
    assert!(!is_source_extension("CXX"));
    assert!(!is_source_extension("cp"));
}

#[test]
fn plain_text() {
    let chars = chars_of("héllo%%");
    assert_eq!(chars.len(), 7);
    assert_eq!(string_of(&chars), "héllo%%");
    assert!(starts_with(&chars, "hé") && starts_with(&chars, "") && !starts_with(&chars, "e"));
    assert!(ends_with(&chars, "o%%") && ends_with(&chars, "") && !ends_with(&chars, "o%"));
    assert!(contains_char(&chars, 'l') && !contains_char(&chars, 'x'));
    assert_eq!(string_of(trim_end_matches(&chars, "%")), "héllo");
    assert_eq!(string_of(trim_end_matches(&chars, "")), "héllo%%");
    assert!(same_text("a", "a") && !same_text("a", "A"));
}

//! Where the parts of a project, of openFrameworks and of an addon are.

use vstd::prelude::*;

use crate::joins::join_path;
use crate::platform::MAC_SDK_ROOT;
use crate::text::{chars_of, starts_with, string_of};

verus! {

/// The directory of the sources, in a project, in an addon and in a library of one.
pub const SOURCE_DIR: &'static str = "src";

/// The directory of the libraries, in openFrameworks and in an addon.
pub const LIBRARY_DIR: &'static str = "libs";

/// The directory of openFrameworks itself among its libraries.
pub const CORE_LIBRARY: &'static str = "openFrameworks";

/// The directory of the headers in a library.
pub const HEADER_DIR: &'static str = "include";

/// The directory of the shared addons in openFrameworks.
pub const ADDON_DIR: &'static str = "addons";

/// The file that lists the addons of a project.
pub const ADDON_LIST: &'static str = "addons.make";

/// The configuration file of an addon.
pub const ADDON_CONFIG: &'static str = "addon_config.mk";

/// What a project is known by, what is written to it, and the openFrameworks that it
/// belongs to.
pub struct ProjectFiles {
    pub sources: String,
    pub app_header: String,
    pub main_file: String,
    pub database: String,
    pub clangd_config: String,
    pub of_root: String,
}

/// What is read of a project and of the openFrameworks that it belongs to.
pub struct ProjectPlaces {
    pub sources: String,
    pub libraries: String,
    pub core: String,
    pub addon_list: String,
}

/// What is read of an addon.
pub struct AddonPlaces {
    pub config: String,
    pub sources: String,
    pub libraries: String,
}

/// What is read of a library.
pub struct LibraryPlaces {
    pub sources: String,
    pub headers: String,
}

/// Whether `file` is written, once normalized, as `project` with `rest` behind it.
pub open spec fn is_below(project: Seq<char>, rest: Seq<char>, file: Seq<char>) -> bool {
    crate::paths::normalized(file) == crate::paths::normalized(project) + rest
}

/// Whether `of_root` is three levels above `project`. A canonical path of Windows may be
/// cut.
pub open spec fn is_three_levels_up(project: Seq<char>, of_root: Seq<char>) -> bool {
    ||| is_below(project, "/../../.."@, of_root)
    ||| crate::joins::is_canonical(project) && of_root == crate::joins::raised_to(project, 3)
}

/// Where the files are that a project is known by and those that are written to it. A
/// project lies three levels below the root of openFrameworks.
pub fn project_files(project: &str) -> (res: ProjectFiles)
    ensures
        crate::joins::is_join(project@, SOURCE_DIR@, res.sources@),
        crate::joins::is_join(res.sources@, "ofApp.h"@, res.app_header@),
        crate::joins::is_join(res.sources@, "main.cpp"@, res.main_file@),
        crate::joins::is_join(project@, "compile_commands.json"@, res.database@),
        crate::joins::is_join(project@, ".clangd"@, res.clangd_config@),
        crate::joins::is_join(project@, "../../.."@, res.of_root@),
        crate::joins::takes_names(project@) ==> {
            &&& is_below(project@, "/src"@, res.sources@)
            &&& is_below(project@, "/src/ofApp.h"@, res.app_header@)
            &&& is_below(project@, "/src/main.cpp"@, res.main_file@)
            &&& is_below(project@, "/compile_commands.json"@, res.database@)
            &&& is_below(project@, "/.clangd"@, res.clangd_config@)
        },
        crate::joins::joins_alike(project@, "../../.."@) || crate::joins::is_canonical(project@)
            ==> is_three_levels_up(project@, res.of_root@),
{
    let sources = join_path(project, SOURCE_DIR);
    let files = ProjectFiles {
        app_header: join_path(sources.as_str(), "ofApp.h"),
        main_file: join_path(sources.as_str(), "main.cpp"),
        sources,
        database: join_path(project, "compile_commands.json"),
        clangd_config: join_path(project, ".clangd"),
        of_root: join_path(project, "../../.."),
    };
    proof {
        lemma_files_are_below(project@, files);
        lemma_root_is_above(project@, files.of_root@);
    }
    files
}

/// A name joined to a path that takes names is below it.
proof fn lemma_name_is_below(base: Seq<char>, name: Seq<char>, res: Seq<char>)
    requires
        crate::joins::takes_names(base),
        crate::joins::is_plain_name(name),
        crate::joins::is_join(base, name, res),
    ensures
        is_below(base, seq!['/'] + name, res),
        crate::joins::takes_names(res),
{
    crate::joins::lemma_plain_name(name);
    crate::joins::lemma_join_of_name_takes_names(base, name, res);
    crate::joins::lemma_join_normalizes_alike(base, name, res);
    let start = crate::paths::normalized(base);
    assert(start + seq!['/'] + name =~= start + (seq!['/'] + name));
}

proof fn lemma_files_are_below(project: Seq<char>, files: ProjectFiles)
    requires
        crate::joins::is_join(project, SOURCE_DIR@, files.sources@),
        crate::joins::is_join(files.sources@, "ofApp.h"@, files.app_header@),
        crate::joins::is_join(files.sources@, "main.cpp"@, files.main_file@),
        crate::joins::is_join(project, "compile_commands.json"@, files.database@),
        crate::joins::is_join(project, ".clangd"@, files.clangd_config@),
    ensures
        crate::joins::takes_names(project) ==> {
            &&& is_below(project, "/src"@, files.sources@)
            &&& is_below(project, "/src/ofApp.h"@, files.app_header@)
            &&& is_below(project, "/src/main.cpp"@, files.main_file@)
            &&& is_below(project, "/compile_commands.json"@, files.database@)
            &&& is_below(project, "/.clangd"@, files.clangd_config@)
        },
{
    reveal_strlit("src");
    reveal_strlit("ofApp.h");
    reveal_strlit("main.cpp");
    reveal_strlit("compile_commands.json");
    reveal_strlit(".clangd");
    reveal_strlit("/src");
    reveal_strlit("/src/ofApp.h");
    reveal_strlit("/src/main.cpp");
    reveal_strlit("/compile_commands.json");
    reveal_strlit("/.clangd");
    assert("/src"@ =~= seq!['/'] + SOURCE_DIR@);
    assert("/src/ofApp.h"@ =~= "/src"@ + (seq!['/'] + "ofApp.h"@));
    assert("/src/main.cpp"@ =~= "/src"@ + (seq!['/'] + "main.cpp"@));
    assert("/compile_commands.json"@ =~= seq!['/'] + "compile_commands.json"@);
    assert("/.clangd"@ =~= seq!['/'] + ".clangd"@);
    if crate::joins::takes_names(project) {
        let start = crate::paths::normalized(project);
        lemma_name_is_below(project, SOURCE_DIR@, files.sources@);
        lemma_name_is_below(files.sources@, "ofApp.h"@, files.app_header@);
        lemma_name_is_below(files.sources@, "main.cpp"@, files.main_file@);
        assert(start + "/src"@ + (seq!['/'] + "ofApp.h"@) =~= start + "/src/ofApp.h"@);
        assert(start + "/src"@ + (seq!['/'] + "main.cpp"@) =~= start + "/src/main.cpp"@);
        lemma_name_is_below(project, "compile_commands.json"@, files.database@);
        lemma_name_is_below(project, ".clangd"@, files.clangd_config@);
    }
}

proof fn lemma_root_is_above(project: Seq<char>, of_root: Seq<char>)
    requires
        crate::joins::is_join(project, "../../.."@, of_root),
    ensures
        crate::joins::joins_alike(project, "../../.."@) || crate::joins::is_canonical(project)
            ==> is_three_levels_up(project, of_root),
{
    let up = "../../.."@;
    reveal_strlit("../../..");
    reveal_strlit("/../../..");
    assert("/../../.."@ =~= seq!['/'] + up);
    crate::paths::lemma_slashed_path_is_kept(up);
    if crate::joins::joins_alike(project, up) {
        crate::joins::lemma_join_normalizes_alike(project, up, of_root);
        let start = crate::paths::normalized(project);
        assert(start + seq!['/'] + up =~= start + (seq!['/'] + up));
    } else if crate::joins::is_canonical(project) {
        crate::joins::lemma_three_levels_up(project, of_root);
        if of_root == project + "/../../.."@ {
            assert(of_root =~= project + seq!['/'] + up);
            crate::joins::lemma_normalized_below(project, '/', up);
            crate::joins::lemma_normalized_relative(up);
            let start = crate::paths::normalized(project);
            assert(start + seq!['/'] + up =~= start + (seq!['/'] + up));
        }
    }
}

/// The directory that every root of openFrameworks has.
pub fn apps_place(of_root: &str) -> (res: String)
    ensures
        crate::joins::is_join(of_root@, "apps"@, res@),
        crate::joins::takes_names(of_root@) ==> is_below(of_root@, "/apps"@, res@),
{
    let place = join_path(of_root, "apps");
    proof {
        lemma_names_below();
        if crate::joins::takes_names(of_root@) {
            lemma_name_is_below(of_root@, "apps"@, place@);
        }
    }
    place
}

/// Where the parts of a project are, and of openFrameworks.
pub fn project_places(project: &str, of_root: &str) -> (res: ProjectPlaces)
    ensures
        crate::joins::is_join(project@, SOURCE_DIR@, res.sources@),
        crate::joins::is_join(of_root@, LIBRARY_DIR@, res.libraries@),
        crate::joins::is_join(res.libraries@, CORE_LIBRARY@, res.core@),
        crate::joins::is_join(project@, ADDON_LIST@, res.addon_list@),
        crate::joins::takes_names(project@) ==> {
            &&& is_below(project@, "/src"@, res.sources@)
            &&& is_below(project@, "/addons.make"@, res.addon_list@)
        },
        crate::joins::takes_names(of_root@) ==> {
            &&& is_below(of_root@, "/libs"@, res.libraries@)
            &&& is_below(of_root@, "/libs/openFrameworks"@, res.core@)
        },
{
    let libraries = join_path(of_root, LIBRARY_DIR);
    let places = ProjectPlaces {
        sources: join_path(project, SOURCE_DIR),
        core: join_path(libraries.as_str(), CORE_LIBRARY),
        libraries,
        addon_list: join_path(project, ADDON_LIST),
    };
    proof {
        lemma_names_below();
        if crate::joins::takes_names(project@) {
            lemma_name_is_below(project@, SOURCE_DIR@, places.sources@);
            lemma_name_is_below(project@, ADDON_LIST@, places.addon_list@);
        }
        if crate::joins::takes_names(of_root@) {
            lemma_name_is_below(of_root@, LIBRARY_DIR@, places.libraries@);
            lemma_name_is_below(places.libraries@, CORE_LIBRARY@, places.core@);
            assert(crate::paths::normalized(of_root@) + "/libs"@ + (seq!['/'] + CORE_LIBRARY@)
                =~= crate::paths::normalized(of_root@) + "/libs/openFrameworks"@);
        }
    }
    places
}

/// Where the parts of an addon are.
pub fn addon_places(addon: &str) -> (res: AddonPlaces)
    ensures
        crate::joins::is_join(addon@, ADDON_CONFIG@, res.config@),
        crate::joins::is_join(addon@, SOURCE_DIR@, res.sources@),
        crate::joins::is_join(addon@, LIBRARY_DIR@, res.libraries@),
        crate::joins::takes_names(addon@) ==> {
            &&& is_below(addon@, "/addon_config.mk"@, res.config@)
            &&& is_below(addon@, "/src"@, res.sources@)
            &&& is_below(addon@, "/libs"@, res.libraries@)
        },
{
    let places = AddonPlaces {
        config: join_path(addon, ADDON_CONFIG),
        sources: join_path(addon, SOURCE_DIR),
        libraries: join_path(addon, LIBRARY_DIR),
    };
    proof {
        lemma_names_below();
        if crate::joins::takes_names(addon@) {
            lemma_name_is_below(addon@, ADDON_CONFIG@, places.config@);
            lemma_name_is_below(addon@, SOURCE_DIR@, places.sources@);
            lemma_name_is_below(addon@, LIBRARY_DIR@, places.libraries@);
        }
    }
    places
}

/// Where the parts of a library are.
pub fn library_places(library: &str) -> (res: LibraryPlaces)
    ensures
        crate::joins::is_join(library@, SOURCE_DIR@, res.sources@),
        crate::joins::is_join(library@, HEADER_DIR@, res.headers@),
        crate::joins::takes_names(library@) ==> {
            &&& is_below(library@, "/src"@, res.sources@)
            &&& is_below(library@, "/include"@, res.headers@)
        },
{
    let places = LibraryPlaces {
        sources: join_path(library, SOURCE_DIR),
        headers: join_path(library, HEADER_DIR),
    };
    proof {
        lemma_names_below();
        if crate::joins::takes_names(library@) {
            lemma_name_is_below(library@, SOURCE_DIR@, places.sources@);
            lemma_name_is_below(library@, HEADER_DIR@, places.headers@);
        }
    }
    places
}

/// Where the headers of macOS are.
pub fn mac_header_place() -> (res: String)
    ensures
        res@ == MAC_SDK_ROOT@ + "/usr/include"@,
{
    let mut place = MAC_SDK_ROOT.to_string();
    place.append("/usr/include");
    place
}

/// Where the headers of Windows are: those of MSVC, in the directory `tools` of one of
/// its versions, and those of the Windows SDK, in the directory `kit` of the headers of
/// one of its versions.
pub fn windows_places(tools: Option<&str>, kit: Option<&str>) -> (res: Vec<String>)
    ensures
        ({
            let n: int = if tools is Some {
                1
            } else {
                0
            };
            &&& res@.len() == n + if kit is Some {
                4int
            } else {
                0
            }
            &&& tools matches Some(dir) ==> crate::joins::is_join(dir@, HEADER_DIR@, res@[0]@)
            &&& kit matches Some(dir) ==> {
                &&& crate::joins::is_join(dir@, "ucrt"@, res@[n]@)
                &&& crate::joins::is_join(dir@, "shared"@, res@[n + 1]@)
                &&& crate::joins::is_join(dir@, "um"@, res@[n + 2]@)
                &&& crate::joins::is_join(dir@, "winrt"@, res@[n + 3]@)
            }
        }),
{
    let mut places: Vec<String> = Vec::new();
    if let Some(dir) = tools {
        places.push(join_path(dir, HEADER_DIR));
    }
    if let Some(dir) = kit {
        places.push(join_path(dir, "ucrt"));
        places.push(join_path(dir, "shared"));
        places.push(join_path(dir, "um"));
        places.push(join_path(dir, "winrt"));
    }
    places
}

/// Where an addon is to be looked for: its path relative to the project, or relative
/// to the addons of openFrameworks.
#[derive(Debug, PartialEq)]
pub enum AddonPlace {
    InProject(String),
    Shared(String),
}

/// The path that a line of the list of addons names, if any, and whether it is one in the
/// project.
pub open spec fn referred(line: Seq<char>) -> Option<(bool, Seq<char>)> {
    let name = crate::text::trimmed(line);
    if crate::excludes::is_silent(name) {
        None
    } else {
        Some(("addons/"@.is_prefix_of(name), name))
    }
}

/// What a line of the list of addons refers to. An empty line and a comment refer to
/// nothing; a path that begins with `addons/` is one in the project.
pub fn addon_reference(line: &str) -> (res: Option<AddonPlace>)
    ensures
        ({
            let name = crate::text::trimmed(line@);
            if crate::excludes::is_silent(name) {
                res is None
            } else if "addons/"@.is_prefix_of(name) {
                res matches Some(AddonPlace::InProject(path)) && path@ == name
            } else {
                res matches Some(AddonPlace::Shared(path)) && path@ == name
            }
        }),
        match res {
            Some(AddonPlace::InProject(path)) => referred(line@) == Some((true, path@)),
            Some(AddonPlace::Shared(path)) => referred(line@) == Some((false, path@)),
            None => referred(line@) is None,
        },
{
    let name = chars_of(line.trim());
    if name.len() == 0 || name[0] == '#' {
        None
    } else if starts_with(name.as_slice(), "addons/") {
        Some(AddonPlace::InProject(string_of(name.as_slice())))
    } else {
        Some(AddonPlace::Shared(string_of(name.as_slice())))
    }
}

/// The path at which an addon is looked for, given the line that refers to it, if the
/// line does.
pub fn locate_addon(line: &str, project: &str, of_root: &str) -> (res: Option<String>)
    ensures
        ({
            let name = crate::text::trimmed(line@);
            if crate::excludes::is_silent(name) {
                res is None
            } else if "addons/"@.is_prefix_of(name) {
                res matches Some(path) && crate::joins::is_join(project@, name, path@)
            } else {
                res matches Some(path) && exists|shared: Seq<char>| #[trigger]
                    crate::joins::is_join(of_root@, ADDON_DIR@, shared) && crate::joins::is_join(
                        shared,
                        name,
                        path@,
                    )
            }
        }),
        ({
            let name = crate::text::trimmed(line@);
            &&& res is Some <==> referred(line@) is Some
            &&& referred(line@) == Some((true, name)) && crate::joins::joins_alike(project@, name)
                ==> is_below(project@, seq!['/'] + crate::paths::normalized(name), res->0@)
            &&& referred(line@) == Some((false, name)) && crate::joins::takes_names(of_root@)
                && crate::joins::is_plain_names(name) ==> is_below(
                of_root@,
                "/addons/"@ + crate::paths::normalized(name),
                res->0@,
            )
        }),
{
    match addon_reference(line) {
        Some(AddonPlace::InProject(path)) => {
            let place = join_path(project, path.as_str());
            proof {
                if crate::joins::joins_alike(project@, path@) {
                    crate::joins::lemma_join_normalizes_alike(project@, path@, place@);
                    let start = crate::paths::normalized(project@);
                    let rest = crate::paths::normalized(path@);
                    assert(start + seq!['/'] + rest =~= start + (seq!['/'] + rest));
                }
            }
            Some(place)
        },
        Some(AddonPlace::Shared(path)) => {
            let shared = join_path(of_root, ADDON_DIR);
            let place = join_path(shared.as_str(), path.as_str());
            proof {
                if crate::joins::takes_names(of_root@) && crate::joins::is_plain_names(path@) {
                    reveal_strlit("addons");
                    reveal_strlit("/addons/");
                    lemma_name_is_below(of_root@, ADDON_DIR@, shared@);
                    crate::joins::lemma_join_normalizes_alike(shared@, path@, place@);
                    let start = crate::paths::normalized(of_root@);
                    let rest = crate::paths::normalized(path@);
                    assert(start + (seq!['/'] + ADDON_DIR@) + seq!['/'] + rest =~= start + (
                    "/addons/"@ + rest));
                }
            }
            Some(place)
        },
        None => None,
    }
}

/// The names of the parts, each behind a slash.
proof fn lemma_names_below()
    ensures
        "/src"@ == seq!['/'] + SOURCE_DIR@,
        "/libs"@ == seq!['/'] + LIBRARY_DIR@,
        "/include"@ == seq!['/'] + HEADER_DIR@,
        "/addons.make"@ == seq!['/'] + ADDON_LIST@,
        "/addon_config.mk"@ == seq!['/'] + ADDON_CONFIG@,
        "/apps"@ == seq!['/'] + "apps"@,
        "/libs/openFrameworks"@ == "/libs"@ + (seq!['/'] + CORE_LIBRARY@),
        crate::joins::is_plain_name(SOURCE_DIR@),
        crate::joins::is_plain_name(LIBRARY_DIR@),
        crate::joins::is_plain_name(HEADER_DIR@),
        crate::joins::is_plain_name(ADDON_LIST@),
        crate::joins::is_plain_name(ADDON_CONFIG@),
        crate::joins::is_plain_name(CORE_LIBRARY@),
        crate::joins::is_plain_name("apps"@),
{
    reveal_strlit("src");
    reveal_strlit("/src");
    reveal_strlit("libs");
    reveal_strlit("/libs");
    reveal_strlit("include");
    reveal_strlit("/include");
    reveal_strlit("addons.make");
    reveal_strlit("/addons.make");
    reveal_strlit("addon_config.mk");
    reveal_strlit("/addon_config.mk");
    reveal_strlit("apps");
    reveal_strlit("/apps");
    reveal_strlit("openFrameworks");
    reveal_strlit("/libs/openFrameworks");
    assert("/src"@ =~= seq!['/'] + SOURCE_DIR@);
    assert("/libs"@ =~= seq!['/'] + LIBRARY_DIR@);
    assert("/include"@ =~= seq!['/'] + HEADER_DIR@);
    assert("/addons.make"@ =~= seq!['/'] + ADDON_LIST@);
    assert("/addon_config.mk"@ =~= seq!['/'] + ADDON_CONFIG@);
    assert("/apps"@ =~= seq!['/'] + "apps"@);
    assert("/libs/openFrameworks"@ =~= "/libs"@ + (seq!['/'] + CORE_LIBRARY@));
}

/// What a line of the list of addons refers to: nothing where it is white space alone or
/// a comment; else the path that it names, without the white space around it, which is one
/// in the project where it begins with `addons/`.
pub proof fn lemma_line_refers_to_its_name(front: Seq<char>, name: Seq<char>, back: Seq<char>)
    requires
        forall|i: int| 0 <= i < front.len() ==> crate::text::is_white_space(#[trigger] front[i]),
        forall|i: int| 0 <= i < back.len() ==> crate::text::is_white_space(#[trigger] back[i]),
        name.len() > 0 ==> !crate::text::is_white_space(name.first())
            && !crate::text::is_white_space(name.last()),
    ensures
        name.len() == 0 || name[0] == '#' ==> referred(front + name + back) is None,
        name.len() > 0 && name[0] != '#' ==> referred(front + name + back) == Some(
            (name.len() >= 7 && name.take(7) == "addons/"@, name),
        ),
{
    crate::text::lemma_trimmed_in_between(front, name, back);
    reveal_strlit("addons/");
    if name.len() >= 7 {
        assert(name.take(7) =~= name.subrange(0, 7));
    }
}

} // verus!

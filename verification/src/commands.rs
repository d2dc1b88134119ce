//! The compilation database: how each source file is compiled.

use vstd::prelude::*;

use crate::platform::{MAC_SDK_ROOT, OS};

verus! {

/// How one source file is compiled.
#[derive(Debug, PartialEq)]
pub struct CompileCommand {
    pub directory: String,
    pub file: String,
    pub arguments: Vec<String>,
}

/// What a [`CompileCommand`] says.
pub struct Command {
    pub directory: Seq<char>,
    pub file: Seq<char>,
    pub arguments: Seq<Seq<char>>,
}

impl View for CompileCommand {
    type V = Command;

    open spec fn view(&self) -> Command {
        Command {
            directory: self.directory@,
            file: self.file@,
            arguments: crate::path_set::texts(self.arguments@),
        }
    }
}

/// The directory of the frameworks in the SDK of macOS.
pub open spec fn mac_frameworks() -> Seq<char> {
    MAC_SDK_ROOT@ + "/System/Library/Frameworks"@
}

/// The arguments that select the system.
pub open spec fn system_arguments(os: OS, has_mac_sdk: bool) -> Seq<Seq<char>> {
    match os {
        OS::Windows => seq![
            "--target=x86_64-pc-windows-msvc"@,
            "-DWIN32"@,
            "-D_WIN32"@,
            "-DTARGET_WIN32"@,
            "-D_CRT_SECURE_NO_WARNINGS"@,
        ],
        OS::Mac => if has_mac_sdk {
            seq!["-DTARGET_OSX"@, "-isysroot"@, MAC_SDK_ROOT@, "-F"@, mac_frameworks()]
        } else {
            seq!["-DTARGET_OSX"@]
        },
        OS::Linux => seq!["-DTARGET_LINUX"@],
        OS::Unknown => Seq::empty(),
    }
}

/// The arguments that put each directory on the search path.
pub open spec fn search_arguments(include_dirs: Seq<Seq<char>>) -> Seq<Seq<char>> {
    include_dirs.map_values(|dir: Seq<char>| "-I"@ + dir)
}

/// The arguments that the commands for all source files share.
pub open spec fn common_arguments(
    include_dirs: Seq<Seq<char>>,
    os: OS,
    has_mac_sdk: bool,
) -> Seq<Seq<char>> {
    seq!["clang++"@, "-std=c++17"@] + system_arguments(os, has_mac_sdk) + search_arguments(
        include_dirs,
    )
}

/// The command for one source file.
pub open spec fn command_for(
    proj_dir: Seq<char>,
    file: Seq<char>,
    include_dirs: Seq<Seq<char>>,
    os: OS,
    has_mac_sdk: bool,
) -> Command {
    Command {
        directory: proj_dir,
        file,
        arguments: common_arguments(include_dirs, os, has_mac_sdk) + seq!["-c"@, file],
    }
}

pub(crate) fn add_argument(args: &mut Vec<String>, text: &str)
    ensures
        crate::path_set::texts(final(args)@) == crate::path_set::texts(old(args)@).push(text@),
{
    args.push(text.to_string());
    assert(crate::path_set::texts(args@) =~= crate::path_set::texts(old(args)@).push(text@));
}

/// Adds the arguments that put each directory on the search path.
pub(crate) fn add_search_arguments(args: &mut Vec<String>, include_dirs: &[String])
    ensures
        crate::path_set::texts(final(args)@) == crate::path_set::texts(old(args)@)
            + search_arguments(crate::path_set::texts(include_dirs@)),
{
    let ghost fixed = crate::path_set::texts(args@);
    let ghost dirs = crate::path_set::texts(include_dirs@);
    let mut i: usize = 0;
    assert(fixed =~= fixed + search_arguments(dirs.take(0)));
    while i < include_dirs.len()
        invariant
            i <= include_dirs.len(),
            dirs == crate::path_set::texts(include_dirs@),
            crate::path_set::texts(args@) == fixed + search_arguments(dirs.take(i as int)),
        decreases include_dirs.len() - i,
    {
        let mut option = "-I".to_string();
        option.append(include_dirs[i].as_str());
        add_argument(args, option.as_str());
        assert(dirs[i as int] == include_dirs@[i as int]@);
        i += 1;
        assert(search_arguments(dirs.take(i as int)) =~= search_arguments(dirs.take(i - 1)).push(
            option@,
        ));
        assert(crate::path_set::texts(args@) =~= fixed + search_arguments(dirs.take(i as int)));
    }
    assert(dirs.take(dirs.len() as int) =~= dirs);
}

/// The arguments that the commands for all source files share.
fn shared_arguments(include_dirs: &[String], os: OS, has_mac_sdk: bool) -> (res: Vec<String>)
    ensures
        crate::path_set::texts(res@) == common_arguments(
            crate::path_set::texts(include_dirs@),
            os,
            has_mac_sdk,
        ),
{
    let mut args: Vec<String> = Vec::new();
    assert(crate::path_set::texts(args@) =~= Seq::empty());
    add_argument(&mut args, "clang++");
    add_argument(&mut args, "-std=c++17");
    if os == OS::Windows {
        add_argument(&mut args, "--target=x86_64-pc-windows-msvc");
        add_argument(&mut args, "-DWIN32");
        add_argument(&mut args, "-D_WIN32");
        add_argument(&mut args, "-DTARGET_WIN32");
        add_argument(&mut args, "-D_CRT_SECURE_NO_WARNINGS");
    } else if os == OS::Mac {
        add_argument(&mut args, "-DTARGET_OSX");
        if has_mac_sdk {
            add_argument(&mut args, "-isysroot");
            add_argument(&mut args, MAC_SDK_ROOT);
            add_argument(&mut args, "-F");
            let mut frameworks = MAC_SDK_ROOT.to_string();
            frameworks.append("/System/Library/Frameworks");
            add_argument(&mut args, frameworks.as_str());
        }
    } else if os == OS::Linux {
        add_argument(&mut args, "-DTARGET_LINUX");
    }
    assert(crate::path_set::texts(args@) =~= seq!["clang++"@, "-std=c++17"@] + system_arguments(
        os,
        has_mac_sdk,
    ));
    add_search_arguments(&mut args, include_dirs);
    args
}

/// The command for each of the source files, in their order. `has_mac_sdk` says
/// whether the SDK of macOS is installed.
pub fn generate_compile_commands(
    proj_dir: &str,
    source_files: &[String],
    include_dirs: &[String],
    os: OS,
    has_mac_sdk: bool,
) -> (res: Vec<CompileCommand>)
    ensures
        res@.len() == source_files@.len(),
        forall|i: int|
            0 <= i < source_files@.len() ==> (#[trigger] res@[i])@ == command_for(
                proj_dir@,
                source_files@[i]@,
                crate::path_set::texts(include_dirs@),
                os,
                has_mac_sdk,
            ),
        forall|i: int|
            0 <= i < source_files@.len() ==> {
                &&& (#[trigger] res@[i]).directory@ == proj_dir@
                &&& res@[i].file@ == source_files@[i]@
                &&& res@[i].arguments@.len() >= include_dirs@.len() + 4
                &&& res@[i].arguments@[0]@ == "clang++"@
                &&& res@[i].arguments@.last()@ == source_files@[i]@
            },
        forall|i: int, k: int|
            0 <= i < source_files@.len() && 0 <= k < include_dirs@.len() ==> (
            #[trigger] res@[i]).arguments@[res@[i].arguments@.len() - 2 - include_dirs@.len()
                + k]@ == "-I"@ + (#[trigger] include_dirs@[k])@,
{
    let common_args = shared_arguments(include_dirs, os, has_mac_sdk);
    let ghost dirs = crate::path_set::texts(include_dirs@);
    let mut commands: Vec<CompileCommand> = Vec::new();
    let mut i: usize = 0;
    while i < source_files.len()
        invariant
            i <= source_files.len(),
            commands@.len() == i,
            crate::path_set::texts(common_args@) == common_arguments(dirs, os, has_mac_sdk),
            forall|j: int|
                0 <= j < i ==> (#[trigger] commands@[j])@ == command_for(
                    proj_dir@,
                    source_files@[j]@,
                    dirs,
                    os,
                    has_mac_sdk,
                ),
        decreases source_files.len() - i,
    {
        let src_file = &source_files[i];
        let mut args = common_args.clone();
        assert(crate::path_set::texts(args@) =~= crate::path_set::texts(common_args@));
        add_argument(&mut args, "-c");
        add_argument(&mut args, src_file.as_str());
        assert(crate::path_set::texts(args@) =~= common_arguments(dirs, os, has_mac_sdk) + seq![
            "-c"@,
            src_file@,
        ]);
        commands.push(
            CompileCommand {
                directory: proj_dir.to_string(),
                file: src_file.clone(),
                arguments: args,
            },
        );
        i += 1;
    }
    proof {
        assert forall|j: int| 0 <= j < commands@.len() implies {
            &&& (#[trigger] commands@[j]).directory@ == proj_dir@
            &&& commands@[j].file@ == source_files@[j]@
            &&& commands@[j].arguments@.len() >= dirs.len() + 4
            &&& commands@[j].arguments@[0]@ == "clang++"@
            &&& commands@[j].arguments@.last()@ == source_files@[j]@
        } by {
            let said = commands@[j]@;
            lemma_command_is_of_its_file(proj_dir@, source_files@[j]@, dirs, os, has_mac_sdk);
            assert(said.arguments[0] == commands@[j].arguments@[0]@);
            assert(said.arguments.last() == commands@[j].arguments@.last()@);
        }
        assert forall|j: int, k: int|
            0 <= j < commands@.len() && 0 <= k < include_dirs@.len() implies (
        #[trigger] commands@[j]).arguments@[commands@[j].arguments@.len() - 2 - include_dirs@.len()
            + k]@ == "-I"@ + (#[trigger] include_dirs@[k])@ by {
            let said = commands@[j]@;
            lemma_command_is_of_its_file(proj_dir@, source_files@[j]@, dirs, os, has_mac_sdk);
            let at = said.arguments.len() - 2 - dirs.len() + k;
            assert(said.arguments[at] == "-I"@ + dirs[k]);
            assert(said.arguments[at] == commands@[j].arguments@[at]@);
        }
    }
    commands
}

/// Every directory of the search path has an argument of its own in every command, in
/// the order of the directories; nothing is left to a wildcard.
pub proof fn lemma_every_directory_is_spelled_out(
    proj_dir: Seq<char>,
    file: Seq<char>,
    include_dirs: Seq<Seq<char>>,
    os: OS,
    has_mac_sdk: bool,
    i: int,
)
    requires
        0 <= i < include_dirs.len(),
    ensures
        ({
            let arguments = command_for(proj_dir, file, include_dirs, os, has_mac_sdk).arguments;
            let first = 2 + system_arguments(os, has_mac_sdk).len();
            &&& arguments.len() == first + include_dirs.len() + 2
            &&& arguments[first + i] == "-I"@ + include_dirs[i]
        }),
{
}

/// Two commands of one project differ in their source files only: the arguments in
/// front of the last two are the same, and the last two name the file.
pub proof fn lemma_commands_differ_in_file_only(
    proj_dir: Seq<char>,
    file: Seq<char>,
    other: Seq<char>,
    include_dirs: Seq<Seq<char>>,
    os: OS,
    has_mac_sdk: bool,
)
    ensures
        ({
            let a = command_for(proj_dir, file, include_dirs, os, has_mac_sdk);
            let b = command_for(proj_dir, other, include_dirs, os, has_mac_sdk);
            let n = a.arguments.len();
            &&& a.directory == b.directory
            &&& b.arguments.len() == n
            &&& a.arguments.take(n - 2) == b.arguments.take(n - 2)
            &&& a.arguments[n - 2] == "-c"@
            &&& a.arguments[n - 1] == file
        }),
{
    let a = command_for(proj_dir, file, include_dirs, os, has_mac_sdk);
    let b = command_for(proj_dir, other, include_dirs, os, has_mac_sdk);
    let n = a.arguments.len();
    assert(a.arguments.take(n - 2) =~= b.arguments.take(n - 2));
}

/// A command is run in the directory of the project, on the file that it is for: the file
/// is the one that was given and the last argument, behind `-c`. In front of these two
/// stand the directories of the search path, each behind `-I`, in their order, and in
/// front of all the name of the compiler.
pub proof fn lemma_command_is_of_its_file(
    proj_dir: Seq<char>,
    file: Seq<char>,
    include_dirs: Seq<Seq<char>>,
    os: OS,
    has_mac_sdk: bool,
)
    ensures
        ({
            let command = command_for(proj_dir, file, include_dirs, os, has_mac_sdk);
            let n = command.arguments.len();
            &&& command.directory == proj_dir
            &&& command.file == file
            &&& n >= include_dirs.len() + 4
            &&& command.arguments[0] == "clang++"@
            &&& command.arguments[1] == "-std=c++17"@
            &&& command.arguments[n - 2] == "-c"@
            &&& command.arguments[n - 1] == file
            &&& forall|k: int|
                0 <= k < include_dirs.len() ==> command.arguments[n - 2 - include_dirs.len() + k]
                    == "-I"@ + #[trigger] include_dirs[k]
        }),
{
}

/// With one directory more at the end of the search path, a command has one argument more,
/// in front of the last two, and else stays as it was.
pub proof fn lemma_each_directory_adds_an_argument(
    proj_dir: Seq<char>,
    file: Seq<char>,
    include_dirs: Seq<Seq<char>>,
    dir: Seq<char>,
    os: OS,
    has_mac_sdk: bool,
)
    ensures
        ({
            let less = command_for(proj_dir, file, include_dirs, os, has_mac_sdk);
            let more = command_for(proj_dir, file, include_dirs.push(dir), os, has_mac_sdk);
            &&& more.directory == less.directory
            &&& more.file == less.file
            &&& more.arguments == less.arguments.insert(less.arguments.len() - 2, "-I"@ + dir)
        }),
{
    let less = command_for(proj_dir, file, include_dirs, os, has_mac_sdk);
    let more = command_for(proj_dir, file, include_dirs.push(dir), os, has_mac_sdk);
    assert(more.arguments =~= less.arguments.insert(less.arguments.len() - 2, "-I"@ + dir));
}

/// How a file is compiled where no directory is searched: by clang, with the standard,
/// what selects the system, and the file.
pub proof fn lemma_command_without_directories(
    proj_dir: Seq<char>,
    file: Seq<char>,
    os: OS,
    has_mac_sdk: bool,
)
    ensures
        command_for(proj_dir, file, Seq::empty(), os, has_mac_sdk).arguments == match os {
            OS::Windows => seq![
                "clang++"@,
                "-std=c++17"@,
                "--target=x86_64-pc-windows-msvc"@,
                "-DWIN32"@,
                "-D_WIN32"@,
                "-DTARGET_WIN32"@,
                "-D_CRT_SECURE_NO_WARNINGS"@,
                "-c"@,
                file,
            ],
            OS::Mac => if has_mac_sdk {
                seq![
                    "clang++"@,
                    "-std=c++17"@,
                    "-DTARGET_OSX"@,
                    "-isysroot"@,
                    MAC_SDK_ROOT@,
                    "-F"@,
                    MAC_SDK_ROOT@ + "/System/Library/Frameworks"@,
                    "-c"@,
                    file,
                ]
            } else {
                seq!["clang++"@, "-std=c++17"@, "-DTARGET_OSX"@, "-c"@, file]
            },
            OS::Linux => seq!["clang++"@, "-std=c++17"@, "-DTARGET_LINUX"@, "-c"@, file],
            OS::Unknown => seq!["clang++"@, "-std=c++17"@, "-c"@, file],
        },
{
    let arguments = command_for(proj_dir, file, Seq::empty(), os, has_mac_sdk).arguments;
    match os {
        OS::Windows => {
            assert(arguments =~= seq![
                "clang++"@,
                "-std=c++17"@,
                "--target=x86_64-pc-windows-msvc"@,
                "-DWIN32"@,
                "-D_WIN32"@,
                "-DTARGET_WIN32"@,
                "-D_CRT_SECURE_NO_WARNINGS"@,
                "-c"@,
                file,
            ]);
        },
        OS::Mac => {
            if has_mac_sdk {
                assert(arguments =~= seq![
                    "clang++"@,
                    "-std=c++17"@,
                    "-DTARGET_OSX"@,
                    "-isysroot"@,
                    MAC_SDK_ROOT@,
                    "-F"@,
                    MAC_SDK_ROOT@ + "/System/Library/Frameworks"@,
                    "-c"@,
                    file,
                ]);
            } else {
                assert(arguments =~= seq![
                    "clang++"@,
                    "-std=c++17"@,
                    "-DTARGET_OSX"@,
                    "-c"@,
                    file,
                ]);
            }
        },
        OS::Linux => {
            assert(arguments =~= seq!["clang++"@, "-std=c++17"@, "-DTARGET_LINUX"@, "-c"@, file]);
        },
        OS::Unknown => {
            assert(arguments =~= seq!["clang++"@, "-std=c++17"@, "-c"@, file]);
        },
    }
}

} // verus!

//! The configuration of clangd, for files that the compilation database does not list.

use vstd::prelude::*;

use crate::commands::{add_argument, add_search_arguments};
use crate::platform::{MAC_SDK_ROOT, OS};

verus! {

/// What the configuration begins with.
pub open spec fn preamble() -> Seq<char> {
    "# Generated by of-zed-project-generator-rs for Zed editor\n"@
        + "# yaml-language-server: $schema=https://json.schemastore.org/clangd.json\n\n"@
        + "CompileFlags:\n"@ + "  CompilationDatabase: .\n"@ + "  Add:\n"@
}

/// The line of the configuration that lists one flag.
pub open spec fn item(flag: Seq<char>) -> Seq<char> {
    "    - "@ + flag + "\n"@
}

/// The lines that list the flags.
pub open spec fn items(flags: Seq<Seq<char>>) -> Seq<char>
    decreases flags.len(),
{
    if flags.len() == 0 {
        Seq::empty()
    } else {
        items(flags.drop_last()) + item(flags.last())
    }
}

/// The flags that select the system.
pub open spec fn system_flags(os: OS, has_mac_sdk: bool) -> Seq<Seq<char>> {
    match os {
        OS::Windows => seq![
            "--target=x86_64-pc-windows-msvc"@,
            "-DWIN32"@,
            "-D_WIN32"@,
            "-DTARGET_WIN32"@,
            "-D_CRT_SECURE_NO_WARNINGS"@,
        ],
        OS::Mac => if has_mac_sdk {
            seq![
                "-DTARGET_OSX"@,
                "-isysroot"@,
                MAC_SDK_ROOT@,
                "-F"@ + crate::commands::mac_frameworks(),
            ]
        } else {
            seq!["-DTARGET_OSX"@]
        },
        OS::Linux => seq!["-DTARGET_LINUX"@],
        OS::Unknown => Seq::empty(),
    }
}

/// All flags that the configuration adds.
pub open spec fn added_flags(include_dirs: Seq<Seq<char>>, os: OS, has_mac_sdk: bool) -> Seq<
    Seq<char>,
> {
    seq!["-std=c++17"@] + system_flags(os, has_mac_sdk) + crate::commands::search_arguments(
        include_dirs,
    )
}

/// The text of the configuration.
pub open spec fn config_text(include_dirs: Seq<Seq<char>>, os: OS, has_mac_sdk: bool) -> Seq<char> {
    preamble() + items(added_flags(include_dirs, os, has_mac_sdk))
}

/// The flags that the configuration adds.
fn list_flags(include_dirs: &[String], os: OS, has_mac_sdk: bool) -> (res: Vec<String>)
    ensures
        crate::path_set::texts(res@) == added_flags(
            crate::path_set::texts(include_dirs@),
            os,
            has_mac_sdk,
        ),
{
    let mut flags: Vec<String> = Vec::new();
    assert(crate::path_set::texts(flags@) =~= Seq::empty());
    add_argument(&mut flags, "-std=c++17");
    if os == OS::Windows {
        add_argument(&mut flags, "--target=x86_64-pc-windows-msvc");
        add_argument(&mut flags, "-DWIN32");
        add_argument(&mut flags, "-D_WIN32");
        add_argument(&mut flags, "-DTARGET_WIN32");
        add_argument(&mut flags, "-D_CRT_SECURE_NO_WARNINGS");
    } else if os == OS::Mac {
        add_argument(&mut flags, "-DTARGET_OSX");
        if has_mac_sdk {
            add_argument(&mut flags, "-isysroot");
            add_argument(&mut flags, MAC_SDK_ROOT);
            let mut frameworks = "-F".to_string();
            frameworks.append(MAC_SDK_ROOT);
            frameworks.append("/System/Library/Frameworks");
            assert(frameworks@ =~= "-F"@ + crate::commands::mac_frameworks());
            add_argument(&mut flags, frameworks.as_str());
        }
    } else if os == OS::Linux {
        add_argument(&mut flags, "-DTARGET_LINUX");
    }
    assert(crate::path_set::texts(flags@) =~= seq!["-std=c++17"@] + system_flags(os, has_mac_sdk));
    add_search_arguments(&mut flags, include_dirs);
    flags
}

/// The configuration of clangd. `has_mac_sdk` says whether the SDK of macOS is
/// installed.
pub fn generate_clangd_config(include_dirs: &[String], os: OS, has_mac_sdk: bool) -> (res: String)
    ensures
        res@ == preamble() + items(
            added_flags(crate::path_set::texts(include_dirs@), os, has_mac_sdk),
        ),
        res@ == config_text(crate::path_set::texts(include_dirs@), os, has_mac_sdk),
        include_dirs@.len() > 0 ==> ("    - -I"@ + include_dirs@.last()@ + "\n"@).is_suffix_of(res@),
{
    let flags = list_flags(include_dirs, os, has_mac_sdk);
    let ghost added = crate::path_set::texts(flags@);
    let mut yaml: String = String::new();
    yaml.append("# Generated by of-zed-project-generator-rs for Zed editor\n");
    yaml.append("# yaml-language-server: $schema=https://json.schemastore.org/clangd.json\n\n");
    yaml.append("CompileFlags:\n");
    yaml.append("  CompilationDatabase: .\n");
    yaml.append("  Add:\n");
    assert(yaml@ =~= preamble() + items(added.take(0)));
    let mut i: usize = 0;
    while i < flags.len()
        invariant
            i <= flags.len(),
            added == crate::path_set::texts(flags@),
            yaml@ == preamble() + items(added.take(i as int)),
        decreases flags.len() - i,
    {
        yaml.append("    - ");
        yaml.append(flags[i].as_str());
        yaml.append("\n");
        i += 1;
        assert(added.take(i as int).drop_last() =~= added.take(i - 1));
        assert(yaml@ =~= preamble() + items(added.take(i as int)));
    }
    assert(added.take(added.len() as int) =~= added);
    proof {
        let dirs = crate::path_set::texts(include_dirs@);
        if dirs.len() > 0 {
            lemma_config_ends_with_last_directory(dirs, os, has_mac_sdk);
        }
    }
    yaml
}

/// The configuration adds the flags that the compilation database gives to every
/// source file, but for the name of the compiler, in the same order. Only the
/// directory of the frameworks of macOS is written differently: the configuration has
/// it in one flag with its `-F`, the database in an argument of its own.
pub proof fn lemma_config_agrees_with_database(
    include_dirs: Seq<Seq<char>>,
    os: OS,
    has_mac_sdk: bool,
)
    ensures
        ({
            let flags = added_flags(include_dirs, os, has_mac_sdk);
            let arguments = crate::commands::common_arguments(include_dirs, os, has_mac_sdk);
            if os == OS::Mac && has_mac_sdk {
                &&& flags.take(4) == arguments.subrange(1, 5)
                &&& flags[4] == arguments[5] + arguments[6]
                &&& flags.skip(5) == arguments.skip(7)
            } else {
                flags == arguments.skip(1)
            }
        }),
{
    let flags = added_flags(include_dirs, os, has_mac_sdk);
    let arguments = crate::commands::common_arguments(include_dirs, os, has_mac_sdk);
    if os == OS::Mac && has_mac_sdk {
        assert(flags.take(4) =~= arguments.subrange(1, 5));
        assert(flags.skip(5) =~= arguments.skip(7));
    } else {
        assert(flags =~= arguments.skip(1));
    }
}

/// What lists one flag more has one line more, at its end.
proof fn lemma_one_flag_more(flags: Seq<Seq<char>>, flag: Seq<char>)
    ensures
        items(flags.push(flag)) == items(flags) + "    - "@ + flag + "\n"@,
{
    assert(flags.push(flag).drop_last() =~= flags);
    assert(items(flags) + ("    - "@ + flag + "\n"@) =~= items(flags) + "    - "@ + flag + "\n"@);
}

/// Each directory of the search path has a line of its own in the configuration: with one
/// directory more at its end, the text has one line more at its end, and else stays as it
/// was.
pub proof fn lemma_each_directory_adds_a_line(
    include_dirs: Seq<Seq<char>>,
    dir: Seq<char>,
    os: OS,
    has_mac_sdk: bool,
)
    ensures
        config_text(include_dirs.push(dir), os, has_mac_sdk) == config_text(
            include_dirs,
            os,
            has_mac_sdk,
        ) + "    - -I"@ + dir + "\n"@,
{
    let flags = added_flags(include_dirs, os, has_mac_sdk);
    let more = added_flags(include_dirs.push(dir), os, has_mac_sdk);
    assert(more =~= flags.push("-I"@ + dir));
    lemma_one_flag_more(flags, "-I"@ + dir);
    reveal_strlit("    - ");
    reveal_strlit("-I");
    reveal_strlit("    - -I");
    assert("    - -I"@ =~= "    - "@ + "-I"@);
    assert(config_text(include_dirs.push(dir), os, has_mac_sdk) =~= config_text(
        include_dirs,
        os,
        has_mac_sdk,
    ) + "    - -I"@ + dir + "\n"@);
}

proof fn lemma_config_ends_with_last_directory(
    include_dirs: Seq<Seq<char>>,
    os: OS,
    has_mac_sdk: bool,
)
    requires
        include_dirs.len() > 0,
    ensures
        ("    - -I"@ + include_dirs.last() + "\n"@).is_suffix_of(
            config_text(include_dirs, os, has_mac_sdk),
        ),
{
    let (rest, dir) = (include_dirs.drop_last(), include_dirs.last());
    lemma_each_directory_adds_a_line(rest, dir, os, has_mac_sdk);
    assert(rest.push(dir) =~= include_dirs);
    let text = config_text(include_dirs, os, has_mac_sdk);
    let line = "    - -I"@ + dir + "\n"@;
    assert(line =~= text.subrange(text.len() - line.len(), text.len() as int));
}

/// The line of each directory stands behind the text that the directories in front of it
/// give.
pub proof fn lemma_every_directory_has_a_line(
    include_dirs: Seq<Seq<char>>,
    os: OS,
    has_mac_sdk: bool,
    i: int,
)
    requires
        0 <= i < include_dirs.len(),
    ensures
        (config_text(include_dirs.take(i), os, has_mac_sdk) + "    - -I"@ + include_dirs[i]
            + "\n"@).is_prefix_of(config_text(include_dirs, os, has_mac_sdk)),
    decreases include_dirs.len(),
{
    let (rest, dir) = (include_dirs.drop_last(), include_dirs.last());
    lemma_each_directory_adds_a_line(rest, dir, os, has_mac_sdk);
    assert(rest.push(dir) =~= include_dirs);
    let text = config_text(include_dirs, os, has_mac_sdk);
    let front = config_text(include_dirs.take(i), os, has_mac_sdk) + "    - -I"@ + include_dirs[i]
        + "\n"@;
    if i == rest.len() {
        assert(include_dirs.take(i) =~= rest);
        assert(front =~= text.subrange(0, front.len() as int));
    } else {
        lemma_every_directory_has_a_line(rest, os, has_mac_sdk, i);
        assert(rest.take(i) =~= include_dirs.take(i));
        let shorter = config_text(rest, os, has_mac_sdk);
        assert(front =~= shorter.subrange(0, front.len() as int));
        assert(shorter =~= text.subrange(0, shorter.len() as int));
        assert(front =~= text.subrange(0, front.len() as int));
    }
}

/// The line of a flag, behind the lines of others.
proof fn lemma_one_line_more(flags: Seq<Seq<char>>, flag: Seq<char>, line: Seq<char>)
    requires
        line == "    - "@ + flag + "\n"@,
    ensures
        items(flags.push(flag)) == items(flags) + line,
{
    lemma_one_flag_more(flags, flag);
    assert(items(flags) + "    - "@ + flag + "\n"@ =~= items(flags) + ("    - "@ + flag + "\n"@));
}

proof fn lemma_standard_line() -> (flags: Seq<Seq<char>>)
    ensures
        flags == seq!["-std=c++17"@],
        items(flags) == "    - -std=c++17\n"@,
{
    let none = Seq::<Seq<char>>::empty();
    lemma_item_texts();
    lemma_one_line_more(none, "-std=c++17"@, "    - -std=c++17\n"@);
    assert(none.push("-std=c++17"@) =~= seq!["-std=c++17"@]);
    assert(items(none) + "    - -std=c++17\n"@ =~= "    - -std=c++17\n"@);
    seq!["-std=c++17"@]
}

proof fn lemma_windows_lines(has_mac_sdk: bool)
    ensures
        items(added_flags(Seq::empty(), OS::Windows, has_mac_sdk)) == "    - -std=c++17\n"@
            + "    - --target=x86_64-pc-windows-msvc\n"@ + "    - -DWIN32\n"@
            + "    - -D_WIN32\n"@ + "    - -DTARGET_WIN32\n"@
            + "    - -D_CRT_SECURE_NO_WARNINGS\n"@,
{
    let a = lemma_standard_line();
    lemma_item_texts();
    let b = a.push("--target=x86_64-pc-windows-msvc"@);
    lemma_one_line_more(
        a,
        "--target=x86_64-pc-windows-msvc"@,
        "    - --target=x86_64-pc-windows-msvc\n"@,
    );
    let c = b.push("-DWIN32"@);
    lemma_one_line_more(b, "-DWIN32"@, "    - -DWIN32\n"@);
    let d = c.push("-D_WIN32"@);
    lemma_one_line_more(c, "-D_WIN32"@, "    - -D_WIN32\n"@);
    let e = d.push("-DTARGET_WIN32"@);
    lemma_one_line_more(d, "-DTARGET_WIN32"@, "    - -DTARGET_WIN32\n"@);
    let f = e.push("-D_CRT_SECURE_NO_WARNINGS"@);
    lemma_one_line_more(e, "-D_CRT_SECURE_NO_WARNINGS"@, "    - -D_CRT_SECURE_NO_WARNINGS\n"@);
    assert(added_flags(Seq::empty(), OS::Windows, has_mac_sdk) =~= f);
}

proof fn lemma_mac_lines()
    ensures
        items(added_flags(Seq::empty(), OS::Mac, false)) == "    - -std=c++17\n"@
            + "    - -DTARGET_OSX\n"@,
        items(added_flags(Seq::empty(), OS::Mac, true)) == "    - -std=c++17\n"@
            + "    - -DTARGET_OSX\n"@ + "    - -isysroot\n"@ + ("    - "@ + MAC_SDK_ROOT@ + "\n"@)
            + ("    - -F"@ + MAC_SDK_ROOT@ + "/System/Library/Frameworks\n"@),
{
    let a = lemma_standard_line();
    lemma_item_texts();
    let b = a.push("-DTARGET_OSX"@);
    lemma_one_line_more(a, "-DTARGET_OSX"@, "    - -DTARGET_OSX\n"@);
    assert(added_flags(Seq::empty(), OS::Mac, false) =~= b);
    let c = b.push("-isysroot"@);
    lemma_one_line_more(b, "-isysroot"@, "    - -isysroot\n"@);
    let d = c.push(MAC_SDK_ROOT@);
    lemma_one_line_more(c, MAC_SDK_ROOT@, "    - "@ + MAC_SDK_ROOT@ + "\n"@);
    let frameworks = "-F"@ + crate::commands::mac_frameworks();
    let line = "    - -F"@ + MAC_SDK_ROOT@ + "/System/Library/Frameworks\n"@;
    assert(line =~= "    - "@ + frameworks + "\n"@);
    lemma_one_line_more(d, frameworks, line);
    assert(added_flags(Seq::empty(), OS::Mac, true) =~= d.push(frameworks));
}

/// What the configuration says where no directory is searched: that the database is in
/// the same directory, the standard, and what selects the system.
pub proof fn lemma_config_without_directories(os: OS, has_mac_sdk: bool)
    ensures
        config_text(Seq::empty(), os, has_mac_sdk) == (
        "# Generated by of-zed-project-generator-rs for Zed editor\n"@
            + "# yaml-language-server: $schema=https://json.schemastore.org/clangd.json\n\n"@
            + "CompileFlags:\n"@ + "  CompilationDatabase: .\n"@ + "  Add:\n"@) + match os {
            OS::Windows => "    - -std=c++17\n"@ + "    - --target=x86_64-pc-windows-msvc\n"@
                + "    - -DWIN32\n"@ + "    - -D_WIN32\n"@ + "    - -DTARGET_WIN32\n"@
                + "    - -D_CRT_SECURE_NO_WARNINGS\n"@,
            OS::Mac => if has_mac_sdk {
                "    - -std=c++17\n"@ + "    - -DTARGET_OSX\n"@ + "    - -isysroot\n"@ + (
                "    - "@ + MAC_SDK_ROOT@ + "\n"@) + ("    - -F"@ + MAC_SDK_ROOT@
                    + "/System/Library/Frameworks\n"@)
            } else {
                "    - -std=c++17\n"@ + "    - -DTARGET_OSX\n"@
            },
            OS::Linux => "    - -std=c++17\n"@ + "    - -DTARGET_LINUX\n"@,
            OS::Unknown => "    - -std=c++17\n"@,
        },
{
    let a = lemma_standard_line();
    match os {
        OS::Windows => {
            lemma_windows_lines(has_mac_sdk);
        },
        OS::Mac => {
            lemma_mac_lines();
        },
        OS::Linux => {
            lemma_item_texts();
            lemma_one_line_more(a, "-DTARGET_LINUX"@, "    - -DTARGET_LINUX\n"@);
            assert(added_flags(Seq::empty(), os, has_mac_sdk) =~= a.push("-DTARGET_LINUX"@));
        },
        OS::Unknown => {
            assert(added_flags(Seq::empty(), os, has_mac_sdk) =~= a);
        },
    }
}

/// The lines of the flags that do not depend on the search path.
proof fn lemma_item_texts()
    ensures
        "    - -std=c++17\n"@ == "    - "@ + "-std=c++17"@ + "\n"@,
        "    - --target=x86_64-pc-windows-msvc\n"@ == "    - "@
            + "--target=x86_64-pc-windows-msvc"@ + "\n"@,
        "    - -DWIN32\n"@ == "    - "@ + "-DWIN32"@ + "\n"@,
        "    - -D_WIN32\n"@ == "    - "@ + "-D_WIN32"@ + "\n"@,
        "    - -DTARGET_WIN32\n"@ == "    - "@ + "-DTARGET_WIN32"@ + "\n"@,
        "    - -D_CRT_SECURE_NO_WARNINGS\n"@ == "    - "@ + "-D_CRT_SECURE_NO_WARNINGS"@ + "\n"@,
        "    - -DTARGET_OSX\n"@ == "    - "@ + "-DTARGET_OSX"@ + "\n"@,
        "    - -isysroot\n"@ == "    - "@ + "-isysroot"@ + "\n"@,
        "    - -DTARGET_LINUX\n"@ == "    - "@ + "-DTARGET_LINUX"@ + "\n"@,
        "    - -F"@ == "    - "@ + "-F"@,
        "/System/Library/Frameworks\n"@ == "/System/Library/Frameworks"@ + "\n"@,
{
    reveal_strlit("    - ");
    reveal_strlit("\n");
    reveal_strlit("-std=c++17");
    reveal_strlit("    - -std=c++17\n");
    reveal_strlit("--target=x86_64-pc-windows-msvc");
    reveal_strlit("    - --target=x86_64-pc-windows-msvc\n");
    reveal_strlit("-DWIN32");
    reveal_strlit("    - -DWIN32\n");
    reveal_strlit("-D_WIN32");
    reveal_strlit("    - -D_WIN32\n");
    reveal_strlit("-DTARGET_WIN32");
    reveal_strlit("    - -DTARGET_WIN32\n");
    reveal_strlit("-D_CRT_SECURE_NO_WARNINGS");
    reveal_strlit("    - -D_CRT_SECURE_NO_WARNINGS\n");
    reveal_strlit("-DTARGET_OSX");
    reveal_strlit("    - -DTARGET_OSX\n");
    reveal_strlit("-isysroot");
    reveal_strlit("    - -isysroot\n");
    reveal_strlit("-DTARGET_LINUX");
    reveal_strlit("    - -DTARGET_LINUX\n");
    reveal_strlit("-F");
    reveal_strlit("    - -F");
    reveal_strlit("/System/Library/Frameworks");
    reveal_strlit("/System/Library/Frameworks\n");
}

} // verus!

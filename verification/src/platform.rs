//! The operating system that the configuration is generated on.

use vstd::prelude::*;

use crate::text::same_text;

verus! {

/// Where Xcode installs the SDK of macOS.
pub const MAC_SDK_ROOT: &'static str = "/Applications/Xcode.app/Contents/Developer/Platforms/MacOSX.platform/Developer/SDKs/MacOSX.sdk";

#[derive(Debug, PartialEq, Eq, Clone, Copy, Structural)]
pub enum OS {
    Mac,
    Linux,
    Windows,
    Unknown,
}

impl OS {
    /// The name under which the system is shown to the user.
    pub open spec fn shown(self) -> Seq<char> {
        match self {
            OS::Mac => "Mac"@,
            OS::Linux => "Linux"@,
            OS::Windows => "Win32"@,
            OS::Unknown => "Unknown"@,
        }
    }

    /// The system that a target's name stands for.
    pub open spec fn named(target_os: Seq<char>) -> OS {
        if target_os == "macos"@ {
            OS::Mac
        } else if target_os == "linux"@ {
            OS::Linux
        } else if target_os == "windows"@ {
            OS::Windows
        } else {
            OS::Unknown
        }
    }

    pub fn to_str(&self) -> (res: &'static str)
        ensures
            res@ == self.shown(),
    {
        match self {
            OS::Mac => "Mac",
            OS::Linux => "Linux",
            OS::Windows => "Win32",
            OS::Unknown => "Unknown",
        }
    }

    /// The system that a program runs on, given the name of the target that it
    /// was compiled for (`target_os`).
    pub fn current(target_os: &str) -> (res: Self)
        ensures
            res == OS::named(target_os@),
            res == OS::Mac <==> target_os@ == "macos"@,
            res == OS::Linux <==> target_os@ == "linux"@,
            res == OS::Windows <==> target_os@ == "windows"@,
    {
        proof {
            lemma_systems_by_target(target_os@);
        }
        if same_text(target_os, "macos") {
            OS::Mac
        } else if same_text(target_os, "linux") {
            OS::Linux
        } else if same_text(target_os, "windows") {
            OS::Windows
        } else {
            OS::Unknown
        }
    }
}

/// Three targets stand for a system each, and all others for none that is known.
pub proof fn lemma_systems_by_target(target_os: Seq<char>)
    ensures
        OS::named(target_os) == OS::Mac <==> target_os == "macos"@,
        OS::named(target_os) == OS::Linux <==> target_os == "linux"@,
        OS::named(target_os) == OS::Windows <==> target_os == "windows"@,
        OS::named(target_os) == OS::Unknown <==> target_os != "macos"@ && target_os != "linux"@
            && target_os != "windows"@,
{
    reveal_strlit("macos");
    reveal_strlit("linux");
    reveal_strlit("windows");
    assert("macos"@[0] != "linux"@[0]);
    assert("macos"@.len() != "windows"@.len());
    assert("linux"@.len() != "windows"@.len());
}

/// No two systems are shown under the same name, and Windows is shown under that of its
/// interface.
pub proof fn lemma_systems_are_told_apart(os: OS, other: OS)
    ensures
        os.shown() == other.shown() ==> os == other,
        os.shown() == "Win32"@ <==> os == OS::Windows,
        os.shown() == "Mac"@ <==> os == OS::Mac,
        os.shown() == "Linux"@ <==> os == OS::Linux,
        os.shown() == "Unknown"@ <==> os == OS::Unknown,
{
    reveal_strlit("Mac");
    reveal_strlit("Linux");
    reveal_strlit("Win32");
    reveal_strlit("Unknown");
    assert("Mac"@.len() == 3);
    assert("Linux"@[0] == 'L' && "Win32"@[0] == 'W');
    assert("Unknown"@.len() == 7);
}

} // verus!

//! What was found on disk of a project, and the search path that it gives.

use vstd::prelude::*;

use crate::dirs::{add_directories_recursively, DirTree};
use crate::excludes::{parse_addon_excludes, ExcludePattern};
use crate::path_set::PathSet;
use crate::paths::normalize_windows_path;
use crate::places::{addon_reference, mac_header_place, CORE_LIBRARY};
use crate::platform::OS;
use crate::text::same_text;

verus! {

/// A library of openFrameworks.
pub struct Library {
    /// The name of its directory.
    pub name: String,
    /// Its headers, where it has any.
    pub headers: Option<DirTree>,
}

/// A library that an addon brings along.
pub struct AddonLibrary {
    pub sources: Option<DirTree>,
    pub headers: Option<DirTree>,
}

/// An addon of the project.
pub struct Addon {
    /// Its canonical path.
    pub path: String,
    /// The lines of its configuration file, `None` for one that could not be read.
    pub config: Vec<Option<String>>,
    pub sources: Option<DirTree>,
    pub libraries: Vec<AddonLibrary>,
}

/// A line of the list of addons.
pub struct ListedAddon {
    pub line: String,
    /// The addon at the path that the line refers to, where there is one.
    pub found: Option<Addon>,
}

/// All that the search path of a project depends on.
pub struct Project {
    pub path: String,
    pub sources: Option<DirTree>,
    /// openFrameworks itself.
    pub core: Option<DirTree>,
    /// The directories next to it.
    pub libraries: Vec<Library>,
    /// The list of addons, line by line.
    pub addons: Vec<ListedAddon>,
    /// Whether the SDK of macOS is installed.
    pub has_mac_sdk: bool,
    /// The directory of headers in the SDK of macOS, where it is there.
    pub mac_headers: Option<DirTree>,
    /// The directories of headers that MSVC and the Windows SDK brought.
    pub windows_sdk: Vec<DirTree>,
}

/// Whether a directory that may be missing contributes `dir`.
pub open spec fn found_contributes(
    found: Option<DirTree>,
    excludes: Seq<crate::excludes::Exclusion>,
    dir: Seq<char>,
) -> bool {
    match found {
        Some(tree) => tree.contributes(excludes, dir),
        None => false,
    }
}

impl Library {
    /// The headers of every library but openFrameworks itself are searched.
    pub open spec fn contributes(self, dir: Seq<char>) -> bool {
        self.name@ != CORE_LIBRARY@ && found_contributes(self.headers, Seq::empty(), dir)
    }
}

impl AddonLibrary {
    pub open spec fn contributes(
        self,
        excludes: Seq<crate::excludes::Exclusion>,
        dir: Seq<char>,
    ) -> bool {
        found_contributes(self.sources, excludes, dir) || found_contributes(
            self.headers,
            excludes,
            dir,
        )
    }
}

impl Addon {
    /// The sources of an addon, and the sources and the headers of its libraries, are
    /// searched, but for what its patterns cover.
    pub open spec fn contributes(
        self,
        excludes: Seq<crate::excludes::Exclusion>,
        dir: Seq<char>,
    ) -> bool {
        ||| found_contributes(self.sources, excludes, dir)
        ||| exists|i: int|
            0 <= i < self.libraries@.len() && (#[trigger] self.libraries@[i]).contributes(
                excludes,
                dir,
            )
    }

    /// Whether `excludes` are the patterns that are followed for this addon: none
    /// where they are to be ignored, else those of its configuration file, joined to
    /// its path.
    pub open spec fn follows(
        self,
        os: OS,
        ignore_excludes: bool,
        excludes: Seq<crate::excludes::Exclusion>,
    ) -> bool {
        if ignore_excludes {
            excludes == Seq::<crate::excludes::Exclusion>::empty()
        } else {
            crate::excludes::are_anchored(
                self.path@,
                crate::excludes::patterns_of(crate::excludes::line_texts(self.config@), os),
                excludes,
            )
        }
    }
}

impl ListedAddon {
    /// The addon that a line adds to the project. An empty line and a comment add none,
    /// nor does a line that refers to an addon that is not there.
    pub open spec fn adds(self) -> Option<Addon> {
        if crate::excludes::is_silent(crate::text::trimmed(self.line@)) {
            None
        } else {
            self.found
        }
    }

    pub open spec fn contributes(
        self,
        excludes: Seq<crate::excludes::Exclusion>,
        dir: Seq<char>,
    ) -> bool {
        match self.adds() {
            Some(addon) => addon.contributes(excludes, dir),
            None => false,
        }
    }

    /// Whether `excludes` are the patterns that are followed for the addon that this
    /// line adds, if it does.
    pub open spec fn follows(
        self,
        os: OS,
        ignore_excludes: bool,
        excludes: Seq<crate::excludes::Exclusion>,
    ) -> bool {
        match self.adds() {
            Some(addon) => addon.follows(os, ignore_excludes, excludes),
            None => excludes == Seq::<crate::excludes::Exclusion>::empty(),
        }
    }

    /// The addon that a line adds to the project.
    pub fn added(&self) -> (res: Option<&Addon>)
        ensures
            match res {
                Some(addon) => self.adds() == Some(*addon),
                None => self.adds() is None,
            },
    {
        match addon_reference(self.line.as_str()) {
            Some(_) => match &self.found {
                Some(addon) => Some(addon),
                None => None,
            },
            None => None,
        }
    }
}

/// What a list of lists of patterns says.
pub open spec fn exclusion_lists(lists: Seq<Vec<ExcludePattern>>) -> Seq<
    Seq<crate::excludes::Exclusion>,
> {
    lists.map_values(|list: Vec<ExcludePattern>| crate::excludes::exclusions(list@))
}

impl Project {
    /// Whether `dir` is on the search path, where `excludes` holds the patterns that
    /// are followed for each line of the list of addons.
    pub open spec fn searches(
        self,
        excludes: Seq<Seq<crate::excludes::Exclusion>>,
        os: OS,
        dir: Seq<char>,
    ) -> bool {
        ||| dir == crate::paths::normalized(self.path@)
        ||| found_contributes(self.sources, Seq::empty(), dir)
        ||| found_contributes(self.core, Seq::empty(), dir)
        ||| exists|i: int|
            0 <= i < self.libraries@.len() && (#[trigger] self.libraries@[i]).contributes(dir)
        ||| exists|i: int|
            0 <= i < self.addons@.len() && (#[trigger] self.addons@[i]).contributes(
                excludes[i],
                dir,
            )
        ||| os == OS::Mac && self.has_mac_sdk && {
            ||| dir == crate::platform::MAC_SDK_ROOT@ + "/usr/include"@
            ||| found_contributes(self.mac_headers, Seq::empty(), dir)
        }
        ||| os == OS::Windows && exists|i: int|
            0 <= i < self.windows_sdk@.len() && (#[trigger] self.windows_sdk@[i]).contributes(
                Seq::empty(),
                dir,
            )
    }

    /// The search path as a set.
    pub open spec fn search_path(
        self,
        excludes: Seq<Seq<crate::excludes::Exclusion>>,
        os: OS,
    ) -> Set<Seq<char>> {
        Set::new(|dir: Seq<char>| self.searches(excludes, os, dir))
    }

    /// Whether `excludes` holds, for each line of the list of addons, the patterns that
    /// are followed.
    pub open spec fn follows(
        self,
        os: OS,
        ignore_excludes: bool,
        excludes: Seq<Seq<crate::excludes::Exclusion>>,
    ) -> bool {
        &&& excludes.len() == self.addons@.len()
        &&& forall|i: int|
            0 <= i < self.addons@.len() ==> self.addons@[i].follows(
                os,
                ignore_excludes,
                #[trigger] excludes[i],
            )
    }
}

/// Whether a directory next to openFrameworks itself is that of another library.
pub fn is_other_library(name: &str) -> (res: bool)
    ensures
        res == (name@ != CORE_LIBRARY@),
        res == (name@ != "openFrameworks"@),
{
    !same_text(name, CORE_LIBRARY)
}

fn add_found(found: &Option<DirTree>, excludes: &[ExcludePattern], include_paths: &mut PathSet)
    ensures
        forall|d: Seq<char>| #[trigger]
            final(include_paths)@.contains(d) <==> old(include_paths)@.contains(d)
                || found_contributes(*found, crate::excludes::exclusions(excludes@), d),
{
    match found {
        Some(tree) => add_directories_recursively(tree, excludes, include_paths),
        None => {},
    }
}

fn add_libraries(libraries: &[Library], include_paths: &mut PathSet)
    ensures
        forall|d: Seq<char>| #[trigger]
            final(include_paths)@.contains(d) <==> old(include_paths)@.contains(d) || exists|i: int|
                0 <= i < libraries@.len() && (#[trigger] libraries@[i]).contributes(d),
{
    let none: Vec<ExcludePattern> = Vec::new();
    assert(crate::excludes::exclusions(none@) =~= Seq::empty());
    let mut i: usize = 0;
    while i < libraries.len()
        invariant
            i <= libraries.len(),
            crate::excludes::exclusions(none@) == Seq::<crate::excludes::Exclusion>::empty(),
            forall|d: Seq<char>| #[trigger]
                include_paths@.contains(d) <==> old(include_paths)@.contains(d) || exists|j: int|
                    0 <= j < i && (#[trigger] libraries@[j]).contributes(d),
        decreases libraries.len() - i,
    {
        let ghost before = include_paths@;
        let library = &libraries[i];
        if is_other_library(library.name.as_str()) {
            add_found(&library.headers, none.as_slice(), include_paths);
        }
        assert forall|d: Seq<char>| #[trigger]
            include_paths@.contains(d) <==> old(include_paths)@.contains(d) || exists|j: int|
                0 <= j < i + 1 && (#[trigger] libraries@[j]).contributes(d) by {
            assert(include_paths@.contains(d) <==> before.contains(d)
                || libraries@[i as int].contributes(d));
        }
        i += 1;
    }
}

fn add_trees(trees: &[DirTree], include_paths: &mut PathSet)
    ensures
        forall|d: Seq<char>| #[trigger]
            final(include_paths)@.contains(d) <==> old(include_paths)@.contains(d) || exists|i: int|
                0 <= i < trees@.len() && (#[trigger] trees@[i]).contributes(Seq::empty(), d),
{
    let none: Vec<ExcludePattern> = Vec::new();
    assert(crate::excludes::exclusions(none@) =~= Seq::empty());
    let mut i: usize = 0;
    while i < trees.len()
        invariant
            i <= trees.len(),
            crate::excludes::exclusions(none@) == Seq::<crate::excludes::Exclusion>::empty(),
            forall|d: Seq<char>| #[trigger]
                include_paths@.contains(d) <==> old(include_paths)@.contains(d) || exists|j: int|
                    0 <= j < i && (#[trigger] trees@[j]).contributes(Seq::empty(), d),
        decreases trees.len() - i,
    {
        let ghost before = include_paths@;
        add_directories_recursively(&trees[i], none.as_slice(), include_paths);
        assert forall|d: Seq<char>| #[trigger]
            include_paths@.contains(d) <==> old(include_paths)@.contains(d) || exists|j: int|
                0 <= j < i + 1 && (#[trigger] trees@[j]).contributes(Seq::empty(), d) by {
            assert(include_paths@.contains(d) <==> before.contains(d)
                || trees@[i as int].contributes(Seq::empty(), d));
        }
        i += 1;
    }
}

fn add_addon(addon: &Addon, excludes: &[ExcludePattern], include_paths: &mut PathSet)
    ensures
        forall|d: Seq<char>| #[trigger]
            final(include_paths)@.contains(d) <==> old(include_paths)@.contains(d)
                || addon.contributes(crate::excludes::exclusions(excludes@), d),
{
    let ghost said = crate::excludes::exclusions(excludes@);
    add_found(&addon.sources, excludes, include_paths);
    let mut i: usize = 0;
    while i < addon.libraries.len()
        invariant
            i <= addon.libraries.len(),
            said == crate::excludes::exclusions(excludes@),
            forall|d: Seq<char>| #[trigger]
                include_paths@.contains(d) <==> {
                    ||| old(include_paths)@.contains(d)
                    ||| found_contributes(addon.sources, said, d)
                    ||| exists|j: int|
                        0 <= j < i && (#[trigger] addon.libraries@[j]).contributes(said, d)
                },
        decreases addon.libraries.len() - i,
    {
        let ghost before = include_paths@;
        let library = &addon.libraries[i];
        add_found(&library.sources, excludes, include_paths);
        add_found(&library.headers, excludes, include_paths);
        assert forall|d: Seq<char>| #[trigger] include_paths@.contains(d) <==> {
            ||| old(include_paths)@.contains(d)
            ||| found_contributes(addon.sources, said, d)
            ||| exists|j: int| 0 <= j < i + 1 && (#[trigger] addon.libraries@[j]).contributes(said, d)
        } by {
            assert(include_paths@.contains(d) <==> before.contains(d)
                || addon.libraries@[i as int].contributes(said, d));
        }
        i += 1;
    }
}

/// The search path of a project, sorted, where `excludes` holds the patterns that are
/// followed for each line of the list of addons.
pub fn search_directories(project: &Project, excludes: &[Vec<ExcludePattern>], os: OS) -> (res: Vec<
    String,
>)
    requires
        excludes@.len() == project.addons@.len(),
    ensures
        crate::path_set::strictly_sorted(crate::path_set::texts(res@)),
        crate::path_set::texts(res@).to_set() == project.search_path(
            exclusion_lists(excludes@),
            os,
        ),
{
    let ghost said = exclusion_lists(excludes@);
    let none: Vec<ExcludePattern> = Vec::new();
    assert(crate::excludes::exclusions(none@) =~= Seq::empty());
    let mut include_paths = PathSet::new();
    include_paths.insert(normalize_windows_path(project.path.as_str()));
    add_found(&project.sources, none.as_slice(), &mut include_paths);
    add_found(&project.core, none.as_slice(), &mut include_paths);
    add_libraries(project.libraries.as_slice(), &mut include_paths);
    let ghost fixed = include_paths@;
    let mut i: usize = 0;
    while i < project.addons.len()
        invariant
            i <= project.addons.len(),
            excludes@.len() == project.addons@.len(),
            said == exclusion_lists(excludes@),
            forall|d: Seq<char>| #[trigger]
                include_paths@.contains(d) <==> fixed.contains(d) || exists|j: int|
                    0 <= j < i && (#[trigger] project.addons@[j]).contributes(said[j], d),
        decreases project.addons.len() - i,
    {
        let ghost before = include_paths@;
        assert(said[i as int] == crate::excludes::exclusions(excludes@[i as int]@));
        if let Some(addon) = project.addons[i].added() {
            add_addon(addon, excludes[i].as_slice(), &mut include_paths);
        }
        assert forall|d: Seq<char>| #[trigger]
            include_paths@.contains(d) <==> fixed.contains(d) || exists|j: int|
                0 <= j < i + 1 && (#[trigger] project.addons@[j]).contributes(said[j], d) by {
            assert(include_paths@.contains(d) <==> before.contains(d)
                || project.addons@[i as int].contributes(said[i as int], d));
        }
        i += 1;
    }
    if os == OS::Mac && project.has_mac_sdk {
        include_paths.insert(mac_header_place());
        add_found(&project.mac_headers, none.as_slice(), &mut include_paths);
    }
    if os == OS::Windows {
        add_trees(project.windows_sdk.as_slice(), &mut include_paths);
    }
    assert(include_paths@ =~= project.search_path(said, os));
    include_paths.into_sorted()
}

/// The search path of a project, sorted. The patterns in the configuration files of
/// the addons are followed unless `ignore_excludes` is set.
pub fn collect_include_directories(project: &Project, os: OS, ignore_excludes: bool) -> (res: Vec<
    String,
>)
    ensures
        crate::path_set::strictly_sorted(crate::path_set::texts(res@)),
        exists|excludes: Seq<Seq<crate::excludes::Exclusion>>| #[trigger]
            project.follows(os, ignore_excludes, excludes) && crate::path_set::texts(res@).to_set()
                == project.search_path(excludes, os),
{
    let mut excludes: Vec<Vec<ExcludePattern>> = Vec::new();
    let mut i: usize = 0;
    while i < project.addons.len()
        invariant
            i <= project.addons.len(),
            excludes@.len() == i,
            forall|j: int|
                0 <= j < i ==> project.addons@[j].follows(
                    os,
                    ignore_excludes,
                    #[trigger] exclusion_lists(excludes@)[j],
                ),
        decreases project.addons.len() - i,
    {
        let ghost before = exclusion_lists(excludes@);
        let mut followed: Vec<ExcludePattern> = Vec::new();
        assert(crate::excludes::exclusions(followed@) =~= Seq::empty());
        if let Some(addon) = project.addons[i].added() {
            if !ignore_excludes {
                followed =
                parse_addon_excludes(addon.path.as_str(), addon.config.as_slice(), os);
            }
        }
        excludes.push(followed);
        assert(exclusion_lists(excludes@) =~= before.push(crate::excludes::exclusions(followed@)));
        assert forall|j: int| 0 <= j < i + 1 implies project.addons@[j].follows(
            os,
            ignore_excludes,
            #[trigger] exclusion_lists(excludes@)[j],
        ) by {
            if j < i {
                assert(before[j] == exclusion_lists(excludes@)[j]);
            }
        }
        i += 1;
    }
    assert(project.follows(os, ignore_excludes, exclusion_lists(excludes@)));
    search_directories(project, excludes.as_slice(), os)
}

impl Project {
    /// No patterns for any line of the list of addons.
    pub open spec fn no_patterns(self) -> Seq<Seq<crate::excludes::Exclusion>> {
        Seq::new(self.addons@.len(), |i: int| Seq::empty())
    }
}

proof fn lemma_found_with_fewer_exclusions(
    found: Option<DirTree>,
    strict: Seq<crate::excludes::Exclusion>,
    lax: Seq<crate::excludes::Exclusion>,
    dir: Seq<char>,
)
    requires
        forall|d: Seq<char>| #[trigger]
            crate::excludes::is_excluded(d, lax) ==> crate::excludes::is_excluded(d, strict),
    ensures
        found_contributes(found, strict, dir) ==> found_contributes(found, lax, dir),
{
    if found_contributes(found, strict, dir) {
        crate::dirs::lemma_fewer_exclusions_contribute_more(found->0, strict, lax, dir);
    }
}

/// The fewer directories the patterns exclude, the more an addon contributes.
pub proof fn lemma_addon_with_fewer_exclusions(
    addon: Addon,
    strict: Seq<crate::excludes::Exclusion>,
    lax: Seq<crate::excludes::Exclusion>,
    dir: Seq<char>,
)
    requires
        forall|d: Seq<char>| #[trigger]
            crate::excludes::is_excluded(d, lax) ==> crate::excludes::is_excluded(d, strict),
        addon.contributes(strict, dir),
    ensures
        addon.contributes(lax, dir),
{
    lemma_found_with_fewer_exclusions(addon.sources, strict, lax, dir);
    if !found_contributes(addon.sources, strict, dir) {
        let i = choose|i: int|
            0 <= i < addon.libraries@.len() && (#[trigger] addon.libraries@[i]).contributes(
                strict,
                dir,
            );
        lemma_found_with_fewer_exclusions(addon.libraries@[i].sources, strict, lax, dir);
        lemma_found_with_fewer_exclusions(addon.libraries@[i].headers, strict, lax, dir);
        assert(addon.libraries@[i].contributes(lax, dir));
    }
}

/// Patterns only take directories away: what is searched with them is searched without
/// them.
pub proof fn lemma_patterns_only_remove(
    project: Project,
    excludes: Seq<Seq<crate::excludes::Exclusion>>,
    os: OS,
    dir: Seq<char>,
)
    requires
        project.searches(excludes, os, dir),
    ensures
        project.searches(project.no_patterns(), os, dir),
{
    if exists|i: int|
        0 <= i < project.addons@.len() && (#[trigger] project.addons@[i]).contributes(
            excludes[i],
            dir,
        ) {
        let i = choose|i: int|
            0 <= i < project.addons@.len() && (#[trigger] project.addons@[i]).contributes(
                excludes[i],
                dir,
            );
        lemma_addon_with_fewer_exclusions(
            project.addons@[i].adds()->0,
            excludes[i],
            Seq::empty(),
            dir,
        );
        assert(project.no_patterns()[i] =~= Seq::empty());
        assert(project.addons@[i].contributes(project.no_patterns()[i], dir));
    }
}

/// To ignore the patterns is to follow none: the search path is then the whole one.
pub proof fn lemma_ignoring_follows_none(
    project: Project,
    os: OS,
    excludes: Seq<Seq<crate::excludes::Exclusion>>,
)
    ensures
        project.follows(os, true, excludes) <==> excludes == project.no_patterns(),
{
    if project.follows(os, true, excludes) {
        assert(excludes =~= project.no_patterns()) by {
            assert forall|i: int| 0 <= i < excludes.len() implies #[trigger] excludes[i]
                == project.no_patterns()[i] by {
                assert(project.addons@[i].follows(os, true, excludes[i]));
            }
        }
    }
}

/// The patterns of addons concern addons alone: whatever they are, the directory of the
/// project is searched, and so are all directories of its sources, of openFrameworks, of
/// the headers of the other libraries and of the SDK of the system.
pub proof fn lemma_patterns_concern_addons_alone(
    project: Project,
    excludes: Seq<Seq<crate::excludes::Exclusion>>,
    os: OS,
)
    ensures
        project.search_path(excludes, os).contains(crate::paths::normalized(project.path@)),
        project.sources matches Some(tree) ==> tree.dirs(Seq::empty()).subset_of(
            project.search_path(excludes, os),
        ),
        project.core matches Some(tree) ==> tree.dirs(Seq::empty()).subset_of(
            project.search_path(excludes, os),
        ),
        forall|i: int|
            0 <= i < project.libraries@.len() && (#[trigger] project.libraries@[i]).name@
                != CORE_LIBRARY@ ==> (project.libraries@[i].headers matches Some(tree)
                ==> tree.dirs(Seq::empty()).subset_of(project.search_path(excludes, os))),
        os == OS::Mac && project.has_mac_sdk ==> (project.mac_headers matches Some(tree)
            ==> tree.dirs(Seq::empty()).subset_of(project.search_path(excludes, os))),
        os == OS::Windows ==> forall|i: int|
            0 <= i < project.windows_sdk@.len() ==> (#[trigger] project.windows_sdk@[i]).dirs(
                Seq::empty(),
            ).subset_of(project.search_path(excludes, os)),
{
    assert forall|i: int|
        0 <= i < project.libraries@.len() && (#[trigger] project.libraries@[i]).name@
            != CORE_LIBRARY@ implies (project.libraries@[i].headers matches Some(tree)
        ==> tree.dirs(Seq::empty()).subset_of(project.search_path(excludes, os))) by {
        if let Some(tree) = project.libraries@[i].headers {
            assert forall|d: Seq<char>|
                tree.dirs(Seq::empty()).contains(d) implies project.search_path(
                excludes,
                os,
            ).contains(d) by {
                assert(project.libraries@[i].contributes(d));
            }
        }
    }
}

/// Every directory of the search path is written the one way.
pub proof fn lemma_search_path_is_normalized(
    project: Project,
    excludes: Seq<Seq<crate::excludes::Exclusion>>,
    os: OS,
    dir: Seq<char>,
)
    requires
        project.searches(excludes, os, dir),
    ensures
        crate::paths::normalized(dir) == dir,
{
    let none = Seq::<crate::excludes::Exclusion>::empty();
    lemma_found_is_normalized(project.sources, none, dir);
    lemma_found_is_normalized(project.core, none, dir);
    lemma_found_is_normalized(project.mac_headers, none, dir);
    crate::paths::lemma_normalizing_is_idempotent(project.path@);
    if exists|i: int|
        0 <= i < project.libraries@.len() && (#[trigger] project.libraries@[i]).contributes(dir) {
        let i = choose|i: int|
            0 <= i < project.libraries@.len() && (#[trigger] project.libraries@[i]).contributes(
                dir,
            );
        lemma_found_is_normalized(project.libraries@[i].headers, none, dir);
    }
    if exists|i: int|
        0 <= i < project.addons@.len() && (#[trigger] project.addons@[i]).contributes(
            excludes[i],
            dir,
        ) {
        let i = choose|i: int|
            0 <= i < project.addons@.len() && (#[trigger] project.addons@[i]).contributes(
                excludes[i],
                dir,
            );
        lemma_addon_keeps_patterns(project.addons@[i].adds()->0, excludes[i], dir);
    }
    if os == OS::Windows && exists|i: int|
        0 <= i < project.windows_sdk@.len() && (#[trigger] project.windows_sdk@[i]).contributes(
            none,
            dir,
        ) {
        let i = choose|i: int|
            0 <= i < project.windows_sdk@.len() && (#[trigger] project.windows_sdk@[i]).contributes(
                none,
                dir,
            );
        crate::dirs::lemma_contributed_is_not_covered(project.windows_sdk@[i], none, dir);
    }
    if dir == crate::platform::MAC_SDK_ROOT@ + "/usr/include"@ {
        reveal_strlit(
            "/Applications/Xcode.app/Contents/Developer/Platforms/MacOSX.platform/Developer/SDKs/MacOSX.sdk",
        );
        reveal_strlit("/usr/include");
        assert(!crate::platform::MAC_SDK_ROOT@.contains('\\'));
        assert(!"/usr/include"@.contains('\\'));
        assert(!dir.contains('\\'));
        crate::paths::lemma_slashed_path_is_kept(dir);
    }
}

proof fn lemma_found_is_normalized(
    found: Option<DirTree>,
    excludes: Seq<crate::excludes::Exclusion>,
    dir: Seq<char>,
)
    ensures
        found_contributes(found, excludes, dir) ==> crate::paths::normalized(dir) == dir
            && !crate::excludes::is_excluded(dir, excludes),
{
    if found_contributes(found, excludes, dir) {
        crate::dirs::lemma_contributed_is_not_covered(found->0, excludes, dir);
    }
}

/// An addon contributes no directory that one of its own patterns covers.
pub proof fn lemma_addon_keeps_patterns(
    addon: Addon,
    excludes: Seq<crate::excludes::Exclusion>,
    dir: Seq<char>,
)
    requires
        addon.contributes(excludes, dir),
    ensures
        crate::paths::normalized(dir) == dir,
        !crate::excludes::is_excluded(dir, excludes),
{
    lemma_found_is_normalized(addon.sources, excludes, dir);
    if !found_contributes(addon.sources, excludes, dir) {
        let i = choose|i: int|
            0 <= i < addon.libraries@.len() && (#[trigger] addon.libraries@[i]).contributes(
                excludes,
                dir,
            );
        lemma_found_is_normalized(addon.libraries@[i].sources, excludes, dir);
        lemma_found_is_normalized(addon.libraries@[i].headers, excludes, dir);
    }
}

/// What the configuration file of an addon states holds: where a pattern with a wildcard
/// is meant for the system, no directory of the addon is searched whose path begins with
/// that of the addon, a slash and the pattern.
pub proof fn lemma_stated_pattern_keeps_out(
    addon: Addon,
    os: OS,
    excludes: Seq<crate::excludes::Exclusion>,
    i: int,
    dir: Seq<char>,
)
    requires
        addon.follows(os, false, excludes),
        0 <= i < crate::excludes::patterns_of(
            crate::excludes::line_texts(addon.config@),
            os,
        ).len(),
        ({
            let rule = crate::excludes::patterns_of(
                crate::excludes::line_texts(addon.config@),
                os,
            )[i];
            &&& rule.has_wildcard || rule.has_dir_wildcard
            &&& crate::joins::joins_alike(addon.path@, rule.pattern)
            &&& (crate::paths::normalized(addon.path@) + seq!['/'] + crate::paths::normalized(
                rule.pattern,
            )).is_prefix_of(dir)
        }),
    ensures
        !addon.contributes(excludes, dir),
{
    if addon.contributes(excludes, dir) {
        lemma_addon_keeps_patterns(addon, excludes, dir);
        crate::excludes::lemma_anchored_pattern_covers(
            addon.path@,
            crate::excludes::patterns_of(crate::excludes::line_texts(addon.config@), os),
            excludes,
            i,
            dir,
        );
        assert(excludes[i].covers(dir));
    }
}

/// All of an addon is searched: where a line of the list, neither empty nor a comment,
/// refers to an addon that is there, each directory of its sources, of the sources of each
/// of its libraries and of the headers of each is on the search path, whichever of these
/// the addon has, but for what the patterns that are followed for it cover.
pub proof fn lemma_all_of_an_addon_is_searched(
    project: Project,
    excludes: Seq<Seq<crate::excludes::Exclusion>>,
    os: OS,
    k: int,
)
    requires
        0 <= k < project.addons@.len(),
        crate::text::trimmed(project.addons@[k].line@).len() > 0,
        crate::text::trimmed(project.addons@[k].line@)[0] != '#',
        project.addons@[k].found is Some,
    ensures
        ({
            let addon = project.addons@[k].found->0;
            let path = project.search_path(excludes, os);
            &&& addon.sources matches Some(tree) ==> tree.dirs(excludes[k]).subset_of(path)
            &&& forall|i: int|
                0 <= i < addon.libraries@.len() ==> {
                    &&& (#[trigger] addon.libraries@[i]).sources matches Some(tree) ==> tree.dirs(
                        excludes[k],
                    ).subset_of(path)
                    &&& addon.libraries@[i].headers matches Some(tree) ==> tree.dirs(
                        excludes[k],
                    ).subset_of(path)
                }
        }),
{
    let addon = project.addons@[k].found->0;
    let path = project.search_path(excludes, os);
    assert forall|d: Seq<char>| addon.contributes(excludes[k], d) implies #[trigger] path.contains(
        d,
    ) by {
        assert(project.addons@[k].contributes(excludes[k], d));
    }
    if let Some(tree) = addon.sources {
        assert forall|d: Seq<char>|
            tree.dirs(excludes[k]).contains(d) implies #[trigger] path.contains(d) by {
            assert(addon.contributes(excludes[k], d));
        }
    }
    assert forall|i: int| 0 <= i < addon.libraries@.len() implies {
        &&& (#[trigger] addon.libraries@[i]).sources matches Some(tree) ==> tree.dirs(
            excludes[k],
        ).subset_of(path)
        &&& addon.libraries@[i].headers matches Some(tree) ==> tree.dirs(
            excludes[k],
        ).subset_of(path)
    } by {
        let library = addon.libraries@[i];
        if let Some(tree) = library.sources {
            assert forall|d: Seq<char>|
                tree.dirs(excludes[k]).contains(d) implies #[trigger] path.contains(d) by {
                assert(addon.libraries@[i].contributes(excludes[k], d));
                assert(addon.contributes(excludes[k], d));
            }
        }
        if let Some(tree) = library.headers {
            assert forall|d: Seq<char>|
                tree.dirs(excludes[k]).contains(d) implies #[trigger] path.contains(d) by {
                assert(addon.libraries@[i].contributes(excludes[k], d));
                assert(addon.contributes(excludes[k], d));
            }
        }
    }
}

/// All of the rest is searched, whatever the patterns of addons: the directory of the
/// project, each directory of its sources, of openFrameworks and of the headers of every
/// other library; on macOS with an SDK its directory of headers and each below it; and on
/// Windows each directory of the headers of its SDK.
pub proof fn lemma_all_of_the_rest_is_searched(
    project: Project,
    excludes: Seq<Seq<crate::excludes::Exclusion>>,
    os: OS,
)
    ensures
        ({
            let path = project.search_path(excludes, os);
            let none = Seq::<crate::excludes::Exclusion>::empty();
            &&& path.contains(crate::paths::normalized(project.path@))
            &&& project.sources matches Some(tree) ==> tree.dirs(none).subset_of(path)
            &&& project.core matches Some(tree) ==> tree.dirs(none).subset_of(path)
            &&& forall|i: int|
                0 <= i < project.libraries@.len() && (#[trigger] project.libraries@[i]).name@
                    != "openFrameworks"@ ==> (project.libraries@[i].headers matches Some(tree)
                    ==> tree.dirs(none).subset_of(path))
            &&& os == OS::Mac && project.has_mac_sdk ==> {
                &&& path.contains(crate::platform::MAC_SDK_ROOT@ + "/usr/include"@)
                &&& project.mac_headers matches Some(tree) ==> tree.dirs(none).subset_of(path)
            }
            &&& os == OS::Windows ==> forall|i: int|
                0 <= i < project.windows_sdk@.len() ==> (#[trigger] project.windows_sdk@[i]).dirs(
                    none,
                ).subset_of(path)
        }),
{
    lemma_patterns_concern_addons_alone(project, excludes, os);
}

/// Nothing else is searched: every directory of the search path is that of the project, or
/// one of its sources, of openFrameworks, of the headers of another library, of an addon
/// that a line adds, or of the SDK of the system.
pub proof fn lemma_nothing_else_is_searched(
    project: Project,
    excludes: Seq<Seq<crate::excludes::Exclusion>>,
    os: OS,
    dir: Seq<char>,
)
    requires
        project.search_path(excludes, os).contains(dir),
    ensures
        ({
            let none = Seq::<crate::excludes::Exclusion>::empty();
            ||| dir == crate::paths::normalized(project.path@)
            ||| project.sources matches Some(tree) && tree.dirs(none).contains(dir)
            ||| project.core matches Some(tree) && tree.dirs(none).contains(dir)
            ||| exists|i: int|
                0 <= i < project.libraries@.len() && (#[trigger] project.libraries@[i]).name@
                    != "openFrameworks"@ && (project.libraries@[i].headers matches Some(tree)
                    && tree.dirs(none).contains(dir))
            ||| exists|k: int|
                0 <= k < project.addons@.len() && is_searched_for(
                    #[trigger] project.addons@[k],
                    excludes[k],
                    dir,
                )
            ||| os == OS::Mac && project.has_mac_sdk && dir == crate::platform::MAC_SDK_ROOT@
                + "/usr/include"@
            ||| os == OS::Mac && project.has_mac_sdk && (project.mac_headers matches Some(tree)
                && tree.dirs(none).contains(dir))
            ||| os == OS::Windows && exists|i: int|
                0 <= i < project.windows_sdk@.len() && (#[trigger] project.windows_sdk@[i]).dirs(
                    none,
                ).contains(dir)
        }),
{
    let none = Seq::<crate::excludes::Exclusion>::empty();
    if exists|i: int|
        0 <= i < project.libraries@.len() && (#[trigger] project.libraries@[i]).contributes(dir) {
        let i = choose|i: int|
            0 <= i < project.libraries@.len() && (#[trigger] project.libraries@[i]).contributes(
                dir,
            );
        assert(project.libraries@[i].headers->0.dirs(none).contains(dir));
    } else if exists|k: int|
        0 <= k < project.addons@.len() && (#[trigger] project.addons@[k]).contributes(
            excludes[k],
            dir,
        ) {
        let k = choose|k: int|
            0 <= k < project.addons@.len() && (#[trigger] project.addons@[k]).contributes(
                excludes[k],
                dir,
            );
        let addon = project.addons@[k].found->0;
        if !found_contributes(addon.sources, excludes[k], dir) {
            let i = choose|i: int|
                0 <= i < addon.libraries@.len() && (#[trigger] addon.libraries@[i]).contributes(
                    excludes[k],
                    dir,
                );
            let library = addon.libraries@[i];
            assert((library.sources matches Some(tree) && tree.dirs(excludes[k]).contains(dir)) || (
            library.headers matches Some(tree) && tree.dirs(excludes[k]).contains(dir)));
        }
        assert(is_searched_for(project.addons@[k], excludes[k], dir));
    } else if os == OS::Windows && exists|i: int|
        0 <= i < project.windows_sdk@.len() && (#[trigger] project.windows_sdk@[i]).contributes(
            none,
            dir,
        ) {
        let i = choose|i: int|
            0 <= i < project.windows_sdk@.len() && (#[trigger] project.windows_sdk@[i]).contributes(
                none,
                dir,
            );
        assert(project.windows_sdk@[i].dirs(none).contains(dir));
    }
}

/// Whether `dir` is searched for the sake of a line of the list of addons: the line is
/// neither empty nor a comment, and `dir` is a directory of the sources of the addon, or of
/// the sources or the headers of one of its libraries.
pub open spec fn is_searched_for(
    listed: ListedAddon,
    excludes: Seq<crate::excludes::Exclusion>,
    dir: Seq<char>,
) -> bool {
    let line = crate::text::trimmed(listed.line@);
    &&& line.len() > 0 && line[0] != '#'
    &&& listed.found matches Some(addon) && {
        ||| addon.sources matches Some(tree) && tree.dirs(excludes).contains(dir)
        ||| exists|i: int|
            0 <= i < addon.libraries@.len() && {
                ||| (#[trigger] addon.libraries@[i]).sources matches Some(tree) && tree.dirs(
                    excludes,
                ).contains(dir)
                ||| addon.libraries@[i].headers matches Some(tree) && tree.dirs(
                    excludes,
                ).contains(dir)
            }
    }
}

/// Which patterns are followed: none where they are to be ignored, and none for a line that
/// adds no addon; else those that the configuration file of the addon states for the
/// system, one by one, joined to the path of the addon.
pub proof fn lemma_patterns_that_are_followed(
    project: Project,
    os: OS,
    ignore_excludes: bool,
    excludes: Seq<Seq<crate::excludes::Exclusion>>,
    k: int,
)
    requires
        project.follows(os, ignore_excludes, excludes),
        0 <= k < project.addons@.len(),
    ensures
        excludes.len() == project.addons@.len(),
        ({
            let line = crate::text::trimmed(project.addons@[k].line@);
            let adds = line.len() > 0 && line[0] != '#' && project.addons@[k].found is Some;
            let addon = project.addons@[k].found->0;
            let stated = crate::excludes::patterns_of(
                crate::excludes::line_texts(addon.config@),
                os,
            );
            if ignore_excludes || !adds {
                excludes[k].len() == 0
            } else {
                &&& excludes[k].len() == stated.len()
                &&& forall|i: int|
                    0 <= i < stated.len() ==> {
                        &&& (#[trigger] excludes[k][i]).has_wildcard == stated[i].has_wildcard
                        &&& excludes[k][i].has_dir_wildcard == stated[i].has_dir_wildcard
                        &&& crate::joins::is_join(
                            addon.path@,
                            stated[i].pattern,
                            excludes[k][i].pattern,
                        )
                    }
            }
        }),
{
    assert(project.addons@[k].follows(os, ignore_excludes, excludes[k]));
}

/// What a list of lists of patterns says, list by list.
pub proof fn lemma_exclusion_lists_one_by_one(lists: Seq<Vec<ExcludePattern>>)
    ensures
        exclusion_lists(lists).len() == lists.len(),
        forall|i: int|
            0 <= i < lists.len() ==> #[trigger] exclusion_lists(lists)[i]
                == crate::excludes::exclusions(lists[i]@),
{
}

} // verus!

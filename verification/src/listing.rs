//! That the search path does not depend on how things are listed: neither on the order
//! in which a system lists directories, nor on the lines of the list of addons that add
//! nothing, repeat an addon or stand in another order.

use vstd::prelude::*;

use crate::dirs::DirTree;
use crate::platform::OS;
use crate::project::{Addon, AddonLibrary, Library, ListedAddon, Project};

verus! {

/// Whether two directories that may be missing are the same but for the order in which
/// the directories below each are listed.
pub open spec fn same_found(a: Option<DirTree>, b: Option<DirTree>) -> bool {
    match (a, b) {
        (Some(x), Some(y)) => x.same_but_for_order(y),
        (None, None) => true,
        _ => false,
    }
}

/// Whether each member of one list has its like in the other, whatever the order.
#[verifier::opaque]
pub open spec fn same_members<T>(a: Seq<T>, b: Seq<T>, like: spec_fn(T, T) -> bool) -> bool {
    &&& forall|i: int| #[trigger]
        crate::dirs::is_place(a, i) ==> exists|j: int| #[trigger]
            crate::dirs::is_place(b, j) && like(a[i], b[j])
    &&& forall|j: int| #[trigger]
        crate::dirs::is_place(b, j) ==> exists|i: int| #[trigger]
            crate::dirs::is_place(a, i) && like(a[i], b[j])
}

/// How two trees are alike.
pub open spec fn tree_likeness() -> spec_fn(DirTree, DirTree) -> bool {
    |x: DirTree, y: DirTree| x.same_but_for_order(y)
}

impl Library {
    pub open spec fn same_but_for_order(self, other: Library) -> bool {
        self.name@ == other.name@ && same_found(self.headers, other.headers)
    }
}

/// How two libraries are alike.
pub open spec fn library_likeness() -> spec_fn(Library, Library) -> bool {
    |x: Library, y: Library| x.same_but_for_order(y)
}

impl AddonLibrary {
    pub open spec fn same_but_for_order(self, other: AddonLibrary) -> bool {
        same_found(self.sources, other.sources) && same_found(self.headers, other.headers)
    }
}

/// How two libraries of addons are alike.
pub open spec fn addon_library_likeness() -> spec_fn(AddonLibrary, AddonLibrary) -> bool {
    |x: AddonLibrary, y: AddonLibrary| x.same_but_for_order(y)
}

impl Addon {
    pub open spec fn same_but_for_order(self, other: Addon) -> bool {
        &&& self.path@ == other.path@
        &&& crate::excludes::line_texts(self.config@) == crate::excludes::line_texts(other.config@)
        &&& same_found(self.sources, other.sources)
        &&& same_members(self.libraries@, other.libraries@, addon_library_likeness())
    }
}

impl ListedAddon {
    /// Whether two lines add the same addon.
    pub open spec fn adds_same(self, other: ListedAddon) -> bool {
        match (self.adds(), other.adds()) {
            (Some(x), Some(y)) => x.same_but_for_order(y),
            _ => false,
        }
    }
}

/// Whether every addon that the list `a` adds, the list `b` adds too.
#[verifier::opaque]
pub open spec fn first_is_added(a: Seq<ListedAddon>, b: Seq<ListedAddon>) -> bool {
    forall|i: int|
        0 <= i < a.len() && (#[trigger] a[i]).adds() is Some ==> exists|j: int|
            0 <= j < b.len() && a[i].adds_same(#[trigger] b[j])
}

/// Whether every addon that the list `b` adds, the list `a` adds too.
#[verifier::opaque]
pub open spec fn second_is_added(a: Seq<ListedAddon>, b: Seq<ListedAddon>) -> bool {
    forall|j: int|
        0 <= j < b.len() && (#[trigger] b[j]).adds() is Some ==> exists|i: int|
            0 <= i < a.len() && (#[trigger] a[i]).adds_same(b[j])
}

/// Whether two lists add the same addons. The order of the lines does not count, nor how
/// often an addon is listed, nor lines that add none: empty ones, comments, and those
/// that refer to an addon that is not there.
pub open spec fn same_addons(a: Seq<ListedAddon>, b: Seq<ListedAddon>) -> bool {
    first_is_added(a, b) && second_is_added(a, b)
}

/// Whether every addon that the list `a` adds, the list `b` adds too, with patterns that
/// exclude the same.
#[verifier::opaque]
pub open spec fn first_is_added_alike(
    a: Seq<ListedAddon>,
    for_a: Seq<Seq<crate::excludes::Exclusion>>,
    b: Seq<ListedAddon>,
    for_b: Seq<Seq<crate::excludes::Exclusion>>,
) -> bool {
    forall|i: int|
        0 <= i < a.len() && (#[trigger] a[i]).adds() is Some ==> exists|j: int|
            0 <= j < b.len() && a[i].adds_same(#[trigger] b[j]) && crate::excludes::exclude_alike(
                for_a[i],
                for_b[j],
            )
}

/// Whether every addon that the list `b` adds, the list `a` adds too, with patterns that
/// exclude the same.
#[verifier::opaque]
pub open spec fn second_is_added_alike(
    a: Seq<ListedAddon>,
    for_a: Seq<Seq<crate::excludes::Exclusion>>,
    b: Seq<ListedAddon>,
    for_b: Seq<Seq<crate::excludes::Exclusion>>,
) -> bool {
    forall|j: int|
        0 <= j < b.len() && (#[trigger] b[j]).adds() is Some ==> exists|i: int|
            0 <= i < a.len() && (#[trigger] a[i]).adds_same(b[j]) && crate::excludes::exclude_alike(
                for_a[i],
                for_b[j],
            )
}

/// Whether two lists add the same addons, each with patterns that exclude the same.
pub open spec fn same_addons_and_patterns(
    a: Seq<ListedAddon>,
    for_a: Seq<Seq<crate::excludes::Exclusion>>,
    b: Seq<ListedAddon>,
    for_b: Seq<Seq<crate::excludes::Exclusion>>,
) -> bool {
    first_is_added_alike(a, for_a, b, for_b) && second_is_added_alike(a, for_a, b, for_b)
}

impl Addon {
    /// Whether the patterns of the addon are joined to its path alike on every system.
    pub open spec fn joins_alike(self, os: OS) -> bool {
        crate::excludes::rules_join_alike(
            self.path@,
            crate::excludes::patterns_of(crate::excludes::line_texts(self.config@), os),
        )
    }
}

impl Project {
    /// Whether two findings agree, but for the order in which directories were listed, in
    /// all but the addons.
    pub open spec fn same_but_for_addons(self, other: Project) -> bool {
        &&& self.path@ == other.path@
        &&& same_found(self.sources, other.sources)
        &&& same_found(self.core, other.core)
        &&& same_members(self.libraries@, other.libraries@, library_likeness())
        &&& self.has_mac_sdk == other.has_mac_sdk
        &&& same_found(self.mac_headers, other.mac_headers)
        &&& same_members(self.windows_sdk@, other.windows_sdk@, tree_likeness())
    }

    /// Whether two findings are of one project and differ only in how things were listed.
    pub open spec fn same_but_for_order(self, other: Project) -> bool {
        self.same_but_for_addons(other) && same_addons(self.addons@, other.addons@)
    }

    /// Whether the patterns of every addon are joined to its path alike on every system.
    pub open spec fn joins_alike(self, os: OS) -> bool {
        forall|i: int|
            0 <= i < self.addons@.len() ==> ((#[trigger] self.addons@[i]).adds() matches Some(addon)
                ==> addon.joins_alike(os))
    }
}

proof fn lemma_same_found_contributes(
    a: Option<DirTree>,
    b: Option<DirTree>,
    excludes: Seq<crate::excludes::Exclusion>,
    dir: Seq<char>,
)
    requires
        same_found(a, b),
    ensures
        crate::project::found_contributes(a, excludes, dir) == crate::project::found_contributes(
            b,
            excludes,
            dir,
        ),
{
    if let (Some(x), Some(y)) = (a, b) {
        crate::dirs::lemma_listing_order_does_not_matter(x, y, excludes);
        assert(x.dirs(excludes).contains(dir) == y.dirs(excludes).contains(dir));
    }
}

proof fn lemma_member_is_in_second<T>(
    a: Seq<T>,
    b: Seq<T>,
    like: spec_fn(T, T) -> bool,
    i: int,
) -> (j: int)
    requires
        same_members(a, b, like),
        0 <= i < a.len(),
    ensures
        0 <= j < b.len(),
        like(a[i], b[j]),
{
    reveal(same_members);
    assert(crate::dirs::is_place(a, i));
    choose|j: int| #[trigger] crate::dirs::is_place(b, j) && like(a[i], b[j])
}

proof fn lemma_member_is_in_first<T>(
    a: Seq<T>,
    b: Seq<T>,
    like: spec_fn(T, T) -> bool,
    j: int,
) -> (i: int)
    requires
        same_members(a, b, like),
        0 <= j < b.len(),
    ensures
        0 <= i < a.len(),
        like(a[i], b[j]),
{
    reveal(same_members);
    assert(crate::dirs::is_place(b, j));
    choose|i: int| #[trigger] crate::dirs::is_place(a, i) && like(a[i], b[j])
}

/// Where members that are alike give the same, lists of the same members do.
pub proof fn lemma_same_members_give_same<T>(
    a: Seq<T>,
    b: Seq<T>,
    like: spec_fn(T, T) -> bool,
    gives: spec_fn(T) -> bool,
)
    requires
        same_members(a, b, like),
        forall|x: T, y: T| #[trigger] like(x, y) ==> gives(x) == gives(y),
    ensures
        (exists|i: int| 0 <= i < a.len() && gives(#[trigger] a[i])) == (exists|i: int|
            0 <= i < b.len() && gives(#[trigger] b[i])),
{
    if exists|i: int| 0 <= i < a.len() && gives(#[trigger] a[i]) {
        let i = choose|i: int| 0 <= i < a.len() && gives(#[trigger] a[i]);
        let j = lemma_member_is_in_second(a, b, like, i);
        assert(gives(b[j]));
    }
    if exists|j: int| 0 <= j < b.len() && gives(#[trigger] b[j]) {
        let j = choose|j: int| 0 <= j < b.len() && gives(#[trigger] b[j]);
        let i = lemma_member_is_in_first(a, b, like, j);
        assert(gives(a[i]));
    }
}

/// A list whose members are each like themselves has the same members as itself.
pub proof fn lemma_list_is_itself<T>(list: Seq<T>, like: spec_fn(T, T) -> bool)
    requires
        forall|i: int| #[trigger] crate::dirs::is_place(list, i) ==> like(list[i], list[i]),
    ensures
        same_members(list, list, like),
{
    reveal(same_members);
}

proof fn lemma_same_addon_libraries_contribute(
    a: Seq<AddonLibrary>,
    b: Seq<AddonLibrary>,
    excludes: Seq<crate::excludes::Exclusion>,
    dir: Seq<char>,
)
    requires
        same_members(a, b, addon_library_likeness()),
    ensures
        (exists|i: int| 0 <= i < a.len() && (#[trigger] a[i]).contributes(excludes, dir)) == (
        exists|i: int| 0 <= i < b.len() && (#[trigger] b[i]).contributes(excludes, dir)),
{
    let like = addon_library_likeness();
    let gives = |x: AddonLibrary| x.contributes(excludes, dir);
    assert forall|x: AddonLibrary, y: AddonLibrary| #[trigger] like(x, y) implies gives(x) == gives(
        y,
    ) by {
        lemma_same_found_contributes(x.sources, y.sources, excludes, dir);
        lemma_same_found_contributes(x.headers, y.headers, excludes, dir);
    }
    lemma_same_members_give_same(a, b, like, gives);
    assert(forall|i: int| 0 <= i < a.len() ==> gives(#[trigger] a[i]) == a[i].contributes(
        excludes,
        dir,
    ));
    assert(forall|i: int| 0 <= i < b.len() ==> gives(#[trigger] b[i]) == b[i].contributes(
        excludes,
        dir,
    ));
}

proof fn lemma_same_libraries_contribute(a: Seq<Library>, b: Seq<Library>, dir: Seq<char>)
    requires
        same_members(a, b, library_likeness()),
    ensures
        (exists|i: int| 0 <= i < a.len() && (#[trigger] a[i]).contributes(dir)) == (exists|i: int|
            0 <= i < b.len() && (#[trigger] b[i]).contributes(dir)),
{
    let like = library_likeness();
    let gives = |x: Library| x.contributes(dir);
    assert forall|x: Library, y: Library| #[trigger] like(x, y) implies gives(x) == gives(y) by {
        lemma_same_found_contributes(x.headers, y.headers, Seq::empty(), dir);
    }
    lemma_same_members_give_same(a, b, like, gives);
    assert(forall|i: int| 0 <= i < a.len() ==> gives(#[trigger] a[i]) == a[i].contributes(dir));
    assert(forall|i: int| 0 <= i < b.len() ==> gives(#[trigger] b[i]) == b[i].contributes(dir));
}

proof fn lemma_same_addon_contributes(
    a: Addon,
    b: Addon,
    excludes: Seq<crate::excludes::Exclusion>,
    dir: Seq<char>,
)
    requires
        a.same_but_for_order(b),
    ensures
        a.contributes(excludes, dir) == b.contributes(excludes, dir),
{
    lemma_same_found_contributes(a.sources, b.sources, excludes, dir);
    lemma_same_addon_libraries_contribute(a.libraries@, b.libraries@, excludes, dir);
}

proof fn lemma_same_trees_contribute(a: Seq<DirTree>, b: Seq<DirTree>, dir: Seq<char>)
    requires
        same_members(a, b, tree_likeness()),
    ensures
        (exists|i: int| 0 <= i < a.len() && (#[trigger] a[i]).contributes(Seq::empty(), dir)) == (
        exists|i: int| 0 <= i < b.len() && (#[trigger] b[i]).contributes(Seq::empty(), dir)),
{
    let like = tree_likeness();
    let none = Seq::<crate::excludes::Exclusion>::empty();
    let gives = |x: DirTree| x.contributes(none, dir);
    assert forall|x: DirTree, y: DirTree| #[trigger] like(x, y) implies gives(x) == gives(y) by {
        lemma_same_found_contributes(Some(x), Some(y), none, dir);
    }
    lemma_same_members_give_same(a, b, like, gives);
    assert(forall|i: int| 0 <= i < a.len() ==> gives(#[trigger] a[i]) == a[i].contributes(none, dir));
    assert(forall|i: int| 0 <= i < b.len() ==> gives(#[trigger] b[i]) == b[i].contributes(none, dir));
}

proof fn lemma_same_line_contributes(
    a: ListedAddon,
    for_a: Seq<crate::excludes::Exclusion>,
    b: ListedAddon,
    for_b: Seq<crate::excludes::Exclusion>,
    dir: Seq<char>,
)
    requires
        a.adds_same(b),
        crate::excludes::exclude_alike(for_a, for_b),
    ensures
        a.contributes(for_a, dir) == b.contributes(for_b, dir),
{
    let (x, y) = (a.adds()->0, b.adds()->0);
    lemma_same_addon_contributes(x, y, for_a, dir);
    assert(forall|d: Seq<char>| #[trigger]
        crate::excludes::is_excluded(d, for_b) ==> crate::excludes::is_excluded(d, for_a));
    if y.contributes(for_a, dir) {
        crate::project::lemma_addon_with_fewer_exclusions(y, for_a, for_b, dir);
    }
    if y.contributes(for_b, dir) {
        crate::project::lemma_addon_with_fewer_exclusions(y, for_b, for_a, dir);
    }
}

proof fn lemma_same_addons_contribute(
    a: Seq<ListedAddon>,
    for_a: Seq<Seq<crate::excludes::Exclusion>>,
    b: Seq<ListedAddon>,
    for_b: Seq<Seq<crate::excludes::Exclusion>>,
    dir: Seq<char>,
)
    requires
        same_addons_and_patterns(a, for_a, b, for_b),
    ensures
        (exists|i: int| 0 <= i < a.len() && (#[trigger] a[i]).contributes(for_a[i], dir)) == (
        exists|i: int| 0 <= i < b.len() && (#[trigger] b[i]).contributes(for_b[i], dir)),
{
    if exists|i: int| 0 <= i < a.len() && (#[trigger] a[i]).contributes(for_a[i], dir) {
        let i = choose|i: int| 0 <= i < a.len() && (#[trigger] a[i]).contributes(for_a[i], dir);
        let j = lemma_line_is_in_second(a, for_a, b, for_b, i);
        lemma_same_line_contributes(a[i], for_a[i], b[j], for_b[j], dir);
        assert(b[j].contributes(for_b[j], dir));
    }
    if exists|j: int| 0 <= j < b.len() && (#[trigger] b[j]).contributes(for_b[j], dir) {
        let j = choose|j: int| 0 <= j < b.len() && (#[trigger] b[j]).contributes(for_b[j], dir);
        let i = lemma_line_is_in_first(a, for_a, b, for_b, j);
        lemma_same_line_contributes(a[i], for_a[i], b[j], for_b[j], dir);
        assert(a[i].contributes(for_a[i], dir));
    }
}

proof fn lemma_line_is_in_second(
    a: Seq<ListedAddon>,
    for_a: Seq<Seq<crate::excludes::Exclusion>>,
    b: Seq<ListedAddon>,
    for_b: Seq<Seq<crate::excludes::Exclusion>>,
    i: int,
) -> (j: int)
    requires
        first_is_added_alike(a, for_a, b, for_b),
        0 <= i < a.len(),
        a[i].adds() is Some,
    ensures
        0 <= j < b.len(),
        a[i].adds_same(b[j]),
        crate::excludes::exclude_alike(for_a[i], for_b[j]),
{
    reveal(first_is_added_alike);
    choose|j: int|
        0 <= j < b.len() && a[i].adds_same(#[trigger] b[j]) && crate::excludes::exclude_alike(
            for_a[i],
            for_b[j],
        )
}

proof fn lemma_line_is_in_first(
    a: Seq<ListedAddon>,
    for_a: Seq<Seq<crate::excludes::Exclusion>>,
    b: Seq<ListedAddon>,
    for_b: Seq<Seq<crate::excludes::Exclusion>>,
    j: int,
) -> (i: int)
    requires
        second_is_added_alike(a, for_a, b, for_b),
        0 <= j < b.len(),
        b[j].adds() is Some,
    ensures
        0 <= i < a.len(),
        a[i].adds_same(b[j]),
        crate::excludes::exclude_alike(for_a[i], for_b[j]),
{
    reveal(second_is_added_alike);
    choose|i: int|
        0 <= i < a.len() && (#[trigger] a[i]).adds_same(b[j]) && crate::excludes::exclude_alike(
            for_a[i],
            for_b[j],
        )
}

/// The search path depends on the addons of a project and their patterns, not on the
/// order in which they are listed, how often, and among which lines that add none; nor
/// on the order in which a system lists directories.
pub proof fn lemma_search_path_is_of_addons_and_patterns(
    a: Project,
    for_a: Seq<Seq<crate::excludes::Exclusion>>,
    b: Project,
    for_b: Seq<Seq<crate::excludes::Exclusion>>,
    os: OS,
)
    requires
        a.same_but_for_addons(b),
        same_addons_and_patterns(a.addons@, for_a, b.addons@, for_b),
    ensures
        a.search_path(for_a, os) == b.search_path(for_b, os),
{
    assert forall|d: Seq<char>| a.searches(for_a, os, d) == b.searches(for_b, os, d) by {
        lemma_same_found_contributes(a.sources, b.sources, Seq::empty(), d);
        lemma_same_found_contributes(a.core, b.core, Seq::empty(), d);
        lemma_same_found_contributes(a.mac_headers, b.mac_headers, Seq::empty(), d);
        lemma_same_libraries_contribute(a.libraries@, b.libraries@, d);
        lemma_same_addons_contribute(a.addons@, for_a, b.addons@, for_b, d);
        lemma_same_trees_contribute(a.windows_sdk@, b.windows_sdk@, d);
    }
    assert(a.search_path(for_a, os) =~= b.search_path(for_b, os));
}

proof fn lemma_same_addon_excludes_alike(
    a: Addon,
    for_a: Seq<crate::excludes::Exclusion>,
    b: Addon,
    for_b: Seq<crate::excludes::Exclusion>,
    os: OS,
    ignore_excludes: bool,
)
    requires
        a.same_but_for_order(b),
        ignore_excludes || a.joins_alike(os),
        a.follows(os, ignore_excludes, for_a),
        b.follows(os, ignore_excludes, for_b),
    ensures
        crate::excludes::exclude_alike(for_a, for_b),
{
    if !ignore_excludes {
        crate::excludes::lemma_anchored_patterns_exclude_alike(
            a.path@,
            crate::excludes::patterns_of(crate::excludes::line_texts(a.config@), os),
            for_a,
            for_b,
        );
    }
}

proof fn lemma_followed_patterns_are_alike(
    a: Project,
    for_a: Seq<Seq<crate::excludes::Exclusion>>,
    b: Project,
    for_b: Seq<Seq<crate::excludes::Exclusion>>,
    os: OS,
    ignore_excludes: bool,
)
    requires
        same_addons(a.addons@, b.addons@),
        ignore_excludes || a.joins_alike(os),
        a.follows(os, ignore_excludes, for_a),
        b.follows(os, ignore_excludes, for_b),
    ensures
        same_addons_and_patterns(a.addons@, for_a, b.addons@, for_b),
{
    let (x, y) = (a.addons@, b.addons@);
    assert forall|i: int, j: int|
        0 <= i < x.len() && 0 <= j < y.len() && #[trigger] x[i].adds_same(
            y[j],
        ) implies crate::excludes::exclude_alike(for_a[i], for_b[j]) by {
        assert(x[i].follows(os, ignore_excludes, for_a[i]));
        assert(y[j].follows(os, ignore_excludes, for_b[j]));
        lemma_same_addon_excludes_alike(
            x[i].adds()->0,
            for_a[i],
            y[j].adds()->0,
            for_b[j],
            os,
            ignore_excludes,
        );
    }
    assert(first_is_added_alike(x, for_a, y, for_b)) by {
        reveal(first_is_added);
        reveal(first_is_added_alike);
        assert forall|i: int| 0 <= i < x.len() && (#[trigger] x[i]).adds() is Some implies exists|
            j: int,
        |
            0 <= j < y.len() && x[i].adds_same(#[trigger] y[j]) && crate::excludes::exclude_alike(
                for_a[i],
                for_b[j],
            ) by {
            let j = choose|j: int| 0 <= j < y.len() && x[i].adds_same(#[trigger] y[j]);
            assert(crate::excludes::exclude_alike(for_a[i], for_b[j]));
        }
    }
    assert(second_is_added_alike(x, for_a, y, for_b)) by {
        reveal(second_is_added);
        reveal(second_is_added_alike);
        assert forall|j: int| 0 <= j < y.len() && (#[trigger] y[j]).adds() is Some implies exists|
            i: int,
        |
            0 <= i < x.len() && (#[trigger] x[i]).adds_same(y[j]) && crate::excludes::exclude_alike(
                for_a[i],
                for_b[j],
            ) by {
            let i = choose|i: int| 0 <= i < x.len() && (#[trigger] x[i]).adds_same(y[j]);
            assert(crate::excludes::exclude_alike(for_a[i], for_b[j]));
        }
    }
}

/// Two findings of one project that differ only in how things were listed give one and
/// the same search path: in whatever order a system lists directories, and however the
/// list of addons is written, with its lines in another order, with addons listed again,
/// with empty lines, with comments, and with addons that are not there. (The patterns of
/// the addons are ignored, or joined to their paths alike on every system.)
pub proof fn lemma_search_path_ignores_listing(
    a: Project,
    for_a: Seq<Seq<crate::excludes::Exclusion>>,
    listed_a: Seq<Seq<char>>,
    b: Project,
    for_b: Seq<Seq<crate::excludes::Exclusion>>,
    listed_b: Seq<Seq<char>>,
    os: OS,
    ignore_excludes: bool,
)
    requires
        a.same_but_for_order(b),
        ignore_excludes || a.joins_alike(os),
        a.follows(os, ignore_excludes, for_a),
        crate::path_set::strictly_sorted(listed_a),
        listed_a.to_set() == a.search_path(for_a, os),
        b.follows(os, ignore_excludes, for_b),
        crate::path_set::strictly_sorted(listed_b),
        listed_b.to_set() == b.search_path(for_b, os),
    ensures
        listed_a == listed_b,
{
    lemma_followed_patterns_are_alike(a, for_a, b, for_b, os, ignore_excludes);
    lemma_search_path_is_of_addons_and_patterns(a, for_a, b, for_b, os);
    crate::path_set::lemma_sorted_listing_is_unique(listed_a, listed_b);
}

/// A directory is the same as itself.
pub proof fn lemma_tree_is_itself(tree: DirTree)
    ensures
        tree.same_but_for_order(tree),
    decreases tree,
{
    let list = tree.children@;
    assert forall|i: int| #[trigger] crate::dirs::is_place(list, i) implies exists|j: int| #[trigger]
        crate::dirs::is_place(list, j) && list[i].same_but_for_order(list[j]) by {
        lemma_tree_is_itself(list[i]);
        assert(list[i].same_but_for_order(list[i]));
    }
    assert forall|j: int| #[trigger] crate::dirs::is_place(list, j) implies exists|i: int| #[trigger]
        crate::dirs::is_place(list, i) && list[i].same_but_for_order(list[j]) by {
        lemma_tree_is_itself(list[j]);
        assert(list[j].same_but_for_order(list[j]));
    }
}

proof fn lemma_found_is_itself(found: Option<DirTree>)
    ensures
        same_found(found, found),
{
    if let Some(tree) = found {
        lemma_tree_is_itself(tree);
    }
}

/// An addon is the same as itself.
pub proof fn lemma_addon_is_itself(addon: Addon)
    ensures
        addon.same_but_for_order(addon),
{
    lemma_found_is_itself(addon.sources);
    let list = addon.libraries@;
    let like = addon_library_likeness();
    assert forall|i: int| #[trigger] crate::dirs::is_place(list, i) implies like(
        list[i],
        list[i],
    ) by {
        lemma_found_is_itself(list[i].sources);
        lemma_found_is_itself(list[i].headers);
    }
    lemma_list_is_itself(list, like);
}

/// Whether every addon that a line of `a` adds is the one that a line of `b` adds.
#[verifier::opaque]
pub open spec fn all_added_by(a: Seq<ListedAddon>, b: Seq<ListedAddon>) -> bool {
    forall|i: int|
        0 <= i < a.len() && (#[trigger] a[i]).adds() is Some ==> exists|j: int|
            0 <= j < b.len() && (#[trigger] b[j]).adds() == a[i].adds()
}

/// Two lists add the same addons where each addon that a line of one adds is added by a
/// line of the other.
pub proof fn lemma_lists_add_same_addons(a: Seq<ListedAddon>, b: Seq<ListedAddon>)
    requires
        all_added_by(a, b),
        all_added_by(b, a),
    ensures
        same_addons(a, b),
{
    assert(first_is_added(a, b)) by {
        reveal(first_is_added);
        assert forall|i: int| 0 <= i < a.len() && (#[trigger] a[i]).adds() is Some implies exists|
            j: int,
        | 0 <= j < b.len() && a[i].adds_same(#[trigger] b[j]) by {
            let j = lemma_adding_line(a, b, i);
            lemma_addon_is_itself(a[i].adds()->0);
            assert(a[i].adds_same(b[j]));
        }
    }
    assert(second_is_added(a, b)) by {
        reveal(second_is_added);
        assert forall|j: int| 0 <= j < b.len() && (#[trigger] b[j]).adds() is Some implies exists|
            i: int,
        | 0 <= i < a.len() && (#[trigger] a[i]).adds_same(b[j]) by {
            let i = lemma_adding_line(b, a, j);
            lemma_addon_is_itself(b[j].adds()->0);
            assert(a[i].adds_same(b[j]));
        }
    }
}

proof fn lemma_adding_line(a: Seq<ListedAddon>, b: Seq<ListedAddon>, i: int) -> (j: int)
    requires
        all_added_by(a, b),
        0 <= i < a.len(),
        a[i].adds() is Some,
    ensures
        0 <= j < b.len(),
        b[j].adds() == a[i].adds(),
{
    reveal(all_added_by);
    choose|j: int| 0 <= j < b.len() && (#[trigger] b[j]).adds() == a[i].adds()
}

/// A finding is the same as itself.
pub proof fn lemma_project_is_itself(project: Project)
    ensures
        project.same_but_for_order(project),
{
    lemma_found_is_itself(project.sources);
    lemma_found_is_itself(project.core);
    lemma_found_is_itself(project.mac_headers);
    let libraries = project.libraries@;
    assert forall|i: int| #[trigger]
        crate::dirs::is_place(libraries, i) implies library_likeness()(
        libraries[i],
        libraries[i],
    ) by {
        lemma_found_is_itself(libraries[i].headers);
    }
    lemma_list_is_itself(libraries, library_likeness());
    let trees = project.windows_sdk@;
    assert forall|i: int| #[trigger] crate::dirs::is_place(trees, i) implies tree_likeness()(
        trees[i],
        trees[i],
    ) by {
        lemma_tree_is_itself(trees[i]);
    }
    lemma_list_is_itself(trees, tree_likeness());
    let addons = project.addons@;
    assert(all_added_by(addons, addons)) by {
        reveal(all_added_by);
    }
    lemma_lists_add_same_addons(addons, addons);
}

/// A project has one search path, whatever the system on which the patterns of its
/// addons are joined to their paths.
pub proof fn lemma_search_path_is_determined(
    project: Project,
    excludes: Seq<Seq<crate::excludes::Exclusion>>,
    others: Seq<Seq<crate::excludes::Exclusion>>,
    os: OS,
    ignore_excludes: bool,
)
    requires
        ignore_excludes || project.joins_alike(os),
        project.follows(os, ignore_excludes, excludes),
        project.follows(os, ignore_excludes, others),
    ensures
        project.search_path(excludes, os) == project.search_path(others, os),
{
    lemma_project_is_itself(project);
    lemma_followed_patterns_are_alike(project, excludes, project, others, os, ignore_excludes);
    lemma_search_path_is_of_addons_and_patterns(project, excludes, project, others, os);
}

} // verus!

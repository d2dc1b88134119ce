//! Directory trees and the directories that they contribute to the search path.

use vstd::prelude::*;

use crate::excludes::{is_excluded_dir, ExcludePattern};
use crate::path_set::PathSet;
use crate::paths::normalize_windows_path;

verus! {

/// A directory with the directories below it, as they were found on disk.
pub struct DirTree {
    pub path: String,
    pub children: Vec<DirTree>,
}

impl DirTree {
    /// Whether `dir` is a normalized path of a directory of the tree that none of the
    /// patterns covers. What is below a directory that is covered counts on its own.
    pub open spec fn contributes(
        self,
        excludes: Seq<crate::excludes::Exclusion>,
        dir: Seq<char>,
    ) -> bool
        decreases self,
    {
        ||| dir == crate::paths::normalized(self.path@) && !crate::excludes::is_excluded(
            self.path@,
            excludes,
        )
        ||| exists|i: int|
            0 <= i < self.children@.len() && (#[trigger] self.children@[i]).contributes(
                excludes,
                dir,
            )
    }

    /// The normalized paths of the directories of the tree that no pattern covers.
    pub open spec fn dirs(self, excludes: Seq<crate::excludes::Exclusion>) -> Set<Seq<char>> {
        Set::new(|dir: Seq<char>| self.contributes(excludes, dir))
    }
}

/// Adds the directories of a tree, but for those that a pattern covers.
pub fn add_directories_recursively(
    dir: &DirTree,
    excludes: &[ExcludePattern],
    include_paths: &mut PathSet,
)
    ensures
        final(include_paths)@ == old(include_paths)@.union(
            dir.dirs(crate::excludes::exclusions(excludes@)),
        ),
    decreases dir,
{
    let ghost said = crate::excludes::exclusions(excludes@);
    let norm = normalize_windows_path(dir.path.as_str());
    if !is_excluded_dir(dir.path.as_str(), excludes) {
        include_paths.insert(norm);
    }
    let mut i: usize = 0;
    while i < dir.children.len()
        invariant
            i <= dir.children.len(),
            said == crate::excludes::exclusions(excludes@),
            forall|d: Seq<char>| #[trigger]
                include_paths@.contains(d) <==> {
                    ||| old(include_paths)@.contains(d)
                    ||| d == crate::paths::normalized(dir.path@) && !crate::excludes::is_excluded(
                        dir.path@,
                        said,
                    )
                    ||| exists|j: int|
                        0 <= j < i && (#[trigger] dir.children@[j]).contributes(said, d)
                },
        decreases dir.children.len() - i,
    {
        let ghost before = include_paths@;
        assert(decreases_to!(dir => dir.children@[i as int]));
        add_directories_recursively(&dir.children[i], excludes, include_paths);
        assert forall|d: Seq<char>| #[trigger] include_paths@.contains(d) <==> {
            ||| old(include_paths)@.contains(d)
            ||| d == crate::paths::normalized(dir.path@) && !crate::excludes::is_excluded(
                dir.path@,
                said,
            )
            ||| exists|j: int| 0 <= j < i + 1 && (#[trigger] dir.children@[j]).contributes(said, d)
        } by {
            assert(include_paths@.contains(d) <==> before.contains(d)
                || dir.children@[i as int].contributes(said, d));
        }
        i += 1;
    }
    assert(include_paths@ =~= old(include_paths)@.union(dir.dirs(said)));
}

/// Whether a list has an element at `i`.
pub open spec fn is_place<T>(list: Seq<T>, i: int) -> bool {
    0 <= i < list.len()
}

impl DirTree {
    /// Whether two trees are the same but for the order, and the number of times, in
    /// which the directories below each directory are listed.
    pub open spec fn same_but_for_order(self, other: DirTree) -> bool
        decreases self,
    {
        &&& self.path@ == other.path@
        &&& forall|i: int| #[trigger]
            is_place(self.children@, i) ==> exists|j: int| #[trigger]
                is_place(other.children@, j) && self.children@[i].same_but_for_order(
                    other.children@[j],
                )
        &&& forall|j: int| #[trigger]
            is_place(other.children@, j) ==> exists|i: int| #[trigger]
                is_place(self.children@, i) && self.children@[i].same_but_for_order(
                    other.children@[j],
                )
    }
}

/// The fewer directories the patterns exclude, the more the tree contributes.
pub proof fn lemma_fewer_exclusions_contribute_more(
    tree: DirTree,
    strict: Seq<crate::excludes::Exclusion>,
    lax: Seq<crate::excludes::Exclusion>,
    dir: Seq<char>,
)
    requires
        forall|d: Seq<char>| #[trigger]
            crate::excludes::is_excluded(d, lax) ==> crate::excludes::is_excluded(d, strict),
        tree.contributes(strict, dir),
    ensures
        tree.contributes(lax, dir),
    decreases tree,
{
    if !(dir == crate::paths::normalized(tree.path@) && !crate::excludes::is_excluded(
        tree.path@,
        strict,
    )) {
        let i = choose|i: int|
            0 <= i < tree.children@.len() && (#[trigger] tree.children@[i]).contributes(strict, dir);
        lemma_fewer_exclusions_contribute_more(tree.children@[i], strict, lax, dir);
        assert(tree.children@[i].contributes(lax, dir));
    }
}

/// A directory that a tree contributes is written the one way, and no pattern covers
/// it.
pub proof fn lemma_contributed_is_not_covered(
    tree: DirTree,
    excludes: Seq<crate::excludes::Exclusion>,
    dir: Seq<char>,
)
    requires
        tree.contributes(excludes, dir),
    ensures
        crate::paths::normalized(dir) == dir,
        !crate::excludes::is_excluded(dir, excludes),
    decreases tree,
{
    if dir == crate::paths::normalized(tree.path@) && !crate::excludes::is_excluded(
        tree.path@,
        excludes,
    ) {
        crate::paths::lemma_normalizing_is_idempotent(tree.path@);
        if crate::excludes::is_excluded(dir, excludes) {
            let i = choose|i: int|
                0 <= i < excludes.len() && (#[trigger] excludes[i]).covers(dir);
            crate::excludes::lemma_covering_ignores_spelling(excludes[i], tree.path@);
            assert(excludes[i].covers(tree.path@));
        }
    } else {
        let i = choose|i: int|
            0 <= i < tree.children@.len() && (#[trigger] tree.children@[i]).contributes(
                excludes,
                dir,
            );
        lemma_contributed_is_not_covered(tree.children@[i], excludes, dir);
    }
}

/// What a tree contributes does not depend on the order in which directories are
/// listed.
pub proof fn lemma_listing_order_does_not_matter(
    tree: DirTree,
    other: DirTree,
    excludes: Seq<crate::excludes::Exclusion>,
)
    requires
        tree.same_but_for_order(other),
    ensures
        tree.dirs(excludes) == other.dirs(excludes),
{
    assert forall|d: Seq<char>|
        tree.contributes(excludes, d) == other.contributes(excludes, d) by {
        lemma_reordered_contributes(tree, other, excludes, d);
    }
    assert(tree.dirs(excludes) =~= other.dirs(excludes));
}

proof fn lemma_reordered_contributes(
    tree: DirTree,
    other: DirTree,
    excludes: Seq<crate::excludes::Exclusion>,
    dir: Seq<char>,
)
    requires
        tree.same_but_for_order(other),
    ensures
        tree.contributes(excludes, dir) == other.contributes(excludes, dir),
    decreases tree,
{
    if exists|i: int|
        0 <= i < tree.children@.len() && (#[trigger] tree.children@[i]).contributes(excludes, dir) {
        let i = choose|i: int|
            0 <= i < tree.children@.len() && (#[trigger] tree.children@[i]).contributes(
                excludes,
                dir,
            );
        assert(is_place(tree.children@, i));
        let j = choose|j: int| #[trigger]
            is_place(other.children@, j) && tree.children@[i].same_but_for_order(
                other.children@[j],
            );
        lemma_reordered_contributes(tree.children@[i], other.children@[j], excludes, dir);
        assert(other.children@[j].contributes(excludes, dir));
    }
    if exists|j: int|
        0 <= j < other.children@.len() && (#[trigger] other.children@[j]).contributes(
            excludes,
            dir,
        ) {
        let j = choose|j: int|
            0 <= j < other.children@.len() && (#[trigger] other.children@[j]).contributes(
                excludes,
                dir,
            );
        assert(is_place(other.children@, j));
        let i = choose|i: int| #[trigger]
            is_place(tree.children@, i) && tree.children@[i].same_but_for_order(
                other.children@[j],
            );
        lemma_reordered_contributes(tree.children@[i], other.children@[j], excludes, dir);
        assert(tree.children@[i].contributes(excludes, dir));
    }
}

impl DirTree {
    /// Whether `child` is one of the directories in this one.
    pub open spec fn holds(self, child: DirTree) -> bool {
        exists|i: int| 0 <= i < self.children@.len() && #[trigger] self.children@[i] == child
    }
}

/// Whether each of `trees` is one of the directories in the one before.
pub open spec fn leads_down(trees: Seq<DirTree>) -> bool {
    &&& trees.len() > 0
    &&& forall|k: int| 0 <= k < trees.len() - 1 ==> (#[trigger] trees[k]).holds(trees[k + 1])
}

/// A directory is found however deep it lies: of any chain of directories that leads down
/// from a tree, the last one is among those of the tree, unless a pattern covers it. What
/// covers those above it does not matter.
pub proof fn lemma_deep_directory_is_found(
    trees: Seq<DirTree>,
    excludes: Seq<crate::excludes::Exclusion>,
)
    requires
        leads_down(trees),
        !crate::excludes::is_excluded(trees.last().path@, excludes),
    ensures
        trees[0].dirs(excludes).contains(crate::paths::normalized(trees.last().path@)),
    decreases trees.len(),
{
    if trees.len() > 1 {
        let rest = trees.drop_first();
        assert forall|k: int| 0 <= k < rest.len() - 1 implies (#[trigger] rest[k]).holds(
            rest[k + 1],
        ) by {
            assert(rest[k] == trees[k + 1] && rest[k + 1] == trees[k + 2]);
        }
        assert(rest.last() == trees.last());
        lemma_deep_directory_is_found(rest, excludes);
        assert(trees[0].holds(trees[1]));
        let i = choose|i: int|
            0 <= i < trees[0].children@.len() && #[trigger] trees[0].children@[i] == trees[1];
        assert(trees[0].children@[i].contributes(
            excludes,
            crate::paths::normalized(trees.last().path@),
        ));
    }
}

/// Nothing else is found: every directory of a tree is the last one of a chain that leads
/// down from it, and no pattern covers that one.
pub proof fn lemma_only_directories_are_found(
    tree: DirTree,
    excludes: Seq<crate::excludes::Exclusion>,
    dir: Seq<char>,
) -> (trees: Seq<DirTree>)
    requires
        tree.dirs(excludes).contains(dir),
    ensures
        leads_down(trees),
        trees[0] == tree,
        dir == crate::paths::normalized(trees.last().path@),
        !crate::excludes::is_excluded(trees.last().path@, excludes),
    decreases tree,
{
    if dir == crate::paths::normalized(tree.path@) && !crate::excludes::is_excluded(
        tree.path@,
        excludes,
    ) {
        seq![tree]
    } else {
        let i = choose|i: int|
            0 <= i < tree.children@.len() && (#[trigger] tree.children@[i]).contributes(
                excludes,
                dir,
            );
        let rest = lemma_only_directories_are_found(tree.children@[i], excludes, dir);
        let trees = seq![tree] + rest;
        assert forall|k: int| 0 <= k < trees.len() - 1 implies (#[trigger] trees[k]).holds(
            trees[k + 1],
        ) by {
            if k == 0 {
                assert(tree.children@[i] == trees[1]);
            } else {
                assert(trees[k] == rest[k - 1] && trees[k + 1] == rest[k]);
            }
        }
        assert(trees.last() == rest.last());
        trees
    }
}

} // verus!

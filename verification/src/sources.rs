//! The source files of a project.

use vstd::prelude::*;

use crate::path_set::PathSet;
use crate::paths::normalize_windows_path;
use crate::places::SOURCE_DIR;
use crate::text::{chars_of, same_text, string_of};

verus! {

/// A directory with its files and the directories below it, each with its name.
pub struct SourceDir {
    pub files: Vec<String>,
    pub subdirs: Vec<(String, SourceDir)>,
}

/// Where the extension of a file name begins: behind its last dot. Zero where it has
/// no dot.
pub open spec fn extension_start(name: Seq<char>) -> int
    decreases name.len(),
{
    if name.len() == 0 {
        0
    } else if name.last() == '.' {
        name.len() as int
    } else {
        extension_start(name.drop_last())
    }
}

/// The extension of a file name. A dot in front is part of the name, and `..` is not the
/// name of a file.
pub open spec fn extension(name: Seq<char>) -> Option<Seq<char>> {
    if extension_start(name) > 1 && name != seq!['.', '.'] {
        Some(name.skip(extension_start(name)))
    } else {
        None
    }
}

/// Whether `word` is one of the extensions of C and C++ sources.
pub open spec fn names_source(word: Seq<char>) -> bool {
    word == "cpp"@ || word == "cxx"@ || word == "cc"@ || word == "c"@
}

/// An extension in small letters.
pub open spec fn lowered(word: Seq<char>) -> Seq<char> {
    if vstd::utf8::is_ascii_chars(word) {
        word.map_values(|c: char| crate::text::ascii_lower(c))
    } else {
        crate::text::lowercase(word)
    }
}

/// Whether a file of that name is compiled: its extension, in small letters, is one of
/// C and C++ sources.
pub open spec fn is_source_name(name: Seq<char>) -> bool {
    match extension(name) {
        Some(word) => names_source(lowered(word)),
        None => false,
    }
}

/// Whether `lowered`, an extension in small letters, is one of C and C++ sources.
pub fn is_source_extension(lowered: &str) -> (res: bool)
    ensures
        res == names_source(lowered@),
{
    same_text(lowered, "cpp") || same_text(lowered, "cxx") || same_text(lowered, "cc") || same_text(
        lowered,
        "c",
    )
}

/// The extension of a file name.
pub fn find_extension(name: &str) -> (res: Option<String>)
    ensures
        match res {
            Some(word) => extension(name@) == Some(word@),
            None => extension(name@) is None,
        },
{
    let chars = chars_of(name);
    let mut n: usize = chars.len();
    assert(chars@.take(n as int) =~= name@);
    while n > 0
        invariant
            n <= chars.len(),
            chars@ == name@,
            extension_start(chars@.take(n as int)) == extension_start(name@),
        decreases n,
    {
        if chars[n - 1] == '.' {
            if n == 1 {
                return None;
            }
            if n == 2 && chars.len() == 2 && chars[0] == '.' {
                assert(name@ =~= seq!['.', '.']);
                return None;
            }
            let word = string_of(&chars.as_slice()[n..chars.len()]);
            assert(word@ =~= name@.skip(n as int));
            return Some(word);
        }
        assert(chars@.take(n as int).drop_last() =~= chars@.take(n - 1));
        n -= 1;
    }
    None
}

/// Whether a file of that name is compiled.
pub fn is_source_file(name: &str) -> (res: bool)
    ensures
        res == is_source_name(name@),
{
    match find_extension(name) {
        Some(word) => is_source_extension(word.as_str().to_lowercase().as_str()),
        None => false,
    }
}

/// The path of what is called `name` in the directory `at`.
pub open spec fn below(at: Seq<char>, name: Seq<char>) -> Seq<char> {
    at + seq!['/'] + name
}

fn path_below(at: &str, name: &str) -> (res: String)
    ensures
        res@ == below(at@, name@),
{
    let mut path = at.to_string();
    path.push('/');
    path.append(name);
    assert(path@ =~= below(at@, name@));
    path
}

impl SourceDir {
    /// Whether `path` is that of a source file in the directory, or below it, where
    /// `at` is the path of the directory.
    pub open spec fn has_source(self, at: Seq<char>, path: Seq<char>) -> bool
        decreases self,
    {
        ||| exists|i: int|
            0 <= i < self.files@.len() && is_source_name((#[trigger] self.files@[i])@) && path
                == crate::paths::normalized(below(at, self.files@[i]@))
        ||| exists|i: int|
            0 <= i < self.subdirs@.len() && (#[trigger] self.subdirs@[i]).1.has_source(
                below(at, self.subdirs@[i].0@),
                path,
            )
    }
}

/// Adds the source files of a directory, whose path in the project is `at`, and of
/// those below it.
pub fn scan_sources_recursively(at: &str, dir: &SourceDir, sources: &mut PathSet)
    ensures
        forall|p: Seq<char>| #[trigger]
            final(sources)@.contains(p) <==> old(sources)@.contains(p) || dir.has_source(at@, p),
    decreases dir,
{
    let mut i: usize = 0;
    while i < dir.files.len()
        invariant
            i <= dir.files.len(),
            forall|p: Seq<char>| #[trigger]
                sources@.contains(p) <==> old(sources)@.contains(p) || exists|j: int|
                    0 <= j < i && is_source_name((#[trigger] dir.files@[j])@) && p
                        == crate::paths::normalized(below(at@, dir.files@[j]@)),
        decreases dir.files.len() - i,
    {
        let name = dir.files[i].as_str();
        if is_source_file(name) {
            let rel = path_below(at, name);
            sources.insert(normalize_windows_path(rel.as_str()));
        }
        i += 1;
    }
    let ghost here = sources@;
    let mut k: usize = 0;
    while k < dir.subdirs.len()
        invariant
            k <= dir.subdirs.len(),
            forall|p: Seq<char>| #[trigger]
                sources@.contains(p) <==> here.contains(p) || exists|j: int|
                    0 <= j < k && (#[trigger] dir.subdirs@[j]).1.has_source(
                        below(at@, dir.subdirs@[j].0@),
                        p,
                    ),
        decreases dir.subdirs.len() - k,
    {
        let ghost before = sources@;
        let sub = &dir.subdirs[k];
        let path = path_below(at, sub.0.as_str());
        assert(decreases_to!(dir => dir.subdirs@[k as int]));
        assert(decreases_to!(dir.subdirs@[k as int] => dir.subdirs@[k as int].1));
        scan_sources_recursively(path.as_str(), &sub.1, sources);
        assert forall|p: Seq<char>| #[trigger]
            sources@.contains(p) <==> here.contains(p) || exists|j: int|
                0 <= j < k + 1 && (#[trigger] dir.subdirs@[j]).1.has_source(
                    below(at@, dir.subdirs@[j].0@),
                    p,
                ) by {
            assert(sources@.contains(p) <==> before.contains(p)
                || dir.subdirs@[k as int].1.has_source(below(at@, dir.subdirs@[k as int].0@), p));
        }
        k += 1;
    }
}

/// The sources that were found, by their paths in the project.
pub open spec fn sources_found(src_dir: Option<&SourceDir>) -> Set<Seq<char>> {
    Set::new(
        |p: Seq<char>|
            match src_dir {
                Some(dir) => dir.has_source(SOURCE_DIR@, p),
                None => false,
            },
    )
}

/// The sources that a project is taken to have: those that were found, or where there
/// are none the two that every new project has.
pub open spec fn project_sources(src_dir: Option<&SourceDir>) -> Set<Seq<char>> {
    if sources_found(src_dir) == Set::<Seq<char>>::empty() {
        set!["src/main.cpp"@, "src/ofApp.cpp"@]
    } else {
        sources_found(src_dir)
    }
}

/// The source files of a project, sorted, by their paths in it; `src_dir` is its
/// source directory, if there is one.
pub fn collect_source_files(src_dir: Option<&SourceDir>) -> (res: Vec<String>)
    ensures
        crate::path_set::strictly_sorted(crate::path_set::texts(res@)),
        crate::path_set::texts(res@).to_set() == project_sources(src_dir),
{
    let mut sources = PathSet::new();
    if let Some(dir) = src_dir {
        scan_sources_recursively(SOURCE_DIR, dir, &mut sources);
    }
    assert(sources@ =~= sources_found(src_dir));
    if sources.is_empty() {
        sources.insert("src/main.cpp".to_string());
        sources.insert("src/ofApp.cpp".to_string());
        assert(sources@ =~= set!["src/main.cpp"@, "src/ofApp.cpp"@]);
    }
    sources.into_sorted()
}

impl SourceDir {
    /// Whether two directories are the same but for the order in which what they hold
    /// is listed.
    pub open spec fn same_but_for_order(self, other: SourceDir) -> bool
        decreases self,
    {
        &&& crate::path_set::texts(self.files@).to_set() == crate::path_set::texts(
            other.files@,
        ).to_set()
        &&& forall|i: int|
            0 <= i < self.subdirs@.len() ==> exists|j: int|
                0 <= j < other.subdirs@.len() && #[trigger] self.subdirs@[i].0@
                    == other.subdirs@[j].0@ && self.subdirs@[i].1.same_but_for_order(
                    (#[trigger] other.subdirs@[j]).1,
                )
        &&& forall|j: int|
            0 <= j < other.subdirs@.len() ==> exists|i: int|
                0 <= i < self.subdirs@.len() && (#[trigger] self.subdirs@[i]).0@
                    == #[trigger] other.subdirs@[j].0@ && self.subdirs@[i].1.same_but_for_order(
                    other.subdirs@[j].1,
                )
    }
}

proof fn lemma_same_files(a: SourceDir, b: SourceDir, at: Seq<char>, path: Seq<char>, i: int)
    requires
        crate::path_set::texts(a.files@).to_set() == crate::path_set::texts(b.files@).to_set(),
        0 <= i < a.files@.len(),
        is_source_name(a.files@[i]@),
        path == crate::paths::normalized(below(at, a.files@[i]@)),
    ensures
        b.has_source(at, path),
{
    let (x, y) = (crate::path_set::texts(a.files@), crate::path_set::texts(b.files@));
    assert(x[i] == a.files@[i]@);
    assert(x.to_set().contains(x[i]));
    assert(y.contains(x[i]));
    let j = choose|j: int| 0 <= j < y.len() && y[j] == x[i];
    assert(b.files@[j]@ == a.files@[i]@);
}

proof fn lemma_reordered_has_source(a: SourceDir, b: SourceDir, at: Seq<char>, path: Seq<char>)
    requires
        a.same_but_for_order(b),
    ensures
        a.has_source(at, path) == b.has_source(at, path),
    decreases a,
{
    if a.has_source(at, path) {
        if exists|i: int|
            0 <= i < a.files@.len() && is_source_name((#[trigger] a.files@[i])@) && path
                == crate::paths::normalized(below(at, a.files@[i]@)) {
            let i = choose|i: int|
                0 <= i < a.files@.len() && is_source_name((#[trigger] a.files@[i])@) && path
                    == crate::paths::normalized(below(at, a.files@[i]@));
            lemma_same_files(a, b, at, path, i);
        } else {
            let i = choose|i: int|
                0 <= i < a.subdirs@.len() && (#[trigger] a.subdirs@[i]).1.has_source(
                    below(at, a.subdirs@[i].0@),
                    path,
                );
            assert(a.subdirs@[i].0@ == a.subdirs@[i].0@);
            let j = choose|j: int|
                0 <= j < b.subdirs@.len() && a.subdirs@[i].0@ == b.subdirs@[j].0@
                    && a.subdirs@[i].1.same_but_for_order((#[trigger] b.subdirs@[j]).1);
            lemma_reordered_has_source(
                a.subdirs@[i].1,
                b.subdirs@[j].1,
                below(at, a.subdirs@[i].0@),
                path,
            );
            assert(b.subdirs@[j].1.has_source(below(at, b.subdirs@[j].0@), path));
        }
    }
    if b.has_source(at, path) {
        if exists|i: int|
            0 <= i < b.files@.len() && is_source_name((#[trigger] b.files@[i])@) && path
                == crate::paths::normalized(below(at, b.files@[i]@)) {
            let i = choose|i: int|
                0 <= i < b.files@.len() && is_source_name((#[trigger] b.files@[i])@) && path
                    == crate::paths::normalized(below(at, b.files@[i]@));
            lemma_same_files(b, a, at, path, i);
        } else {
            let j = choose|j: int|
                0 <= j < b.subdirs@.len() && (#[trigger] b.subdirs@[j]).1.has_source(
                    below(at, b.subdirs@[j].0@),
                    path,
                );
            assert(b.subdirs@[j].0@ == b.subdirs@[j].0@);
            let i = choose|i: int|
                0 <= i < a.subdirs@.len() && (#[trigger] a.subdirs@[i]).0@ == b.subdirs@[j].0@
                    && a.subdirs@[i].1.same_but_for_order(b.subdirs@[j].1);
            lemma_reordered_has_source(
                a.subdirs@[i].1,
                b.subdirs@[j].1,
                below(at, a.subdirs@[i].0@),
                path,
            );
            assert(a.subdirs@[i].1.has_source(below(at, a.subdirs@[i].0@), path));
        }
    }
}

/// The source files do not depend on the order in which a system lists files and
/// directories: the two sorted listings are one and the same.
pub proof fn lemma_sources_ignore_listing_order(
    a: SourceDir,
    b: SourceDir,
    listed_a: Seq<Seq<char>>,
    listed_b: Seq<Seq<char>>,
)
    requires
        a.same_but_for_order(b),
        crate::path_set::strictly_sorted(listed_a),
        listed_a.to_set() == project_sources(Some(&a)),
        crate::path_set::strictly_sorted(listed_b),
        listed_b.to_set() == project_sources(Some(&b)),
    ensures
        listed_a == listed_b,
{
    assert forall|p: Seq<char>| a.has_source(SOURCE_DIR@, p) == b.has_source(SOURCE_DIR@, p) by {
        lemma_reordered_has_source(a, b, SOURCE_DIR@, p);
    }
    assert(sources_found(Some(&a)) =~= sources_found(Some(&b)));
    crate::path_set::lemma_sorted_listing_is_unique(listed_a, listed_b);
}

/// A project always has a source file.
pub proof fn lemma_a_project_has_sources(src_dir: Option<&SourceDir>)
    ensures
        project_sources(src_dir) != Set::<Seq<char>>::empty(),
{
    assert(set!["src/main.cpp"@, "src/ofApp.cpp"@].contains("src/main.cpp"@));
}

/// Every source file lies below the source directory of the project, and its path is
/// written the one way.
pub proof fn lemma_sources_lie_below_source_dir(src_dir: Option<&SourceDir>, path: Seq<char>)
    requires
        project_sources(src_dir).contains(path),
    ensures
        "src/"@.is_prefix_of(path),
        crate::paths::normalized(path) == path,
{
    reveal_strlit("src/");
    reveal_strlit("src");
    reveal_strlit("src/main.cpp");
    reveal_strlit("src/ofApp.cpp");
    if sources_found(src_dir) == Set::<Seq<char>>::empty() {
        assert("src/"@ =~= path.subrange(0, 4));
        assert(!path.contains('\\'));
        crate::paths::lemma_slashed_path_is_kept(path);
    } else {
        lemma_source_path(*src_dir->0, SOURCE_DIR@, path);
        assert(below(SOURCE_DIR@, Seq::empty()) =~= "src/"@);
        assert("src/"@ =~= path.subrange(0, 4));
    }
}

proof fn lemma_source_path(dir: SourceDir, at: Seq<char>, path: Seq<char>)
    requires
        dir.has_source(at, path),
        at.len() >= 3,
        at[0] == 's',
        at[1] == 'r',
        at[2] == 'c',
        at.len() > 3 ==> at[3] == '/',
    ensures
        path.len() >= 4,
        path[0] == 's',
        path[1] == 'r',
        path[2] == 'c',
        path[3] == '/',
        crate::paths::normalized(path) == path,
    decreases dir,
{
    if exists|i: int|
        0 <= i < dir.files@.len() && is_source_name((#[trigger] dir.files@[i])@) && path
            == crate::paths::normalized(below(at, dir.files@[i]@)) {
        let i = choose|i: int|
            0 <= i < dir.files@.len() && is_source_name((#[trigger] dir.files@[i])@) && path
                == crate::paths::normalized(below(at, dir.files@[i]@));
        let whole = below(at, dir.files@[i]@);
        if crate::paths::is_verbatim(whole) {
            assert(whole[0] == whole.subrange(0, 4)[0]);
        }
        crate::paths::lemma_normalizing_is_idempotent(whole);
    } else {
        let i = choose|i: int|
            0 <= i < dir.subdirs@.len() && (#[trigger] dir.subdirs@[i]).1.has_source(
                below(at, dir.subdirs@[i].0@),
                path,
            );
        lemma_source_path(dir.subdirs@[i].1, below(at, dir.subdirs@[i].0@), path);
    }
}

/// Whether a file is compiled does not depend on the case of the ASCII letters of its
/// extension.
pub proof fn lemma_extension_ignores_case(name: Seq<char>, other: Seq<char>)
    requires
        extension(name) is Some,
        extension(other) is Some,
        vstd::utf8::is_ascii_chars(extension(name)->0),
        vstd::utf8::is_ascii_chars(extension(other)->0),
        extension(name)->0.map_values(|c: char| crate::text::ascii_lower(c)) == extension(
            other,
        )->0.map_values(|c: char| crate::text::ascii_lower(c)),
    ensures
        is_source_name(name) == is_source_name(other),
{
}

proof fn lemma_extension_behind(stem: Seq<char>, word: Seq<char>)
    requires
        !word.contains('.'),
    ensures
        extension_start(stem + seq!['.'] + word) == stem.len() + 1,
    decreases word.len(),
{
    let name = stem + seq!['.'] + word;
    if word.len() > 0 {
        let shorter = word.drop_last();
        assert(name.last() == word.last());
        assert(word.contains(word.last()));
        assert(name.drop_last() =~= stem + seq!['.'] + shorter);
        assert forall|i: int| 0 <= i < shorter.len() implies shorter[i] != '.' by {
            assert(word.contains(word[i]));
        }
        lemma_extension_behind(stem, shorter);
    } else {
        assert(name.last() == '.');
    }
}

proof fn lemma_no_dot_no_extension(name: Seq<char>)
    requires
        !name.contains('.'),
    ensures
        extension_start(name) == 0,
    decreases name.len(),
{
    if name.len() > 0 {
        let shorter = name.drop_last();
        assert(name.contains(name.last()));
        assert forall|i: int| 0 <= i < shorter.len() implies shorter[i] != '.' by {
            assert(name.contains(name[i]));
        }
        lemma_no_dot_no_extension(shorter);
    }
}

/// The extension of a file is what stands behind the last dot of its name, where something
/// stands in front of that dot.
pub proof fn lemma_extension_is_behind_last_dot(stem: Seq<char>, word: Seq<char>)
    requires
        !word.contains('.'),
    ensures
        extension(word) is None,
        extension(seq!['.'] + word) is None,
        stem.len() > 0 && (stem != seq!['.'] || word.len() > 0) ==> extension(
            stem + seq!['.'] + word,
        ) == Some(word),
        extension(seq!['.', '.']) is None,
{
    lemma_no_dot_no_extension(word);
    lemma_extension_behind(Seq::empty(), word);
    assert(Seq::<char>::empty() + seq!['.'] + word =~= seq!['.'] + word);
    lemma_extension_behind(stem, word);
    let name = stem + seq!['.'] + word;
    assert(name.skip(stem.len() as int + 1) =~= word);
    if name == seq!['.', '.'] {
        assert(name.len() == 2);
        if stem.len() == 1 {
            assert(stem[0] == name[0]);
            assert(stem =~= seq!['.']);
        }
    }
}

/// Whether `c` is the letter `small` or its capital.
pub open spec fn is_either(c: char, small: char, capital: char) -> bool {
    c == small || c == capital
}

/// Which files are compiled: those whose name ends, behind a stem and a dot, in `c`, `cc`,
/// `cpp` or `cxx`, in large or small letters. No other name of an ASCII extension is that
/// of a source, and none without a stem or without a dot.
pub proof fn lemma_sources_by_extension(stem: Seq<char>, word: Seq<char>)
    requires
        !word.contains('.'),
        vstd::utf8::is_ascii_chars(word),
    ensures
        !is_source_name(word),
        !is_source_name(seq!['.'] + word),
        stem.len() > 0 ==> (is_source_name(stem + seq!['.'] + word) <==> {
            ||| word.len() == 1 && is_either(word[0], 'c', 'C')
            ||| word.len() == 2 && is_either(word[0], 'c', 'C') && is_either(word[1], 'c', 'C')
            ||| word.len() == 3 && is_either(word[0], 'c', 'C') && is_either(word[1], 'p', 'P')
                && is_either(word[2], 'p', 'P')
            ||| word.len() == 3 && is_either(word[0], 'c', 'C') && is_either(word[1], 'x', 'X')
                && is_either(word[2], 'x', 'X')
        }),
{
    lemma_extension_is_behind_last_dot(stem, word);
    lemma_source_extensions(lowered(word));
    lemma_small_letters(word);
    if word.len() == 0 && stem == seq!['.'] {
        assert(stem + seq!['.'] + word =~= seq!['.', '.']);
    }
}

/// Which files are compiled whose extension is not ASCII: those whose extension is one of
/// the four in the small letters of Unicode.
pub proof fn lemma_sources_by_extension_beyond_ascii(stem: Seq<char>, word: Seq<char>)
    requires
        !word.contains('.'),
        !vstd::utf8::is_ascii_chars(word),
        stem.len() > 0,
    ensures
        !is_source_name(word),
        !is_source_name(seq!['.'] + word),
        is_source_name(stem + seq!['.'] + word) <==> {
            let small = crate::text::lowercase(word);
            small == seq!['c'] || small == seq!['c', 'c'] || small == seq!['c', 'p', 'p'] || small
                == seq!['c', 'x', 'x']
        },
{
    if word.len() == 0 {
        assert(vstd::utf8::is_ascii_chars(word));
    }
    lemma_extension_is_behind_last_dot(stem, word);
    lemma_source_extensions(crate::text::lowercase(word));
}

/// The extensions of sources, letter by letter.
proof fn lemma_source_extensions(word: Seq<char>)
    ensures
        names_source(word) <==> word == seq!['c'] || word == seq!['c', 'c'] || word == seq![
            'c',
            'p',
            'p',
        ] || word == seq!['c', 'x', 'x'],
{
    reveal_strlit("c");
    reveal_strlit("cc");
    reveal_strlit("cpp");
    reveal_strlit("cxx");
    assert("c"@ =~= seq!['c']);
    assert("cc"@ =~= seq!['c', 'c']);
    assert("cpp"@ =~= seq!['c', 'p', 'p']);
    assert("cxx"@ =~= seq!['c', 'x', 'x']);
}

/// Which characters become one of the letters of those extensions.
proof fn lemma_small_letter(c: char)
    ensures
        crate::text::ascii_lower(c) == 'c' <==> is_either(c, 'c', 'C'),
        crate::text::ascii_lower(c) == 'p' <==> is_either(c, 'p', 'P'),
        crate::text::ascii_lower(c) == 'x' <==> is_either(c, 'x', 'X'),
{
}

/// A word in small letters is `wanted` where each of its letters becomes that of `wanted`.
proof fn lemma_small_word(word: Seq<char>, wanted: Seq<char>)
    ensures
        word.map_values(|c: char| crate::text::ascii_lower(c)) == wanted <==> word.len()
            == wanted.len() && forall|i: int|
            0 <= i < word.len() ==> crate::text::ascii_lower(#[trigger] word[i]) == wanted[i],
{
    let small = word.map_values(|c: char| crate::text::ascii_lower(c));
    if word.len() == wanted.len() && (forall|i: int|
        0 <= i < word.len() ==> crate::text::ascii_lower(#[trigger] word[i]) == wanted[i]) {
        assert(small =~= wanted);
    }
    if small == wanted {
        assert forall|i: int| 0 <= i < word.len() implies crate::text::ascii_lower(
            #[trigger] word[i],
        ) == wanted[i] by {
            assert(small[i] == wanted[i]);
        }
    }
}

proof fn lemma_small_letters(word: Seq<char>)
    ensures
        ({
            let small = word.map_values(|c: char| crate::text::ascii_lower(c));
            &&& small == seq!['c'] <==> word.len() == 1 && is_either(word[0], 'c', 'C')
            &&& small == seq!['c', 'c'] <==> word.len() == 2 && is_either(word[0], 'c', 'C')
                && is_either(word[1], 'c', 'C')
            &&& small == seq!['c', 'p', 'p'] <==> word.len() == 3 && is_either(word[0], 'c', 'C')
                && is_either(word[1], 'p', 'P') && is_either(word[2], 'p', 'P')
            &&& small == seq!['c', 'x', 'x'] <==> word.len() == 3 && is_either(word[0], 'c', 'C')
                && is_either(word[1], 'x', 'X') && is_either(word[2], 'x', 'X')
        }),
{
    lemma_small_word(word, seq!['c']);
    lemma_small_word(word, seq!['c', 'c']);
    lemma_small_word(word, seq!['c', 'p', 'p']);
    lemma_small_word(word, seq!['c', 'x', 'x']);
    lemma_small_letter(word[0]);
    lemma_small_letter(word[1]);
    lemma_small_letter(word[2]);
}

impl SourceDir {
    /// Whether `child` is a directory in this one, under that name.
    pub open spec fn holds(self, name: Seq<char>, child: SourceDir) -> bool {
        exists|i: int|
            0 <= i < self.subdirs@.len() && (#[trigger] self.subdirs@[i]).0@ == name
                && self.subdirs@[i].1 == child
    }
}

/// Whether each of `dirs` is a directory in the one before, under the name that `names`
/// gives it, and `paths` holds their paths.
pub open spec fn leads_down(
    dirs: Seq<SourceDir>,
    names: Seq<Seq<char>>,
    paths: Seq<Seq<char>>,
) -> bool {
    &&& dirs.len() == names.len() + 1
    &&& paths.len() == names.len() + 1
    &&& forall|k: int|
        0 <= k < names.len() ==> {
            &&& paths[k + 1] == paths[k] + seq!['/'] + #[trigger] names[k]
            &&& dirs[k].holds(names[k], dirs[k + 1])
        }
}

proof fn lemma_source_at_the_end(
    dirs: Seq<SourceDir>,
    names: Seq<Seq<char>>,
    paths: Seq<Seq<char>>,
    f: int,
)
    requires
        leads_down(dirs, names, paths),
        0 <= f < dirs.last().files@.len(),
        is_source_name(dirs.last().files@[f]@),
    ensures
        dirs[0].has_source(
            paths[0],
            crate::paths::normalized(paths.last() + seq!['/'] + dirs.last().files@[f]@),
        ),
    decreases names.len(),
{
    let path = crate::paths::normalized(paths.last() + seq!['/'] + dirs.last().files@[f]@);
    if names.len() > 0 {
        let (d, n, p) = (dirs.drop_first(), names.drop_first(), paths.drop_first());
        assert forall|k: int| 0 <= k < n.len() implies {
            &&& p[k + 1] == p[k] + seq!['/'] + #[trigger] n[k]
            &&& d[k].holds(n[k], d[k + 1])
        } by {
            assert(n[k] == names[k + 1]);
            assert(d[k] == dirs[k + 1] && d[k + 1] == dirs[k + 1 + 1]);
            assert(p[k] == paths[k + 1] && p[k + 1] == paths[k + 1 + 1]);
        }
        assert(d.last() == dirs.last());
        assert(p.last() == paths.last());
        lemma_source_at_the_end(d, n, p, f);
        assert(dirs[0].holds(names[0], dirs[1]));
        let i = choose|i: int|
            0 <= i < dirs[0].subdirs@.len() && (#[trigger] dirs[0].subdirs@[i]).0@ == names[0]
                && dirs[0].subdirs@[i].1 == dirs[1];
        assert(paths[1] == paths[0] + seq!['/'] + names[0]);
        assert(dirs[0].subdirs@[i].1.has_source(paths[0] + seq!['/'] + names[0], path));
    }
}

/// A source file is found however deep it lies: from the source directory down any chain
/// of directories, a file with the name of a source is among the sources of the project,
/// under its path from the source directory on.
pub proof fn lemma_deep_source_is_found(
    dirs: Seq<SourceDir>,
    names: Seq<Seq<char>>,
    paths: Seq<Seq<char>>,
    f: int,
)
    requires
        leads_down(dirs, names, paths),
        paths[0] == "src"@,
        0 <= f < dirs.last().files@.len(),
        is_source_name(dirs.last().files@[f]@),
    ensures
        project_sources(Some(&dirs[0])).contains(
            crate::paths::normalized(paths.last() + seq!['/'] + dirs.last().files@[f]@),
        ),
{
    lemma_source_at_the_end(dirs, names, paths, f);
    let path = crate::paths::normalized(paths.last() + seq!['/'] + dirs.last().files@[f]@);
    assert(sources_found(Some(&dirs[0])).contains(path));
}

/// What is found below a directory lies at the end of a chain that leads down to it.
proof fn lemma_source_has_a_chain(dir: SourceDir, at: Seq<char>, path: Seq<char>) -> (res: (
    Seq<SourceDir>,
    Seq<Seq<char>>,
    Seq<Seq<char>>,
    int,
))
    requires
        dir.has_source(at, path),
    ensures
        ({
            let (dirs, names, paths, f) = res;
            &&& leads_down(dirs, names, paths)
            &&& dirs[0] == dir
            &&& paths[0] == at
            &&& 0 <= f < dirs.last().files@.len()
            &&& is_source_name(dirs.last().files@[f]@)
            &&& path == crate::paths::normalized(
                paths.last() + seq!['/'] + dirs.last().files@[f]@,
            )
        }),
    decreases dir,
{
    if exists|i: int|
        0 <= i < dir.files@.len() && is_source_name((#[trigger] dir.files@[i])@) && path
            == crate::paths::normalized(below(at, dir.files@[i]@)) {
        let f = choose|i: int|
            0 <= i < dir.files@.len() && is_source_name((#[trigger] dir.files@[i])@) && path
                == crate::paths::normalized(below(at, dir.files@[i]@));
        (seq![dir], Seq::empty(), seq![at], f)
    } else {
        let i = choose|i: int|
            0 <= i < dir.subdirs@.len() && (#[trigger] dir.subdirs@[i]).1.has_source(
                below(at, dir.subdirs@[i].0@),
                path,
            );
        let name = dir.subdirs@[i].0@;
        let (d, n, p, f) = lemma_source_has_a_chain(dir.subdirs@[i].1, below(at, name), path);
        let (dirs, names, paths) = (seq![dir] + d, seq![name] + n, seq![at] + p);
        assert forall|k: int| 0 <= k < names.len() implies {
            &&& paths[k + 1] == paths[k] + seq!['/'] + #[trigger] names[k]
            &&& dirs[k].holds(names[k], dirs[k + 1])
        } by {
            if k == 0 {
                assert(dir.subdirs@[i].0@ == names[0]);
                assert(dirs[1] == d[0] && paths[1] == p[0]);
            } else {
                assert(names[k] == n[k - 1]);
                assert(dirs[k] == d[k - 1] && dirs[k + 1] == d[k]);
                assert(paths[k] == p[k - 1] && paths[k + 1] == p[k]);
            }
        }
        assert(dirs.last() == d.last());
        assert(paths.last() == p.last());
        (dirs, names, paths, f)
    }
}

/// Nothing else is found: where a project has a source file at all, every source of the
/// project is a file with the name of a source that some chain of directories leads down
/// to from the source directory. Where it has none, its sources are the two of a new
/// project.
pub proof fn lemma_only_sources_are_found(dir: SourceDir, path: Seq<char>) -> (res: Option<
    (Seq<SourceDir>, Seq<Seq<char>>, Seq<Seq<char>>, int),
>)
    requires
        project_sources(Some(&dir)).contains(path),
    ensures
        match res {
            Some((dirs, names, paths, f)) => {
                &&& leads_down(dirs, names, paths)
                &&& dirs[0] == dir
                &&& paths[0] == "src"@
                &&& 0 <= f < dirs.last().files@.len()
                &&& is_source_name(dirs.last().files@[f]@)
                &&& path == crate::paths::normalized(
                    paths.last() + seq!['/'] + dirs.last().files@[f]@,
                )
            },
            None => {
                &&& path == "src/main.cpp"@ || path == "src/ofApp.cpp"@
                &&& project_sources(Some(&dir)).contains("src/main.cpp"@)
                &&& project_sources(Some(&dir)).contains("src/ofApp.cpp"@)
                &&& forall|p: Seq<char>| !#[trigger] dir.has_source("src"@, p)
            },
        },
{
    let found = sources_found(Some(&dir));
    if found == Set::<Seq<char>>::empty() {
        assert forall|p: Seq<char>| !#[trigger] dir.has_source("src"@, p) by {
            assert(!found.contains(p));
        }
        None
    } else {
        assert(found.contains(path));
        Some(lemma_source_has_a_chain(dir, "src"@, path))
    }
}

/// A project without a source directory is taken to have the two sources of a new one.
pub proof fn lemma_sources_without_a_source_directory(path: Seq<char>)
    ensures
        project_sources(None).contains(path) <==> path == "src/main.cpp"@ || path
            == "src/ofApp.cpp"@,
{
    assert(sources_found(None) =~= Set::<Seq<char>>::empty());
}

} // verus!

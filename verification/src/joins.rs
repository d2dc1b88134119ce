//! Joining a path to a directory, which every system does in its own way.

use vstd::prelude::*;

verus! {

/// Whether `c` separates the parts of a path on some system.
pub open spec fn is_separator(c: char) -> bool {
    c == '/' || c == '\\'
}

/// Whether `c` can name a drive.
pub open spec fn is_letter(c: char) -> bool {
    'a' <= c <= 'z' || 'A' <= c <= 'Z'
}

/// Whether `path` begins with a drive: a letter and a colon.
pub open spec fn names_drive(path: Seq<char>) -> bool {
    path.len() > 1 && is_letter(path[0]) && path[1] == ':'
}

/// Whether `path` has a separator in front.
pub open spec fn is_rooted(path: Seq<char>) -> bool {
    path.len() > 0 && is_separator(path[0])
}

/// Whether `path` has two separators in front, behind which Windows looks for the name
/// of a host or of a device.
pub open spec fn names_host(path: Seq<char>) -> bool {
    path.len() > 1 && is_separator(path[0]) && is_separator(path[1])
}

/// Whether no more of the name is to come at `i`: the path ends or is separated there.
pub open spec fn name_ends_at(path: Seq<char>, i: int) -> bool {
    i >= path.len() || is_separator(path[i])
}

/// Where the name ends that `path` holds at `i`.
pub open spec fn part_end(path: Seq<char>, i: int) -> int
    decreases path.len() - i,
{
    if name_ends_at(path, i) {
        i
    } else {
        part_end(path, i + 1)
    }
}

/// Whether `path` begins with a host and a share, or with a device, behind backslashes.
pub open spec fn names_share(path: Seq<char>) -> bool {
    let k = part_end(path, 2);
    &&& path.len() > 2 && path[0] == '\\' && path[1] == '\\'
    &&& 2 < k < path.len() && path[k] == '\\'
    &&& !name_ends_at(path, k + 1)
}

/// Where the share ends with which `path` begins.
pub open spec fn share_end(path: Seq<char>) -> int {
    part_end(path, part_end(path, 2) + 1)
}

/// Whether every system takes `part` for a path relative to some directory.
pub open spec fn is_plain_relative(part: Seq<char>) -> bool {
    !is_rooted(part) && !names_drive(part)
}

/// Whether `path` ends with a character that is part of a name.
pub open spec fn ends_in_name(path: Seq<char>) -> bool {
    path.len() > 0 && !is_separator(path.last()) && path.last() != ':'
}

/// Whether the name that begins at `i` is `.` or `..`.
pub open spec fn is_dots_at(path: Seq<char>, i: int) -> bool {
    &&& i == 0 || is_separator(path[i - 1])
    &&& path[i] == '.'
    &&& name_ends_at(path, i + 1) || path[i + 1] == '.' && name_ends_at(path, i + 2)
}

/// Whether `part` is a plain relative path of names: none is empty, and none is `.` or
/// `..`.
pub open spec fn is_plain_names(part: Seq<char>) -> bool {
    &&& part.len() > 0
    &&& is_plain_relative(part)
    &&& forall|i: int|
        0 <= i < part.len() && is_separator(#[trigger] part[i]) ==> !name_ends_at(part, i + 1)
    &&& forall|i: int| 0 <= i < part.len() ==> !#[trigger] is_dots_at(part, i)
}

/// Whether `path` carries the verbatim mark of Windows and behind it has no two
/// separators in a row, no slash right behind a drive, and a name at its end.
pub open spec fn is_clean_verbatim(path: Seq<char>) -> bool {
    &&& crate::paths::is_verbatim(path)
    &&& path.len() > 4
    &&& forall|i: int|
        4 <= i < path.len() && is_separator(#[trigger] path[i]) ==> !is_separator(path[i - 1])
    &&& !(path.len() > 6 && names_drive(path.skip(4)) && path[6] == '/')
    &&& ends_in_name(path)
}

/// Where the name ends that `path` holds at `i`, if backslashes alone separate names.
pub open spec fn name_end(path: Seq<char>, i: int) -> int
    decreases path.len() - i,
{
    if i >= path.len() || path[i] == '\\' {
        i
    } else {
        name_end(path, i + 1)
    }
}

/// Where the names begin to count in a verbatim path: behind the drive or the volume, or
/// behind the host and the share.
pub open spec fn root_end(path: Seq<char>) -> int {
    if path.len() >= 8 && path.subrange(4, 8) == seq!['U', 'N', 'C', '\\'] {
        name_end(path, name_end(path, 8) + 1)
    } else {
        name_end(path, 4)
    }
}

/// Whether `path` has the form of a canonical path of Windows: the verbatim mark, the
/// drive, and names that are neither `.` nor `..`, each behind a backslash. In place of
/// the drive a volume can stand, or a host and a share. A root alone has a backslash
/// behind it.
pub open spec fn is_canonical(path: Seq<char>) -> bool {
    &&& crate::paths::is_verbatim(path)
    &&& forall|i: int|
        4 <= i < path.len() && is_separator(#[trigger] path[i]) ==> !is_separator(path[i - 1])
    &&& !path.contains('/')
    &&& root_end(path) < path.len()
    &&& path.last() == '\\' ==> root_end(path) == path.len() - 1
    &&& forall|i: int| root_end(path) < i < path.len() ==> !#[trigger] is_dots_at(path, i)
}

/// The canonical path `base` without the backslash that a root alone has behind it.
pub open spec fn walk_start(base: Seq<char>) -> Seq<char> {
    if base.last() == '\\' {
        base.drop_last()
    } else {
        base
    }
}

/// The join on systems where the slash alone separates names.
pub open spec fn slash_join(base: Seq<char>, part: Seq<char>) -> Seq<char> {
    if part.len() > 0 && part[0] == '/' {
        part
    } else if base.len() == 0 || base.last() == '/' {
        base + part
    } else {
        base + seq!['/'] + part
    }
}

/// Where the last backslash of `path` stands; zero where it has none.
pub open spec fn last_backslash(path: Seq<char>) -> int
    decreases path.len(),
{
    if path.len() == 0 {
        0
    } else if path.last() == '\\' {
        path.len() - 1
    } else {
        last_backslash(path.drop_last())
    }
}

/// The directory that holds `path`.
pub open spec fn parent(path: Seq<char>) -> Seq<char> {
    path.take(last_backslash(path))
}

/// Going up from `path`, but never above its root, which ends at `root`.
pub open spec fn raised(path: Seq<char>, root: int) -> Seq<char> {
    if path.len() > root {
        parent(path)
    } else {
        path
    }
}

/// Going up `k` times from `path`.
pub open spec fn ancestor(path: Seq<char>, root: int, k: int) -> Seq<char>
    decreases k,
{
    if k <= 0 {
        path
    } else {
        raised(ancestor(path, root, k - 1), root)
    }
}

/// Going from the verbatim path `at` to `name`. An empty name and `.` stay; `..` goes up.
pub open spec fn stepped(at: Seq<char>, root: int, name: Seq<char>) -> Seq<char> {
    if name.len() == 0 || name == seq!['.'] {
        at
    } else if name == seq!['.', '.'] {
        raised(at, root)
    } else {
        at + seq!['\\'] + name
    }
}

/// Where the last name of `part` begins.
pub open spec fn last_name_start(part: Seq<char>) -> int
    decreases part.len(),
{
    if part.len() == 0 {
        0
    } else if is_separator(part.last()) {
        part.len() as int
    } else {
        last_name_start(part.drop_last())
    }
}

/// Going from the verbatim path `at` to each name of `part` in turn.
pub open spec fn walked(at: Seq<char>, root: int, part: Seq<char>) -> Seq<char>
    decreases part.len(),
{
    let start = last_name_start(part);
    if 0 < start <= part.len() {
        stepped(walked(at, root, part.take(start - 1)), root, part.skip(start))
    } else {
        stepped(at, root, part)
    }
}

/// The path that a walk gives. A root alone has a backslash behind it.
pub open spec fn arrived(at: Seq<char>, root: int) -> Seq<char> {
    if at.len() == root {
        at.push('\\')
    } else {
        at
    }
}

/// The canonical path `k` levels above the canonical path `base`.
pub open spec fn raised_to(base: Seq<char>, k: int) -> Seq<char> {
    arrived(ancestor(walk_start(base), root_end(base), k), root_end(base))
}

/// A slash turned into a backslash.
pub open spec fn backslashed(c: char) -> char {
    if c == '/' {
        '\\'
    } else {
        c
    }
}

/// What holds of a join on Windows.
///
/// - A part that begins with a drive or with a share takes the place of the base.
/// - A relative part follows the base, behind a backslash, unless the base ends with a
///   separator, is a bare drive or is empty.
/// - A rooted part takes the place of all of the base but its drive or its share.
/// - Below a verbatim base plain names follow the base, each behind a backslash.
/// - Below a canonical base any part is walked name by name, a rooted one from the root.
pub open spec fn is_windows_join(base: Seq<char>, part: Seq<char>, res: Seq<char>) -> bool {
    &&& names_drive(part) || names_share(part) ==> res == part
    &&& is_plain_relative(part) && (part.len() == 0 || !crate::paths::is_verbatim(base)) ==> res
        == if base.len() == 0 || is_separator(base.last()) || names_drive(base) && base.len() == 2 {
        base + part
    } else {
        base + seq!['\\'] + part
    }
    &&& is_rooted(part) && !names_host(part) && !names_host(base) ==> res == if names_drive(base) {
        base.take(2) + part
    } else {
        part
    }
    &&& is_rooted(part) && !names_host(part) && names_share(base) && !crate::paths::is_verbatim(
        base,
    ) ==> res == base.take(share_end(base)) + part
    &&& is_clean_verbatim(base) && is_plain_names(part) ==> res == base + seq!['\\']
        + part.map_values(|c: char| backslashed(c))
    &&& is_canonical(base) && part.len() > 0 && !names_drive(part) && !names_host(part) ==> {
        let root = root_end(base);
        let from = if is_rooted(part) {
            base.take(root)
        } else {
            walk_start(base)
        };
        res == arrived(walked(from, root, part), root)
    }
}

/// What holds, on every system, of the text that comes of joining `part` to `base`.
pub open spec fn is_join(base: Seq<char>, part: Seq<char>, res: Seq<char>) -> bool {
    res == slash_join(base, part) || is_windows_join(base, part, res)
}

/// `std::path::Path::join`, whose result depends on the system. Where the slash separates
/// names, a relative path is put behind the directory and an absolute one replaces it.
/// Windows treats prefixes, roots and the verbatim mark in its own way, as documented for
/// `PathBuf::push`: a path with a prefix, such as a drive or a share, replaces the
/// directory, a root replaces all but the prefix, and below a verbatim path the result is
/// normalized, so that `.` and `..` are removed. The contract says that the result is one
/// of the two. It does not say what Windows makes of hosts that are written with slashes
/// or without a share, nor, below a verbatim path that is not canonical, of parts other
/// than plain names.
#[verifier::external_body]
pub(crate) fn join_path(base: &str, part: &str) -> (res: String)
    ensures
        is_join(base@, part@, res@),
{
    std::path::Path::new(base).join(part).to_string_lossy().into_owned()
}

/// Whether names that are joined to `base` follow it on every system.
pub open spec fn takes_names(base: Seq<char>) -> bool {
    ||| is_clean_verbatim(base)
    ||| {
        &&& !crate::paths::is_verbatim(base)
        &&& base != crate::paths::verbatim_mark().take(3)
        &&& ends_in_name(base)
    }
}

/// Whether a join of `part` to `base` is, once normalized, the same on every system.
pub open spec fn joins_alike(base: Seq<char>, part: Seq<char>) -> bool {
    &&& takes_names(base)
    &&& if crate::paths::is_verbatim(base) {
        part.len() == 0 || is_plain_names(part)
    } else {
        is_plain_relative(part)
    }
}

/// What follows a separator behind a path that is verbatim or takes names is normalized
/// on its own.
pub proof fn lemma_normalized_below(base: Seq<char>, sep: char, tail: Seq<char>)
    requires
        crate::paths::is_verbatim(base) || takes_names(base),
        is_separator(sep),
    ensures
        crate::paths::normalized(base + seq![sep] + tail) == crate::paths::normalized(base) + seq![
            '/',
        ] + tail.map_values(|c: char| crate::paths::slashed(c)),
{
    let whole = base + seq![sep] + tail;
    let mark = crate::paths::verbatim_mark();
    if crate::paths::is_verbatim(base) {
        assert(whole.subrange(0, 4) =~= base.subrange(0, 4));
    } else if crate::paths::is_verbatim(whole) {
        assert(whole.subrange(0, 4) =~= mark);
        assert(whole[0] == mark[0] && whole[1] == mark[1] && whole[2] == mark[2] && whole[3]
            == mark[3]);
        if base.len() >= 4 {
            assert(base.subrange(0, 4) =~= mark);
        } else if base.len() == 3 {
            assert(base =~= mark.take(3));
        } else {
            assert(base.last() == '\\');
        }
    }
    assert(crate::paths::normalized(whole) =~= crate::paths::normalized(base) + seq!['/']
        + tail.map_values(|c: char| crate::paths::slashed(c)));
}

/// A path without a backslash in front is normalized character by character.
pub proof fn lemma_normalized_relative(part: Seq<char>)
    requires
        part.len() > 0 ==> part[0] != '\\',
    ensures
        crate::paths::normalized(part) == part.map_values(|c: char| crate::paths::slashed(c)),
{
    if crate::paths::is_verbatim(part) {
        assert(part[0] == part.subrange(0, 4)[0]);
    }
}

/// The text of a join that is alike on every system: the directory, a slash or a
/// backslash, and the relative path, in which the separators may be written anew below a
/// verbatim directory.
pub proof fn lemma_join_is_below(base: Seq<char>, part: Seq<char>, res: Seq<char>)
    requires
        joins_alike(base, part),
        is_join(base, part, res),
    ensures
        ({
            ||| res == base + seq!['/'] + part
            ||| res == base + seq!['\\'] + part
            ||| crate::paths::is_verbatim(base) && res == base + seq!['\\'] + part.map_values(
                |c: char| backslashed(c),
            )
        }),
{
}

/// However a system joins a relative path to a directory, the normalized result is
/// the directory, a slash and the relative path, each normalized.
pub proof fn lemma_join_normalizes_alike(base: Seq<char>, part: Seq<char>, res: Seq<char>)
    requires
        joins_alike(base, part),
        is_join(base, part, res),
    ensures
        crate::paths::normalized(res) == crate::paths::normalized(base) + seq!['/']
            + crate::paths::normalized(part),
{
    lemma_join_is_below(base, part, res);
    lemma_normalized_relative(part);
    let turned = part.map_values(|c: char| backslashed(c));
    lemma_normalized_below(base, '/', part);
    lemma_normalized_below(base, '\\', part);
    lemma_normalized_below(base, '\\', turned);
    assert(turned.map_values(|c: char| crate::paths::slashed(c)) =~= part.map_values(
        |c: char| crate::paths::slashed(c),
    ));
}

/// Whether `name` is one name, neither `.` nor `..`, that no system takes for more.
pub open spec fn is_plain_name(name: Seq<char>) -> bool {
    &&& name.len() > 0
    &&& name != seq!['.'] && name != seq!['.', '.']
    &&& forall|i: int|
        0 <= i < name.len() ==> !is_separator(#[trigger] name[i]) && name[i] != ':'
}

/// A plain name is a path of one name, and written the one way.
pub proof fn lemma_plain_name(name: Seq<char>)
    requires
        is_plain_name(name),
    ensures
        is_plain_names(name),
        ends_in_name(name),
        crate::paths::normalized(name) == name,
{
    assert forall|i: int| 0 <= i < name.len() implies !#[trigger] is_dots_at(name, i) by {
        if is_dots_at(name, i) {
            if i > 0 {
                assert(!is_separator(name[i - 1]));
            } else if name.len() == 1 {
                assert(name =~= seq!['.']);
            } else if name.len() == 2 {
                assert(name =~= seq!['.', '.']);
            } else {
                assert(!is_separator(name[1]) && !is_separator(name[2]));
            }
        }
    }
    crate::paths::lemma_slashed_path_is_kept(name);
}

/// A name joined to a path that takes names gives such a path again.
pub proof fn lemma_join_of_name_takes_names(base: Seq<char>, name: Seq<char>, res: Seq<char>)
    requires
        takes_names(base),
        is_plain_name(name),
        is_join(base, name, res),
    ensures
        takes_names(res),
{
    lemma_plain_name(name);
    lemma_join_is_below(base, name, res);
    assert(name.map_values(|c: char| backslashed(c)) =~= name);
    let sep = res[base.len() as int];
    assert(res =~= base + seq![sep] + name);
    assert(res.last() == name.last());
    let mark = crate::paths::verbatim_mark();
    if crate::paths::is_verbatim(base) {
        assert(res.subrange(0, 4) =~= base.subrange(0, 4));
        assert forall|i: int| 4 <= i < res.len() && is_separator(#[trigger] res[i]) implies
            !is_separator(res[i - 1]) by {
            if i < base.len() {
                assert(res[i] == base[i]);
            } else if i == base.len() {
                assert(res[i - 1] == base.last());
            } else {
                assert(res[i] == name[i - base.len() - 1]);
            }
        }
        if res.len() > 6 && names_drive(res.skip(4)) && res[6] == '/' {
            assert(res[5] == ':');
            if base.len() > 6 {
                assert(names_drive(base.skip(4)));
            } else if base.len() == 6 {
                assert(base.last() == ':');
            } else {
                assert(name[0] == '/' || name[1] == '/');
            }
        }
    } else {
        if crate::paths::is_verbatim(res) {
            assert(res.subrange(0, 4) =~= mark);
            assert(res[0] == mark[0] && res[1] == mark[1] && res[2] == mark[2] && res[3] == mark[3]);
            if base.len() >= 4 {
                assert(base.subrange(0, 4) =~= mark);
            } else if base.len() == 3 {
                assert(base =~= mark.take(3));
            } else {
                assert(base.last() == '\\');
            }
        }
        if res == mark.take(3) {
            assert(res[0] == '\\' && res[1] == '\\');
            assert(base.last() == res[base.len() - 1]);
        }
    }
}

/// Three levels up from a canonical path of Windows: either that is written behind the
/// path, or the path is cut.
pub proof fn lemma_three_levels_up(base: Seq<char>, res: Seq<char>)
    requires
        is_canonical(base),
        is_join(base, "../../.."@, res),
    ensures
        res == base + "/../../.."@ || res == raised_to(base, 3),
{
    let root = root_end(base);
    let three = seq!['.', '.', '/', '.', '.', '/', '.', '.'];
    let two = seq!['.', '.', '/', '.', '.'];
    let one = seq!['.', '.'];
    reveal_strlit("../../..");
    reveal_strlit("/../../..");
    assert("../../.."@ =~= three);
    assert("/../../.."@ =~= seq!['/'] + three);
    assert(base + seq!['/'] + three =~= base + (seq!['/'] + three));
    reveal_with_fuel(last_name_start, 4);
    assert(three.drop_last().drop_last().last() == '/');
    assert(last_name_start(three) == 6);
    assert(three.take(5) =~= two);
    assert(three.skip(6) =~= one);
    assert(two.drop_last().drop_last().last() == '/');
    assert(last_name_start(two) == 3);
    assert(two.take(2) =~= one);
    assert(two.skip(3) =~= one);
    assert(one.drop_last().drop_last() =~= Seq::<char>::empty());
    assert(last_name_start(one) == 0);
    assert(one.len() != seq!['.'].len());
    reveal_with_fuel(ancestor, 4);
    let at = walk_start(base);
    assert(walked(at, root, one) == ancestor(at, root, 1));
    assert(walked(at, root, two) == ancestor(at, root, 2));
    assert(walked(at, root, three) == ancestor(at, root, 3));
}

/// A name joined to a directory follows it behind a separator: where the path of the
/// directory begins with no backslash and ends in a character of a name, and the name has
/// neither a separator nor a colon and is not `.` or `..`.
pub proof fn lemma_name_follows_the_directory(base: Seq<char>, name: Seq<char>, res: Seq<char>)
    requires
        base.len() > 0,
        base[0] != '\\',
        base[base.len() - 1] != '/' && base[base.len() - 1] != '\\' && base[base.len() - 1] != ':',
        name.len() > 0,
        forall|i: int|
            0 <= i < name.len() ==> #[trigger] name[i] != '/' && name[i] != '\\' && name[i] != ':',
        name != seq!['.'] && name != seq!['.', '.'],
        is_join(base, name, res),
    ensures
        res == base + "/"@ + name || res == base + "\\"@ + name,
{
    reveal_strlit("/");
    reveal_strlit("\\");
    assert("/"@ =~= seq!['/']);
    assert("\\"@ =~= seq!['\\']);
    if crate::paths::is_verbatim(base) {
        assert(base[0] == base.subrange(0, 4)[0]);
    }
    lemma_plain_name(name);
}

/// Joining where the slash separates names: a path with a slash in front replaces the
/// directory; any other follows it, with one slash in between at least; what is joined
/// stands at the end; and joining one after the other is the same as joining what comes of
/// the last two.
pub proof fn lemma_joining_by_slash(base: Seq<char>, part: Seq<char>, last: Seq<char>)
    ensures
        slash_join(base, seq!['/'] + part) == seq!['/'] + part,
        slash_join(Seq::empty(), part) == part,
        part.len() > 0 && part[0] != '/' && base.len() > 0 ==> {
            let n = slash_join(base, part).len() - part.len();
            &&& base.is_prefix_of(slash_join(base, part))
            &&& part == slash_join(base, part).skip(n)
            &&& slash_join(base, part)[n - 1] == '/'
            &&& n == base.len() || n == base.len() + 1 && base.last() != '/'
        },
        slash_join(slash_join(base, part), last) == slash_join(base, slash_join(part, last)),
{
    assert((seq!['/'] + part)[0] == '/');
    assert(Seq::<char>::empty() + part =~= part);
    let joined = slash_join(base, part);
    if part.len() > 0 && part[0] != '/' && base.len() > 0 {
        let n = joined.len() - part.len();
        assert(base =~= joined.subrange(0, base.len() as int));
        assert(part =~= joined.skip(n));
    }
    let (left, right) = (slash_join(joined, last), slash_join(base, slash_join(part, last)));
    if last.len() > 0 && last[0] == '/' {
        assert(left == right);
    } else if part.len() > 0 && part[0] == '/' {
        assert(slash_join(part, last)[0] == '/');
        assert(left == right);
    } else if part.len() == 0 {
        assert(part + last =~= last);
        if base.len() > 0 && base.last() != '/' {
            assert(joined =~= base + seq!['/']);
            assert(joined.last() == '/');
            assert(left =~= base + seq!['/'] + last);
        } else {
            assert(base + part =~= base);
        }
        assert(left =~= right);
    } else {
        assert(slash_join(part, last)[0] == part[0]);
        assert(joined.last() == part.last());
        assert(left =~= right);
    }
}

} // verus!
